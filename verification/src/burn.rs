//! Gas burners: what charges and records gas for ArbOS operations.
use vstd::prelude::*;

use crate::multigas::{sub_clamped, MultiGas, ResourceKind};
use crate::word::Address;

verus! {

/// When, relative to running the EVM, storage work is traced.
#[derive(Clone, Copy, Debug, PartialEq, Eq, Structural)]
pub enum TracingScenario {
    BeforeEvm,
    DuringEvm,
    AfterEvm,
}

/// What storage work is reported to a tracer with: the caller and the
/// contract of the traced call, when it happens, and the call depth.
#[derive(Clone, Copy, Debug)]
pub struct TracingInfo {
    pub caller: Address,
    pub contract: Address,
    pub scenario: TracingScenario,
    pub depth: u64,
}

/// Something that charges gas for ArbOS work.
pub trait Burner {
    /// Whether this burner has a notion of a gas limit.
    spec fn is_metered(&self) -> bool;

    /// Charges `amount` gas of `kind`.
    fn burn(&mut self, kind: ResourceKind, amount: u64) -> Result<(), String>;

    /// Charges a multi-dimensional amount of gas.
    fn burn_multi_gas(&mut self, amount: MultiGas) -> Result<(), String>;

    /// The single-dimensional gas burnt so far.
    fn burned(&self) -> u64;

    /// The gas left; only burners with a gas limit have one.
    fn gas_left(&self) -> u64
        requires
            self.is_metered(),
    ;

    /// `Err` where the gas is exhausted; only burners with a gas limit can tell.
    fn burn_out(&self) -> Result<(), String>
        requires
            self.is_metered(),
    ;

    /// Records an error that restricts further work.
    fn restrict(&self, err: Option<&str>);

    /// Turns an internal failure into the error to return.
    fn handle_error(&self, err: &str) -> String
        requires
            self.is_metered(),
    ;

    /// Whether state changes are forbidden.
    fn read_only(&self) -> bool;

    /// The tracing that storage work is reported to, if any.
    fn tracing_info(&self) -> Option<&TracingInfo>;
}

/// The burner of system operations: it only counts the gas, never runs out.
#[derive(Clone)]
pub struct SystemBurner {
    gas_burnt: MultiGas,
    tracing_info: Option<TracingInfo>,
    read_only: bool,
}

impl SystemBurner {
    /// The gas counted so far.
    pub closed spec fn gas_burnt_view(&self) -> MultiGas {
        self.gas_burnt
    }

    /// Whether the burner forbids state changes.
    pub closed spec fn read_only_view(&self) -> bool {
        self.read_only
    }

    /// The tracing the burner reports to.
    pub closed spec fn tracing_info_view(&self) -> Option<TracingInfo> {
        self.tracing_info
    }

    /// A burner that has counted nothing, reporting to `tracing_info`.
    pub fn new(tracing_info: Option<TracingInfo>, read_only: bool) -> (r: Self)
        ensures
            r.gas_burnt_view().gas_view() == crate::multigas::zero_gas(),
            r.gas_burnt_view().total_view() == 0,
            r.gas_burnt_view().refund_view() == 0,
            r.read_only_view() == read_only,
            r.tracing_info_view() == tracing_info,
    {
        SystemBurner { gas_burnt: MultiGas::zero(), tracing_info, read_only }
    }
}

impl Burner for SystemBurner {
    open spec fn is_metered(&self) -> bool {
        false
    }

    fn burn(&mut self, kind: ResourceKind, amount: u64) -> (r: Result<(), String>)
        ensures
            r is Ok,
            MultiGas::is_saturating_increment(
                old(self).gas_burnt_view(),
                kind,
                amount,
                final(self).gas_burnt_view(),
            ),
            final(self).read_only_view() == old(self).read_only_view(),
            final(self).tracing_info_view() == old(self).tracing_info_view(),
    {
        self.gas_burnt.saturating_increment_into(kind, amount);
        Ok(())
    }

    fn burn_multi_gas(&mut self, amount: MultiGas) -> (r: Result<(), String>)
        ensures
            r is Ok,
            MultiGas::is_saturating_sum(
                old(self).gas_burnt_view(),
                amount,
                final(self).gas_burnt_view(),
            ),
            final(self).read_only_view() == old(self).read_only_view(),
            final(self).tracing_info_view() == old(self).tracing_info_view(),
    {
        self.gas_burnt.saturating_add_into(&amount);
        Ok(())
    }

    fn burned(&self) -> (r: u64)
        ensures
            r == sub_clamped(
                self.gas_burnt_view().total_view(),
                self.gas_burnt_view().refund_view(),
            ),
    {
        self.gas_burnt.single_gas()
    }

    fn gas_left(&self) -> u64 {
        0
    }

    fn burn_out(&self) -> Result<(), String> {
        Ok(())
    }

    fn restrict(&self, err: Option<&str>) {
    }

    fn handle_error(&self, err: &str) -> String {
        err.to_string()
    }

    fn read_only(&self) -> (r: bool)
        ensures
            r == self.read_only_view(),
    {
        self.read_only
    }

    fn tracing_info(&self) -> (r: Option<&TracingInfo>)
        ensures
            match r {
                Some(t) => self.tracing_info_view() == Some(*t),
                None => self.tracing_info_view() is None,
            },
    {
        match &self.tracing_info {
            Some(t) => Some(t),
            None => None,
        }
    }
}

} // verus!
