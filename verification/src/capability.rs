//! The adapter-neutral session limits used by scheduling.
//!
//! Durations are carried as whole nanoseconds.

use vstd::prelude::*;

verus! {

/// Nanoseconds in one millisecond.
pub const NANOS_PER_MILLI: u64 = 1_000_000;

/// Where the operational capability values came from.
///
/// A measured capability is an estimate from evidence, not a guaranteed
/// adapter maximum.
#[derive(Clone, Copy, Debug, PartialEq, Eq, Structural)]
pub enum CapabilityProvenance {
    BuiltInDefault,
    MeasuredFromCapture,
}

/// The small, adapter-neutral set of session limits used by scheduling.
#[derive(Clone, Copy, Debug, PartialEq, Eq, Structural)]
pub struct HardwareCapability {
    request_budget_per_second: u32,
    representative_read_latency_ns: u64,
    provenance: CapabilityProvenance,
}

#[derive(Clone, Copy, Debug, PartialEq, Eq, Structural)]
pub enum CapabilityError {
    RequestBudgetMustBePositive,
    ReadLatencyMustBePositive,
}

/// The model of a capability: budget, latency in nanoseconds, provenance.
pub struct CapabilityView {
    pub request_budget_per_second: u32,
    pub representative_read_latency_ns: u64,
    pub provenance: CapabilityProvenance,
}

impl View for HardwareCapability {
    type V = CapabilityView;

    closed spec fn view(&self) -> CapabilityView {
        CapabilityView {
            request_budget_per_second: self.request_budget_per_second,
            representative_read_latency_ns: self.representative_read_latency_ns,
            provenance: self.provenance,
        }
    }
}

impl HardwareCapability {
    /// Both limits of a capability are positive.
    pub closed spec fn wf(self) -> bool {
        self.request_budget_per_second > 0 && self.representative_read_latency_ns > 0
    }

    /// Conservative fallback until a capability report supplies evidence:
    /// four requests per second and 250 ms per read.
    pub fn conservative_default() -> (r: Self)
        ensures
            r.wf(),
            r@ == (CapabilityView {
                request_budget_per_second: 4,
                representative_read_latency_ns: 250_000_000,
                provenance: CapabilityProvenance::BuiltInDefault,
            }),
    {
        Self {
            request_budget_per_second: 4,
            representative_read_latency_ns: 250 * NANOS_PER_MILLI,
            provenance: CapabilityProvenance::BuiltInDefault,
        }
    }

    /// A capability from positive limits; a zero budget is reported before a
    /// zero latency.
    pub fn new(
        request_budget_per_second: u32,
        representative_read_latency_ns: u64,
        provenance: CapabilityProvenance,
    ) -> (r: Result<Self, CapabilityError>)
        ensures
            request_budget_per_second == 0 ==> r == Err::<Self, CapabilityError>(
                CapabilityError::RequestBudgetMustBePositive,
            ),
            request_budget_per_second != 0 && representative_read_latency_ns == 0 ==> r == Err::<
                Self,
                CapabilityError,
            >(CapabilityError::ReadLatencyMustBePositive),
            request_budget_per_second != 0 && representative_read_latency_ns != 0 ==> (r matches Ok(
                capability,
            ) && capability.wf() && capability@ == (CapabilityView {
                request_budget_per_second,
                representative_read_latency_ns,
                provenance,
            })),
    {
        if request_budget_per_second == 0 {
            return Err(CapabilityError::RequestBudgetMustBePositive);
        }
        if representative_read_latency_ns == 0 {
            return Err(CapabilityError::ReadLatencyMustBePositive);
        }
        Ok(Self { request_budget_per_second, representative_read_latency_ns, provenance })
    }

    pub fn request_budget_per_second(self) -> (r: u32)
        ensures
            r == self@.request_budget_per_second,
    {
        self.request_budget_per_second
    }

    /// The representative read latency, in nanoseconds.
    pub fn representative_read_latency(self) -> (r: u64)
        ensures
            r == self@.representative_read_latency_ns,
    {
        self.representative_read_latency_ns
    }

    pub fn provenance(self) -> (r: CapabilityProvenance)
        ensures
            r == self@.provenance,
    {
        self.provenance
    }
}

impl Default for HardwareCapability {
    fn default() -> (r: Self)
        ensures
            r@ == (CapabilityView {
                request_budget_per_second: 4,
                representative_read_latency_ns: 250_000_000,
                provenance: CapabilityProvenance::BuiltInDefault,
            }),
    {
        Self::conservative_default()
    }
}

impl CapabilityError {
    /// The message describing the error.
    pub fn message(self) -> (r: &'static str)
        ensures
            self == CapabilityError::RequestBudgetMustBePositive ==> r@
                == "request budget must be greater than zero"@,
            self == CapabilityError::ReadLatencyMustBePositive ==> r@
                == "representative read latency must be greater than zero"@,
    {
        match self {
            CapabilityError::RequestBudgetMustBePositive => "request budget must be greater than zero",
            CapabilityError::ReadLatencyMustBePositive => "representative read latency must be greater than zero",
        }
    }
}

} // verus!
