//! The kinds of attractors and of sequence behavior.
use vstd::prelude::*;

verus! {

/// Shape of a detected attractor.
#[derive(Debug, Clone, Copy, PartialEq, Eq, Structural)]
pub enum AttractorKind {
    FixedPoint,
    Cycle,
    Unknown,
}

/// How a sequence behaves over the computed terms.
#[derive(Debug, Clone, Copy, PartialEq, Eq, Structural)]
pub enum BehaviorKind {
    FixedPoint,
    Periodic,
    Divergent,
    ChaoticOrUnresolved,
    InsufficientData,
    CalculationError,
}

impl AttractorKind {
    /// The snake-case name of the kind, as written in sessions and reasons.
    pub open spec fn name(self) -> Seq<char> {
        match self {
            AttractorKind::FixedPoint => "fixed_point"@,
            AttractorKind::Cycle => "cycle"@,
            AttractorKind::Unknown => "unknown"@,
        }
    }

    /// The snake-case name of the kind.
    pub fn name_str(&self) -> (r: &'static str)
        ensures
            r@ == self.name(),
    {
        match self {
            AttractorKind::FixedPoint => "fixed_point",
            AttractorKind::Cycle => "cycle",
            AttractorKind::Unknown => "unknown",
        }
    }

    /// The name of the kind as the results table writes it: its variant name
    /// in lower case, without separators.
    pub open spec fn table_label(self) -> Seq<char> {
        match self {
            AttractorKind::FixedPoint => "fixedpoint"@,
            AttractorKind::Cycle => "cycle"@,
            AttractorKind::Unknown => "unknown"@,
        }
    }

    /// The name of the kind as the results table writes it.
    pub fn table_label_str(&self) -> (r: &'static str)
        ensures
            r@ == self.table_label(),
    {
        match self {
            AttractorKind::FixedPoint => "fixedpoint",
            AttractorKind::Cycle => "cycle",
            AttractorKind::Unknown => "unknown",
        }
    }
}

impl BehaviorKind {
    /// The snake-case name of the behavior, as written in sessions.
    pub open spec fn name(self) -> Seq<char> {
        match self {
            BehaviorKind::FixedPoint => "fixed_point"@,
            BehaviorKind::Periodic => "periodic"@,
            BehaviorKind::Divergent => "divergent"@,
            BehaviorKind::ChaoticOrUnresolved => "chaotic_or_unresolved"@,
            BehaviorKind::InsufficientData => "insufficient_data"@,
            BehaviorKind::CalculationError => "calculation_error"@,
        }
    }

    /// The snake-case name of the behavior.
    pub fn name_str(&self) -> (r: &'static str)
        ensures
            r@ == self.name(),
    {
        match self {
            BehaviorKind::FixedPoint => "fixed_point",
            BehaviorKind::Periodic => "periodic",
            BehaviorKind::Divergent => "divergent",
            BehaviorKind::ChaoticOrUnresolved => "chaotic_or_unresolved",
            BehaviorKind::InsufficientData => "insufficient_data",
            BehaviorKind::CalculationError => "calculation_error",
        }
    }
}

/// What classification reads of an attractor: its period and kind.
#[derive(Debug, Clone, Copy, PartialEq, Eq, Structural)]
pub struct AttractorSummary {
    pub period: usize,
    pub kind: AttractorKind,
}

} // verus!
