//! The metrics of a record, in the order in which the analyser prints them.
//!
//! Reading a record and aggregating its values both go by this one list: the
//! `k`-th number of a metrics line belongs to the metric at position `k`.

use vstd::prelude::*;

verus! {

/// How many metrics a record holds at most.
pub const METRIC_COUNT: usize = 19;

/// A class-level metric.
#[derive(Clone, Copy, Debug, PartialEq, Eq, Structural)]
pub enum Metric {
    /// Weighted methods per class, here the number of methods.
    WmcNom,
    /// Depth of the inheritance tree.
    Dit,
    /// Number of children.
    Noc,
    /// Coupling between objects.
    Cbo,
    /// Response for a class.
    Rfc,
    /// Lack of cohesion in methods.
    Lcom,
    /// Afferent couplings.
    Ca,
    /// Efferent couplings.
    Ce,
    /// Number of public methods.
    Npm,
    /// Lack of cohesion in methods, second formula.
    Lcom3,
    /// Lines of code.
    Loc,
    /// Data access metric.
    Dam,
    /// Measure of aggregation.
    Moa,
    /// Measure of functional abstraction.
    Mfa,
    /// Cohesion among methods.
    Cam,
    /// Inheritance coupling.
    Ic,
    /// Coupling between methods.
    Cbm,
    /// Average method complexity.
    Amc,
    /// Cyclomatic complexity.
    Cc,
}

impl Metric {
    /// The position of the metric in a record, from zero.
    pub open spec fn spec_position(self) -> nat {
        match self {
            Metric::WmcNom => 0,
            Metric::Dit => 1,
            Metric::Noc => 2,
            Metric::Cbo => 3,
            Metric::Rfc => 4,
            Metric::Lcom => 5,
            Metric::Ca => 6,
            Metric::Ce => 7,
            Metric::Npm => 8,
            Metric::Lcom3 => 9,
            Metric::Loc => 10,
            Metric::Dam => 11,
            Metric::Moa => 12,
            Metric::Mfa => 13,
            Metric::Cam => 14,
            Metric::Ic => 15,
            Metric::Cbm => 16,
            Metric::Amc => 17,
            Metric::Cc => 18,
        }
    }

    /// The metric at a position of a record; none from [`METRIC_COUNT`] on.
    pub open spec fn spec_at(position: nat) -> Option<Metric> {
        if position == 0 {
            Some(Metric::WmcNom)
        } else if position == 1 {
            Some(Metric::Dit)
        } else if position == 2 {
            Some(Metric::Noc)
        } else if position == 3 {
            Some(Metric::Cbo)
        } else if position == 4 {
            Some(Metric::Rfc)
        } else if position == 5 {
            Some(Metric::Lcom)
        } else if position == 6 {
            Some(Metric::Ca)
        } else if position == 7 {
            Some(Metric::Ce)
        } else if position == 8 {
            Some(Metric::Npm)
        } else if position == 9 {
            Some(Metric::Lcom3)
        } else if position == 10 {
            Some(Metric::Loc)
        } else if position == 11 {
            Some(Metric::Dam)
        } else if position == 12 {
            Some(Metric::Moa)
        } else if position == 13 {
            Some(Metric::Mfa)
        } else if position == 14 {
            Some(Metric::Cam)
        } else if position == 15 {
            Some(Metric::Ic)
        } else if position == 16 {
            Some(Metric::Cbm)
        } else if position == 17 {
            Some(Metric::Amc)
        } else if position == 18 {
            Some(Metric::Cc)
        } else {
            None
        }
    }

    /// The position of the metric in a record, from zero.
    pub fn position(self) -> (r: usize)
        ensures
            r == self.spec_position(),
            r < METRIC_COUNT,
    {
        match self {
            Metric::WmcNom => 0,
            Metric::Dit => 1,
            Metric::Noc => 2,
            Metric::Cbo => 3,
            Metric::Rfc => 4,
            Metric::Lcom => 5,
            Metric::Ca => 6,
            Metric::Ce => 7,
            Metric::Npm => 8,
            Metric::Lcom3 => 9,
            Metric::Loc => 10,
            Metric::Dam => 11,
            Metric::Moa => 12,
            Metric::Mfa => 13,
            Metric::Cam => 14,
            Metric::Ic => 15,
            Metric::Cbm => 16,
            Metric::Amc => 17,
            Metric::Cc => 18,
        }
    }

    /// The metric at a position of a record; none from [`METRIC_COUNT`] on.
    pub fn at(position: usize) -> (r: Option<Metric>)
        ensures
            r == Metric::spec_at(position as nat),
            r is Some <==> position < METRIC_COUNT,
    {
        match position {
            0 => Some(Metric::WmcNom),
            1 => Some(Metric::Dit),
            2 => Some(Metric::Noc),
            3 => Some(Metric::Cbo),
            4 => Some(Metric::Rfc),
            5 => Some(Metric::Lcom),
            6 => Some(Metric::Ca),
            7 => Some(Metric::Ce),
            8 => Some(Metric::Npm),
            9 => Some(Metric::Lcom3),
            10 => Some(Metric::Loc),
            11 => Some(Metric::Dam),
            12 => Some(Metric::Moa),
            13 => Some(Metric::Mfa),
            14 => Some(Metric::Cam),
            15 => Some(Metric::Ic),
            16 => Some(Metric::Cbm),
            17 => Some(Metric::Amc),
            18 => Some(Metric::Cc),
            _ => None,
        }
    }
}

/// Position and metric name each other: the metric at the position of `m` is
/// `m`, and a position below [`METRIC_COUNT`] is the position of its metric.
pub proof fn lemma_position_round_trip(m: Metric, position: nat)
    ensures
        Metric::spec_at(m.spec_position()) == Some(m),
        m.spec_position() < METRIC_COUNT,
        position < METRIC_COUNT ==> Metric::spec_at(position) is Some && Metric::spec_at(
            position,
        )->0.spec_position() == position,
        position >= METRIC_COUNT ==> Metric::spec_at(position) is None,
{
}

} // verus!
