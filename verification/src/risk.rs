//! Risk categories and the thresholds that separate them.

use vstd::prelude::*;

verus! {

/// Coarse risk category derived from a drift score.
#[derive(Clone, Copy, Debug, PartialEq, Eq, Structural)]
pub enum Risk {
    Low,
    Medium,
    High,
}

/// Category of a score: `High` from 60, `Medium` from 30, `Low` below.
pub open spec fn risk_of_score(score: int) -> Risk {
    if score >= 60 {
        Risk::High
    } else if score >= 30 {
        Risk::Medium
    } else {
        Risk::Low
    }
}

/// The name of a category.
pub open spec fn risk_label(risk: Risk) -> Seq<char> {
    match risk {
        Risk::Low => "Low"@,
        Risk::Medium => "Medium"@,
        Risk::High => "High"@,
    }
}

impl Risk {
    /// The name of the category: `Low`, `Medium` or `High`.
    pub fn label(&self) -> (name: &'static str)
        ensures
            name@ == risk_label(*self),
    {
        match self {
            Risk::Low => "Low",
            Risk::Medium => "Medium",
            Risk::High => "High",
        }
    }

    /// Classifies a drift score, testing the thresholds from the highest down.
    pub fn from_score(score: u64) -> (r: Risk)
        ensures
            r == risk_of_score(score as int),
    {
        if score >= 60 {
            Risk::High
        } else if score >= 30 {
            Risk::Medium
        } else {
            Risk::Low
        }
    }
}

} // verus!
