//! Drift scoring: how far the newest event departs from the one before it.

use crate::event::{
    changed_fields, count_changed_fields, history_value, Event, EventValue, FIELD_WEIGHT,
};
use crate::risk::{risk_of_score, Risk};
use vstd::prelude::*;

verus! {

/// Outcome of a drift assessment.
#[derive(Debug)]
pub struct DriftReport {
    pub risk: Risk,
    pub score: u64,
    /// Human-readable reasons. Reserved: the present scoring gives none.
    pub reasons: Vec<String>,
}

/// Drift score of a history: the weight of every tracked field that differs
/// between its two newest events, and zero where there are fewer than two.
pub open spec fn drift_score(history: Seq<EventValue>) -> nat {
    if history.len() < 2 {
        0
    } else {
        FIELD_WEIGHT as nat * changed_fields(
            history[history.len() - 2].meta,
            history[history.len() - 1].meta,
        )
    }
}

impl DriftReport {
    /// Whether this is the report that `history` calls for: its drift score,
    /// the category of that score, and no reasons.
    pub open spec fn reports(self, history: Seq<EventValue>) -> bool {
        &&& self.score == drift_score(history)
        &&& self.risk == risk_of_score(self.score as int)
        &&& self.reasons@.len() == 0
    }
}

/// Scores a history by its two newest events.
pub fn assess(history: &Vec<Event>) -> (report: DriftReport)
    ensures
        report.reports(history_value(history@)),
{
    let n: usize = history.len();
    let mut score: u64 = 0;
    if n > 1 {
        let changed: u64 = count_changed_fields(&history[n - 2].meta, &history[n - 1].meta);
        score = FIELD_WEIGHT * changed;
    }
    DriftReport { risk: Risk::from_score(score), score, reasons: Vec::new() }
}

/// A history with fewer than two events has no drift: its score is zero and
/// its risk is low.
pub proof fn lemma_short_history_has_no_drift(history: Seq<EventValue>)
    requires
        history.len() <= 1,
    ensures
        drift_score(history) == 0,
        risk_of_score(drift_score(history) as int) == Risk::Low,
{
}

/// Two reports on one history agree in every part.
pub proof fn lemma_drift_repeatable(first: DriftReport, second: DriftReport, history: Seq<EventValue>)
    requires
        first.reports(history),
        second.reports(history),
    ensures
        first.score == second.score,
        first.risk == second.risk,
        first.reasons@ == second.reasons@,
{
    assert(first.reasons@ =~= second.reasons@);
}

/// A drift score is one of 0, 20, 40, 60 and 80, and its category follows the
/// thresholds: high from 60, medium from 30 up to 60, low otherwise.
pub proof fn lemma_drift_score_range(history: Seq<EventValue>)
    ensures
        drift_score(history) % 20 == 0,
        drift_score(history) <= 80,
        risk_of_score(drift_score(history) as int) == Risk::High <==> drift_score(history) >= 60,
        risk_of_score(drift_score(history) as int) == Risk::Medium <==> 30 <= drift_score(history)
            < 60,
        risk_of_score(drift_score(history) as int) == Risk::Low <==> drift_score(history) < 30,
{
}

} // verus!
