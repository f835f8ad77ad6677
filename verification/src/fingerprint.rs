//! Fingerprinting: the device signature of the newest event and the
//! stability of a whole history.

use crate::digest::{fingerprint_of, fingerprint_tokens};
use crate::event::{
    changed_fields, count_changed_fields, history_value, Event, EventValue, FIELD_WEIGHT,
};
use crate::json::{Json, JsonValue};
use vstd::prelude::*;

verus! {

/// Stability of a history without any change.
pub const FULL_STABILITY: u64 = 100;

/// Derived profile of one user.
#[derive(Debug)]
pub struct Profile {
    pub user_id: String,
    /// Lowercase hex hash of the token list.
    pub fingerprint: String,
    /// Tokens of the newest event, in the fixed field order.
    pub tokens: Vec<String>,
    /// Stability of the history, from 0 to 100.
    pub stability: u64,
    /// Metadata of every event, oldest first.
    pub history: Vec<Json>,
}

/// The token of one field: `prefix` followed by the field's text where the
/// field is present and a string, and nothing otherwise.
pub open spec fn field_token(meta: JsonValue, key: Seq<char>, prefix: Seq<char>) -> Seq<Seq<char>> {
    match meta.field(key) {
        Some(JsonValue::Text(text)) => seq![prefix + text],
        _ => Seq::empty(),
    }
}

/// Tokens of a metadata value: `ip`, `browser`, `os` and `dev_type` in this
/// order, each contributing at most one token.
pub open spec fn tokens_of(meta: JsonValue) -> Seq<Seq<char>> {
    field_token(meta, "ip"@, "ip:"@) + field_token(meta, "browser"@, "browser:"@) + field_token(
        meta,
        "os"@,
        "os:"@,
    ) + field_token(meta, "dev_type"@, "dev:"@)
}

/// Tokens of the newest event of a history; none for an empty history.
pub open spec fn latest_tokens(history: Seq<EventValue>) -> Seq<Seq<char>> {
    if history.len() == 0 {
        Seq::empty()
    } else {
        tokens_of(history.last().meta)
    }
}

/// Number of tracked-field changes over every pair of neighbouring events.
pub open spec fn total_changes(history: Seq<EventValue>) -> nat
    decreases history.len(),
{
    if history.len() < 2 {
        0
    } else {
        total_changes(history.drop_last()) + changed_fields(
            history[history.len() - 2].meta,
            history[history.len() - 1].meta,
        )
    }
}

/// Stability of a history: 100 less 20 for every change, and never below zero.
pub open spec fn stability_of(history: Seq<EventValue>) -> nat {
    let lost = FIELD_WEIGHT as nat * total_changes(history);
    if lost >= FULL_STABILITY as nat {
        0
    } else {
        (FULL_STABILITY as nat - lost) as nat
    }
}

/// Metadata of every event of a history, in order.
pub open spec fn metadata_of(history: Seq<EventValue>) -> Seq<JsonValue> {
    history.map_values(|e: EventValue| e.meta)
}

/// Models of a list of metadata values.
pub open spec fn metadata_value(metas: Seq<Json>) -> Seq<JsonValue> {
    metas.map_values(|m: Json| m@)
}

impl Profile {
    /// Whether this is the profile that `user` with `history` calls for.
    pub open spec fn describes(self, user: Seq<char>, history: Seq<EventValue>) -> bool {
        &&& self.user_id@ == user
        &&& self.tokens.deep_view() == latest_tokens(history)
        &&& self.fingerprint@ == fingerprint_of(latest_tokens(history))
        &&& self.stability == stability_of(history)
        &&& metadata_value(self.history@) == metadata_of(history)
    }
}

/// Appends the token of one field, where the field holds a string.
fn push_field_token(tokens: &mut Vec<String>, meta: &Json, key: &str, prefix: &str)
    ensures
        final(tokens).deep_view() == old(tokens).deep_view() + field_token(meta@, key@, prefix@),
{
    let ghost before = tokens.deep_view();
    match meta.get(key) {
        Some(value) => match value.as_text() {
            Some(text) => {
                let token: String = prefix.to_owned().concat(text.as_str());
                tokens.push(token);
                assert(tokens.deep_view() =~= before + seq![prefix@ + text@]);
            },
            None => {
                assert(tokens.deep_view() =~= before + Seq::<Seq<char>>::empty());
            },
        },
        None => {
            assert(tokens.deep_view() =~= before + Seq::<Seq<char>>::empty());
        },
    }
}

/// Extracts the tokens of a metadata value.
pub fn extract_tokens(meta: &Json) -> (tokens: Vec<String>)
    ensures
        tokens.deep_view() == tokens_of(meta@),
{
    let mut tokens: Vec<String> = Vec::new();
    assert(tokens.deep_view() =~= Seq::<Seq<char>>::empty());
    push_field_token(&mut tokens, meta, "ip", "ip:");
    push_field_token(&mut tokens, meta, "browser", "browser:");
    push_field_token(&mut tokens, meta, "os", "os:");
    push_field_token(&mut tokens, meta, "dev_type", "dev:");
    assert(tokens.deep_view() =~= tokens_of(meta@));
    tokens
}

/// Scans every pair of neighbouring events and derives the stability.
pub fn stability(history: &Vec<Event>) -> (score: u64)
    ensures
        score == stability_of(history_value(history@)),
        score <= 100,
{
    let n: usize = history.len();
    let ghost values = history_value(history@);
    if n < 2 {
        return FULL_STABILITY;
    }
    // `lost` follows the true loss up to the point where stability is gone.
    let mut lost: u64 = 0;
    let mut i: usize = 1;
    assert(total_changes(values.subrange(0, 1)) == 0);
    while i < n
        invariant
            1 <= i <= n,
            n == history.len(),
            values == history_value(history@),
            lost <= 100,
            lost < 100 ==> lost == 20 * total_changes(values.subrange(0, i as int)),
            lost == 100 ==> 20 * total_changes(values.subrange(0, i as int)) >= 100,
        decreases n - i,
    {
        let changed: u64 = count_changed_fields(&history[i - 1].meta, &history[i].meta);
        proof {
            let longer = values.subrange(0, i + 1);
            assert(longer.drop_last() =~= values.subrange(0, i as int));
            assert(longer[i - 1] == history[i - 1]@);
            assert(longer[i as int] == history[i as int]@);
        }
        lost = lost + FIELD_WEIGHT * changed;
        if lost > 100 {
            lost = 100;
        }
        i = i + 1;
    }
    assert(values.subrange(0, n as int) =~= values);
    FULL_STABILITY - lost
}

/// Copies the metadata of every event, oldest first.
pub fn metadata_history(history: &Vec<Event>) -> (metas: Vec<Json>)
    ensures
        metadata_value(metas@) == metadata_of(history_value(history@)),
{
    let mut metas: Vec<Json> = Vec::new();
    let mut i: usize = 0;
    while i < history.len()
        invariant
            i <= history.len(),
            metas.len() == i,
            forall|j: int| 0 <= j < i ==> metas[j]@ == history[j].meta@,
        decreases history.len() - i,
    {
        metas.push(history[i].meta.clone());
        i = i + 1;
    }
    assert(metadata_value(metas@) =~= metadata_of(history_value(history@)));
    metas
}

/// Builds the profile of a user from the user's history.
pub fn profile(user_id: &str, history: &Vec<Event>) -> (profile: Profile)
    ensures
        profile.describes(user_id@, history_value(history@)),
{
    let n: usize = history.len();
    let tokens: Vec<String> = if n == 0 {
        let none: Vec<String> = Vec::new();
        assert(none.deep_view() =~= Seq::<Seq<char>>::empty());
        none
    } else {
        assert(history_value(history@).last() == history[n - 1]@);
        extract_tokens(&history[n - 1].meta)
    };
    let fingerprint: String = fingerprint_tokens(&tokens);
    Profile {
        user_id: user_id.to_owned(),
        fingerprint,
        tokens,
        stability: stability(history),
        history: metadata_history(history),
    }
}

/// A history with fewer than two events is fully stable.
pub proof fn lemma_short_history_is_stable(history: Seq<EventValue>)
    requires
        history.len() <= 1,
    ensures
        stability_of(history) == 100,
{
}

/// Stability lies between 0 and 100.
pub proof fn lemma_stability_bounds(history: Seq<EventValue>)
    ensures
        0 <= stability_of(history) <= 100,
{
}

/// Events appended to a history never take changes away.
pub proof fn lemma_changes_accumulate(history: Seq<EventValue>, more: Seq<EventValue>)
    ensures
        total_changes(history) <= total_changes(history + more),
    decreases more.len(),
{
    if more.len() == 0 {
        assert(history + more =~= history);
    } else {
        let longer = history + more;
        assert(longer.drop_last() =~= history + more.drop_last());
        lemma_changes_accumulate(history, more.drop_last());
    }
}

/// Stability never rises as events are appended: a history is at most as
/// stable as any of its prefixes.
pub proof fn lemma_stability_never_recovers(history: Seq<EventValue>, more: Seq<EventValue>)
    ensures
        stability_of(history + more) <= stability_of(history),
{
    lemma_changes_accumulate(history, more);
}

/// Tokens depend on nothing but the four tracked fields.
pub proof fn lemma_tokens_follow_tracked_fields(first: JsonValue, second: JsonValue)
    requires
        first.field("ip"@) == second.field("ip"@),
        first.field("browser"@) == second.field("browser"@),
        first.field("os"@) == second.field("os"@),
        first.field("dev_type"@) == second.field("dev_type"@),
    ensures
        tokens_of(first) == tokens_of(second),
{
}

/// The fingerprint is decided by the tokens of the newest event alone: two
/// histories whose newest events give the same tokens have the same
/// fingerprint, whatever came before and however long they are.
pub proof fn lemma_fingerprint_follows_latest_tokens(
    first: Seq<EventValue>,
    second: Seq<EventValue>,
)
    requires
        first.len() > 0,
        second.len() > 0,
        tokens_of(first.last().meta) == tokens_of(second.last().meta),
    ensures
        fingerprint_of(latest_tokens(first)) == fingerprint_of(latest_tokens(second)),
{
}

/// Two profiles of one user and history agree in every part.
pub proof fn lemma_profile_repeatable(
    first: Profile,
    second: Profile,
    user: Seq<char>,
    history: Seq<EventValue>,
)
    requires
        first.describes(user, history),
        second.describes(user, history),
    ensures
        first.user_id@ == second.user_id@,
        first.fingerprint@ == second.fingerprint@,
        first.tokens.deep_view() == second.tokens.deep_view(),
        first.stability == second.stability,
        metadata_value(first.history@) == metadata_value(second.history@),
{
}

} // verus!
