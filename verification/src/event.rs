//! Events and the four metadata fields that the scorers interpret.

use crate::json::{Json, JsonValue};
use vstd::prelude::*;

verus! {

/// One observed occurrence for a user.
#[derive(Debug)]
pub struct Event {
    /// Identifier of the subject.
    pub user_id: String,
    /// Caller-defined category; never interpreted here.
    pub kind: String,
    /// Open metadata. Only `ip`, `browser`, `os` and `dev_type` are read.
    pub meta: Json,
    /// Timestamp text, where the caller supplied one or the recorder filled it.
    pub ts: Option<String>,
}

/// Model of an [`Event`].
pub struct EventValue {
    pub user_id: Seq<char>,
    pub kind: Seq<char>,
    pub meta: JsonValue,
    pub ts: Option<Seq<char>>,
}

/// Model of an optional text.
pub open spec fn optional_text(text: Option<String>) -> Option<Seq<char>> {
    match text {
        Some(s) => Some(s@),
        None => None,
    }
}

impl View for Event {
    type V = EventValue;

    open spec fn view(&self) -> EventValue {
        EventValue {
            user_id: self.user_id@,
            kind: self.kind@,
            meta: self.meta@,
            ts: optional_text(self.ts),
        }
    }
}

impl Event {
    /// Whether two events have the same model: the same user, kind and
    /// timestamp, and structurally equal metadata.
    pub fn equals(&self, other: &Event) -> (same: bool)
        ensures
            same == (self@ == other@),
    {
        let same_ts: bool = match &self.ts {
            Some(a) => match &other.ts {
                Some(b) => *a == *b,
                None => false,
            },
            None => other.ts.is_none(),
        };
        self.user_id == other.user_id && self.kind == other.kind && self.meta.equals(&other.meta)
            && same_ts
    }
}

impl PartialEq for Event {
    fn eq(&self, other: &Event) -> (same: bool) {
        self.equals(other)
    }
}

impl vstd::std_specs::cmp::PartialEqSpecImpl for Event {
    open spec fn obeys_eq_spec() -> bool {
        true
    }

    open spec fn eq_spec(&self, other: &Event) -> bool {
        self@ == other@
    }
}

impl Clone for Event {
    /// A deep copy with the same model.
    fn clone(&self) -> (copy: Event)
        ensures
            copy@ == self@,
    {
        let ts: Option<String> = match &self.ts {
            Some(s) => Some(s.clone()),
            None => None,
        };
        Event { user_id: self.user_id.clone(), kind: self.kind.clone(), meta: self.meta.clone(), ts }
    }
}

/// Models of a run of events, in order.
pub open spec fn history_value(events: Seq<Event>) -> Seq<EventValue> {
    events.map_values(|e: Event| e@)
}

impl EventValue {
    /// The event with `now` as its timestamp where it has none.
    pub open spec fn stamped(self, now: Seq<char>) -> EventValue {
        match self.ts {
            Some(_) => self,
            None => EventValue { ts: Some(now), ..self },
        }
    }
}

impl Event {
    /// Fills in `now` as the timestamp where the event has none; an event that
    /// carries a timestamp keeps it.
    pub fn stamp(self, now: String) -> (stamped: Event)
        ensures
            stamped@ == self@.stamped(now@),
    {
        match self.ts {
            Some(_) => self,
            None => Event { user_id: self.user_id, kind: self.kind, meta: self.meta, ts: Some(now) },
        }
    }
}

/// Weight of one changed tracked field in a score.
pub const FIELD_WEIGHT: u64 = 20;

/// Whether two metadata values differ in the field `key`. A missing field
/// differs from every present one, a null included.
pub open spec fn field_changed(prev: JsonValue, last: JsonValue, key: Seq<char>) -> bool {
    prev.field(key) != last.field(key)
}

/// One where the flag is set, zero where it is not.
pub open spec fn one_if(flag: bool) -> nat {
    if flag {
        1
    } else {
        0
    }
}

/// How many of the four tracked fields differ between two metadata values.
pub open spec fn changed_fields(prev: JsonValue, last: JsonValue) -> nat {
    one_if(field_changed(prev, last, "ip"@)) + one_if(field_changed(prev, last, "browser"@))
        + one_if(field_changed(prev, last, "os"@)) + one_if(
        field_changed(prev, last, "dev_type"@),
    )
}

/// Compares one field of two metadata values structurally.
pub fn field_differs(prev: &Json, last: &Json, key: &str) -> (differs: bool)
    ensures
        differs == field_changed(prev@, last@, key@),
{
    match prev.get(key) {
        Some(a) => match last.get(key) {
            Some(b) => !a.equals(b),
            None => true,
        },
        None => last.get(key).is_some(),
    }
}

/// Counts the tracked fields that differ between two metadata values.
pub fn count_changed_fields(prev: &Json, last: &Json) -> (count: u64)
    ensures
        count == changed_fields(prev@, last@),
        count <= 4,
{
    let mut count: u64 = 0;
    if field_differs(prev, last, "ip") {
        count = count + 1;
    }
    if field_differs(prev, last, "browser") {
        count = count + 1;
    }
    if field_differs(prev, last, "os") {
        count = count + 1;
    }
    if field_differs(prev, last, "dev_type") {
        count = count + 1;
    }
    count
}

} // verus!
