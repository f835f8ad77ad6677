//! The persisted representation of a store.
//!
//! A store is saved as one document: an object keyed by user, each value the
//! list of that user's events, each event an object with the fields
//! `user_id`, `kind`, `meta` and `ts`. Reading and writing text and files is
//! left to the caller; this module turns stores into documents and back.

use crate::event::{history_value, optional_text, Event, EventValue};
use crate::json::{
    lemma_list_value, lemma_object_value_keys, lemma_object_value_skip, list_value, object_value,
    Json, JsonValue, Member,
};
use crate::store::{lists_users, Store, UserCount};
use vstd::prelude::*;

verus! {

/// Document of a timestamp: its text, or null where there is none.
pub open spec fn timestamp_document(ts: Option<Seq<char>>) -> JsonValue {
    match ts {
        Some(text) => JsonValue::Text(text),
        None => JsonValue::Null,
    }
}

/// Document of an event.
pub open spec fn event_document(event: EventValue) -> JsonValue {
    JsonValue::Object(
        Map::empty().insert("user_id"@, JsonValue::Text(event.user_id)).insert(
            "kind"@,
            JsonValue::Text(event.kind),
        ).insert("meta"@, event.meta).insert("ts"@, timestamp_document(event.ts)),
    )
}

/// Document of a history: the documents of its events, in order.
pub open spec fn history_document(history: Seq<EventValue>) -> JsonValue {
    JsonValue::List(history.map_values(|e: EventValue| event_document(e)))
}

/// Document of a store: one field per user, holding that user's history.
pub open spec fn store_document(store: Map<Seq<char>, Seq<EventValue>>) -> JsonValue {
    JsonValue::Object(store.map_values(|h: Seq<EventValue>| history_document(h)))
}

/// The timestamp that a `ts` field stands for: none where the field is
/// missing or null, its text where it is a string. Any other value is
/// malformed.
pub open spec fn read_timestamp(field: Option<JsonValue>) -> Option<Option<Seq<char>>> {
    match field {
        None => Some(None),
        Some(JsonValue::Null) => Some(None),
        Some(JsonValue::Text(text)) => Some(Some(text)),
        _ => None,
    }
}

/// The event that a document stands for. The document must be an object with
/// strings under `user_id` and `kind`, any value under `meta`, and a
/// well-formed `ts`; fields beyond these are ignored.
pub open spec fn read_event(doc: JsonValue) -> Option<EventValue> {
    match (doc.field("user_id"@), doc.field("kind"@), doc.field("meta"@), read_timestamp(
        doc.field("ts"@),
    )) {
        (Some(JsonValue::Text(user_id)), Some(JsonValue::Text(kind)), Some(meta), Some(ts)) => Some(
            EventValue { user_id, kind, meta, ts },
        ),
        _ => None,
    }
}

/// The history that a document stands for: a list whose items all stand for
/// events.
pub open spec fn read_history(doc: JsonValue) -> Option<Seq<EventValue>> {
    match doc {
        JsonValue::List(items) => if forall|i: int|
            0 <= i < items.len() ==> (#[trigger] read_event(items[i])).is_some() {
            Some(items.map_values(|d: JsonValue| read_event(d).unwrap()))
        } else {
            None
        },
        _ => None,
    }
}

/// The store that a document stands for: an object whose fields all stand
/// for histories.
pub open spec fn read_store(doc: JsonValue) -> Option<Map<Seq<char>, Seq<EventValue>>> {
    match doc {
        JsonValue::Object(fields) => if forall|user: Seq<char>|
            fields.contains_key(user) ==> (#[trigger] read_history(fields[user])).is_some() {
            Some(fields.map_values(|d: JsonValue| read_history(d).unwrap()))
        } else {
            None
        },
        _ => None,
    }
}

/// The store that loading yields: the one the document stands for, and an
/// empty store where there is no document or it is malformed.
pub open spec fn loaded(document: Option<JsonValue>) -> Map<Seq<char>, Seq<EventValue>> {
    match document {
        Some(doc) => match read_store(doc) {
            Some(store) => store,
            None => Map::empty(),
        },
        None => Map::empty(),
    }
}

/// The four field names of an event document differ from one another.
pub proof fn lemma_field_names_differ()
    ensures
        "user_id"@ != "kind"@,
        "user_id"@ != "meta"@,
        "user_id"@ != "ts"@,
        "kind"@ != "meta"@,
        "kind"@ != "ts"@,
        "meta"@ != "ts"@,
{
    reveal_strlit("user_id");
    reveal_strlit("kind");
    reveal_strlit("meta");
    reveal_strlit("ts");
    assert("user_id"@.len() == 7);
    assert("kind"@.len() == 4);
    assert("meta"@.len() == 4);
    assert("ts"@.len() == 2);
    assert("kind"@[0] != "meta"@[0]);
}

/// An event survives being written as a document and read back.
pub proof fn lemma_event_round_trip(event: EventValue)
    ensures
        read_event(event_document(event)) == Some(event),
{
    lemma_field_names_differ();
}

/// A history survives being written as a document and read back.
pub proof fn lemma_history_round_trip(history: Seq<EventValue>)
    ensures
        read_history(history_document(history)) == Some(history),
{
    let items = history.map_values(|e: EventValue| event_document(e));
    assert forall|i: int| 0 <= i < items.len() implies (#[trigger] read_event(
        items[i],
    )).is_some() by {
        lemma_event_round_trip(history[i]);
    }
    let back = items.map_values(|d: JsonValue| read_event(d).unwrap());
    assert forall|i: int| 0 <= i < history.len() implies back[i] == history[i] by {
        lemma_event_round_trip(history[i]);
    }
    assert(back =~= history);
}

/// A store survives being written as a document and read back: the same
/// users, and for each the same events in the same order.
pub proof fn lemma_store_round_trip(store: Map<Seq<char>, Seq<EventValue>>)
    ensures
        read_store(store_document(store)) == Some(store),
        loaded(Some(store_document(store))) == store,
{
    let fields = store.map_values(|h: Seq<EventValue>| history_document(h));
    assert forall|user: Seq<char>| fields.contains_key(user) implies (#[trigger] read_history(
        fields[user],
    )).is_some() by {
        lemma_history_round_trip(store[user]);
    }
    let back = fields.map_values(|d: JsonValue| read_history(d).unwrap());
    assert forall|user: Seq<char>| #[trigger] back.dom().contains(user) implies back[user]
        == store[user] by {
        lemma_history_round_trip(store[user]);
    }
    assert(back =~= store);
}

/// Writes a timestamp as a document.
fn encode_timestamp(ts: &Option<String>) -> (doc: Json)
    ensures
        doc@ == timestamp_document(optional_text(*ts)),
{
    match ts {
        Some(text) => Json::Text(text.clone()),
        None => Json::Null,
    }
}

/// Writes an event as a document with the fields `user_id`, `kind`, `meta`
/// and `ts`; an event without a timestamp gets a null `ts`.
pub fn encode_event(event: &Event) -> (doc: Json)
    ensures
        doc@ == event_document(event@),
{
    let mut members: Vec<Member> = Vec::new();
    members.push(Member { key: "user_id".to_owned(), value: Json::Text(event.user_id.clone()) });
    members.push(Member { key: "kind".to_owned(), value: Json::Text(event.kind.clone()) });
    members.push(Member { key: "meta".to_owned(), value: event.meta.clone() });
    members.push(Member { key: "ts".to_owned(), value: encode_timestamp(&event.ts) });
    proof {
        reveal_with_fuel(object_value, 5);
        assert(object_value(members, 4) =~= event_document(event@)->Object_0);
    }
    Json::Object(members)
}

/// Reads the timestamp of an event document.
fn decode_timestamp(doc: &Json) -> (ts: Option<Option<String>>)
    ensures
        match ts {
            Some(inner) => read_timestamp(doc@.field("ts"@)) == Some(optional_text(inner)),
            None => read_timestamp(doc@.field("ts"@)).is_none(),
        },
{
    match doc.get("ts") {
        None => Some(None),
        Some(Json::Null) => Some(None),
        Some(Json::Text(text)) => Some(Some(text.clone())),
        Some(_) => None,
    }
}

/// Reads an event from a document; nothing where the document is malformed.
pub fn decode_event(doc: &Json) -> (event: Option<Event>)
    ensures
        match event {
            Some(e) => read_event(doc@) == Some(e@),
            None => read_event(doc@).is_none(),
        },
{
    let user_id: String = match doc.get("user_id") {
        Some(Json::Text(text)) => text.clone(),
        _ => {
            return None;
        },
    };
    let kind: String = match doc.get("kind") {
        Some(Json::Text(text)) => text.clone(),
        _ => {
            return None;
        },
    };
    let meta: Json = match doc.get("meta") {
        Some(value) => value.clone(),
        None => {
            return None;
        },
    };
    let ts: Option<String> = match decode_timestamp(doc) {
        Some(ts) => ts,
        None => {
            return None;
        },
    };
    Some(Event { user_id, kind, meta, ts })
}

/// Writes a history as a list of event documents, oldest first.
pub fn encode_history(history: &Vec<Event>) -> (doc: Json)
    ensures
        doc@ == history_document(history_value(history@)),
{
    let mut items: Vec<Json> = Vec::new();
    let mut i: usize = 0;
    while i < history.len()
        invariant
            i <= history.len(),
            items.len() == i,
            forall|j: int| 0 <= j < i ==> items[j]@ == event_document(history[j]@),
        decreases history.len() - i,
    {
        items.push(encode_event(&history[i]));
        i = i + 1;
    }
    proof {
        lemma_list_value(items, items.len() as nat);
        assert(list_value(items, items.len() as nat) =~= history_value(history@).map_values(
            |e: EventValue| event_document(e),
        ));
    }
    Json::List(items)
}

/// Reads a history from a document; nothing where the document is not a list
/// or one of its items is malformed.
pub fn decode_history(doc: &Json) -> (history: Option<Vec<Event>>)
    ensures
        match history {
            Some(events) => read_history(doc@) == Some(history_value(events@)),
            None => read_history(doc@).is_none(),
        },
{
    match doc {
        Json::List(items) => {
            let ghost values = list_value(*items, items.len() as nat);
            proof {
                lemma_list_value(*items, items.len() as nat);
            }
            let mut events: Vec<Event> = Vec::new();
            let mut i: usize = 0;
            while i < items.len()
                invariant
                    i <= items.len(),
                    events.len() == i,
                    values.len() == items.len(),
                    doc@ == JsonValue::List(values),
                    forall|j: int| 0 <= j < items.len() ==> values[j] == items[j]@,
                    forall|j: int|
                        0 <= j < i ==> read_event(#[trigger] values[j]) == Some(events[j]@),
                decreases items.len() - i,
            {
                match decode_event(&items[i]) {
                    Some(event) => {
                        events.push(event);
                    },
                    None => {
                        assert(read_event(values[i as int]).is_none());
                        return None;
                    },
                }
                i = i + 1;
            }
            assert(history_value(events@) =~= values.map_values(
                |d: JsonValue| read_event(d).unwrap(),
            ));
            Some(events)
        },
        _ => None,
    }
}

/// Writes a store as a document: one field per user, holding the user's
/// history.
pub fn save_store(store: &Store) -> (doc: Json)
    ensures
        doc@ == store_document(store@),
{
    let listing: Vec<UserCount> = store.profiles();
    let mut members: Vec<Member> = Vec::new();
    let mut i: usize = 0;
    while i < listing.len()
        invariant
            i <= listing.len(),
            members.len() == i,
            lists_users(listing@, store@),
            forall|j: int|
                0 <= j < i ==> #[trigger] members[j].key@ == listing[j].user_id@
                    && members[j].value@ == history_document(store@[listing[j].user_id@]),
        decreases listing.len() - i,
    {
        let user: &String = &listing[i].user_id;
        assert(store@.contains_key(listing[i as int].user_id@));
        match store.timeline(user.as_str()) {
            Some(events) => {
                members.push(Member { key: user.clone(), value: encode_history(events) });
            },
            None => {},
        }
        i = i + 1;
    }
    proof {
        let n = members.len() as nat;
        let written = object_value(members, n);
        let expected = store@.map_values(|h: Seq<EventValue>| history_document(h));
        assert forall|user: Seq<char>| #[trigger]
            written.dom().contains(user) == expected.dom().contains(user) by {
            lemma_object_value_keys(members, n, user);
            if written.contains_key(user) {
                let j = choose|j: int| 0 <= j < n && #[trigger] members[j].key@ == user;
                assert(store@.contains_key(listing[j].user_id@));
            }
            if store@.contains_key(user) {
                let j = choose|j: int|
                    0 <= j < listing.len() && #[trigger] listing[j].user_id@ == user;
                assert(members[j].key@ == user);
            }
        }
        assert forall|user: Seq<char>| #[trigger]
            written.dom().contains(user) implies written[user] == expected[user] by {
            lemma_object_value_keys(members, n, user);
            let j = choose|j: int| 0 <= j < n && #[trigger] members[j].key@ == user;
            assert forall|k: int| j + 1 <= k < n implies members[k].key@ != user by {
                assert(listing[j].user_id@ != listing[k].user_id@);
            }
            lemma_object_value_skip(members, (j + 1) as nat, n, user);
        }
        assert(written =~= expected);
    }
    Json::Object(members)
}

/// Whether the store holds, for exactly the keys of the first `n` entries,
/// the histories that the fields under those keys stand for.
spec fn holds_fields(
    store: Map<Seq<char>, Seq<EventValue>>,
    members: Vec<Member>,
    n: int,
    fields: Map<Seq<char>, JsonValue>,
) -> bool {
    &&& forall|user: Seq<char>| #[trigger]
        store.contains_key(user) <==> exists|j: int|
            0 <= j < n && #[trigger] members[j].key@ == user
    &&& forall|user: Seq<char>| #[trigger]
        store.contains_key(user) ==> fields.contains_key(user) && read_history(fields[user])
            == Some(store[user])
}

/// Reads a store from a document; nothing where the document is not an
/// object or one of its fields is not a well-formed history.
pub fn decode_store(doc: &Json) -> (store: Option<Store>)
    ensures
        match store {
            Some(s) => read_store(doc@) == Some(s@),
            None => read_store(doc@).is_none(),
        },
{
    match doc {
        Json::Object(members) => {
            let ghost fields = object_value(*members, members.len() as nat);
            let mut store: Store = Store::new();
            let mut i: usize = 0;
            while i < members.len()
                invariant
                    i <= members.len(),
                    fields == object_value(*members, members.len() as nat),
                    doc@ == JsonValue::Object(fields),
                    holds_fields(store@, *members, i as int, fields),
                decreases members.len() - i,
            {
                let key: &String = &members[i].key;
                let ghost before = store@;
                proof {
                    lemma_object_value_keys(*members, members.len() as nat, key@);
                }
                match doc.get(key.as_str()) {
                    Some(value) => match decode_history(value) {
                        Some(events) => {
                            store.insert_history(key.clone(), events);
                            proof {
                                assert forall|user: Seq<char>| #[trigger]
                                    store@.contains_key(user) <==> exists|j: int|
                                        0 <= j < i + 1 && #[trigger] members[j].key@ == user by {
                                    if before.contains_key(user) {
                                        let j = choose|j: int|
                                            0 <= j < i && #[trigger] members[j].key@ == user;
                                        assert(members[j].key@ == user);
                                    }
                                    if exists|j: int|
                                        0 <= j < i + 1 && #[trigger] members[j].key@ == user {
                                        let j = choose|j: int|
                                            0 <= j < i + 1 && #[trigger] members[j].key@ == user;
                                        if j < i {
                                            assert(members[j].key@ == user);
                                        }
                                    }
                                }
                            }
                        },
                        None => {
                            return None;
                        },
                    },
                    None => {
                        return None;
                    },
                }
                i = i + 1;
            }
            proof {
                let back = fields.map_values(|d: JsonValue| read_history(d).unwrap());
                assert forall|user: Seq<char>| #[trigger]
                    fields.dom().contains(user) implies store@.dom().contains(user) by {
                    lemma_object_value_keys(*members, members.len() as nat, user);
                }
                assert(store@ =~= back);
            }
            Some(store)
        },
        _ => None,
    }
}

/// Restores a store from what was read back: the store that the document
/// stands for, and an empty store where nothing could be read or the
/// document is malformed.
pub fn load_store(document: Option<&Json>) -> (store: Store)
    ensures
        store@ == loaded(
            match document {
                Some(doc) => Some(doc@),
                None => None,
            },
        ),
{
    match document {
        Some(doc) => match decode_store(doc) {
            Some(store) => store,
            None => Store::new(),
        },
        None => Store::new(),
    }
}


} // verus!
