//! A tagged value tree for open, schema-less metadata.
//!
//! Event metadata is an arbitrary JSON-like value. The scorers read only four
//! keys of it, but every other part has to survive storage untouched, so the
//! whole tree is kept. Its mathematical model is [`JsonValue`]: objects are
//! maps (unordered, one value per key) and lists are sequences.

use vstd::prelude::*;

verus! {

/// A JSON number: an unsigned integer, a signed integer, or a double held by
/// its IEEE-754 bit pattern.
#[derive(Clone, Copy, Debug)]
pub enum Number {
    PosInt(u64),
    NegInt(i64),
    Float(u64),
}

/// Bit pattern of the double `-0.0`.
pub const NEGATIVE_ZERO_BITS: u64 = 0x8000_0000_0000_0000;

/// Model of a [`Number`]. Integers are compared by value. Doubles are compared
/// by bit pattern once negative zero has been folded onto positive zero, which
/// for finite doubles is numeric equality.
pub enum NumberValue {
    Integer(int),
    Double(u64),
}

/// Folds the bit pattern of negative zero onto that of positive zero.
pub open spec fn canonical_bits(bits: u64) -> u64 {
    if bits == NEGATIVE_ZERO_BITS {
        0
    } else {
        bits
    }
}

impl View for Number {
    type V = NumberValue;

    open spec fn view(&self) -> NumberValue {
        match *self {
            Number::PosInt(n) => NumberValue::Integer(n as int),
            Number::NegInt(n) => NumberValue::Integer(n as int),
            Number::Float(bits) => NumberValue::Double(canonical_bits(bits)),
        }
    }
}

impl Number {
    /// Numeric equality of two numbers of the same kind. An integer never
    /// equals a double.
    pub fn equals(&self, other: &Number) -> (same: bool)
        ensures
            same == (self@ == other@),
    {
        match (*self, *other) {
            (Number::PosInt(a), Number::PosInt(b)) => a == b,
            (Number::NegInt(a), Number::NegInt(b)) => a == b,
            (Number::PosInt(a), Number::NegInt(b)) => b >= 0 && a == b as u64,
            (Number::NegInt(a), Number::PosInt(b)) => a >= 0 && a as u64 == b,
            (Number::Float(a), Number::Float(b)) => {
                let a_bits: u64 = if a == NEGATIVE_ZERO_BITS { 0 } else { a };
                let b_bits: u64 = if b == NEGATIVE_ZERO_BITS { 0 } else { b };
                a_bits == b_bits
            },
            _ => false,
        }
    }
}

/// One `key: value` entry of an object.
#[derive(Debug)]
pub struct Member {
    pub key: String,
    pub value: Json,
}

/// A JSON-like value.
#[derive(Debug)]
pub enum Json {
    Null,
    Bool(bool),
    Number(Number),
    Text(String),
    List(Vec<Json>),
    /// Entries in the order they were written. Where a key occurs more than
    /// once, the last entry is the one that counts.
    Object(Vec<Member>),
}

/// Model of a [`Json`] value.
pub enum JsonValue {
    Null,
    Bool(bool),
    Number(NumberValue),
    Text(Seq<char>),
    List(Seq<JsonValue>),
    Object(Map<Seq<char>, JsonValue>),
}

/// Model of a value.
pub open spec fn json_value(json: Json) -> JsonValue
    decreases json, 0nat,
{
    match json {
        Json::Null => JsonValue::Null,
        Json::Bool(b) => JsonValue::Bool(b),
        Json::Number(n) => JsonValue::Number(n@),
        Json::Text(s) => JsonValue::Text(s@),
        Json::List(items) => JsonValue::List(list_value(items, items.len() as nat)),
        Json::Object(members) => JsonValue::Object(object_value(members, members.len() as nat)),
    }
}

/// Models of the first `n` items of a list.
pub open spec fn list_value(items: Vec<Json>, n: nat) -> Seq<JsonValue>
    decreases items, n,
{
    if n == 0 || n > items.len() {
        Seq::empty()
    } else {
        list_value(items, (n - 1) as nat).push(json_value(items[n - 1]))
    }
}

/// The map that the first `n` entries of an object describe: each entry
/// overrides the earlier ones with the same key.
pub open spec fn object_value(members: Vec<Member>, n: nat) -> Map<Seq<char>, JsonValue>
    decreases members, n,
{
    if n == 0 || n > members.len() {
        Map::empty()
    } else {
        object_value(members, (n - 1) as nat).insert(
            members[n - 1].key@,
            json_value(members[n - 1].value),
        )
    }
}

impl View for Json {
    type V = JsonValue;

    open spec fn view(&self) -> JsonValue {
        json_value(*self)
    }
}

impl JsonValue {
    /// The value stored under `key`, where this is an object that has the key.
    /// Anything that is not an object has no fields.
    pub open spec fn field(self, key: Seq<char>) -> Option<JsonValue> {
        match self {
            JsonValue::Object(fields) => if fields.contains_key(key) {
                Some(fields[key])
            } else {
                None
            },
            _ => None,
        }
    }

    /// The text of a string value; nothing for any other kind of value.
    pub open spec fn text(self) -> Option<Seq<char>> {
        match self {
            JsonValue::Text(s) => Some(s),
            _ => None,
        }
    }
}

/// A list is modelled item by item.
pub proof fn lemma_list_value(items: Vec<Json>, n: nat)
    requires
        n <= items.len(),
    ensures
        list_value(items, n).len() == n,
        forall|i: int| 0 <= i < n ==> list_value(items, n)[i] == items[i]@,
    decreases n,
{
    if n > 0 {
        lemma_list_value(items, (n - 1) as nat);
    }
}

/// Entries from `from` on that do not carry `key` leave its binding as the
/// first `from` entries made it.
pub proof fn lemma_object_value_skip(members: Vec<Member>, from: nat, to: nat, key: Seq<char>)
    requires
        from <= to <= members.len(),
        forall|j: int| from <= j < to ==> members[j].key@ != key,
    ensures
        object_value(members, to).contains_key(key) == object_value(members, from).contains_key(
            key,
        ),
        object_value(members, to).contains_key(key) ==> object_value(members, to)[key]
            == object_value(members, from)[key],
    decreases to,
{
    if to > from {
        lemma_object_value_skip(members, from, (to - 1) as nat, key);
    }
}

/// The keys of an object are exactly the keys of its entries.
pub proof fn lemma_object_value_keys(members: Vec<Member>, n: nat, key: Seq<char>)
    requires
        n <= members.len(),
    ensures
        object_value(members, n).contains_key(key) <==> exists|i: int|
            0 <= i < n && #[trigger] members[i].key@ == key,
    decreases n,
{
    if n > 0 {
        lemma_object_value_keys(members, (n - 1) as nat, key);
        if members[n - 1].key@ == key {
        } else if object_value(members, (n - 1) as nat).contains_key(key) {
            let i = choose|i: int| 0 <= i < n - 1 && #[trigger] members[i].key@ == key;
            assert(members[i].key@ == key);
        }
    }
}

/// Index of the last entry that carries `key`: the entry that decides what
/// the object holds under that key.
fn find_member(members: &Vec<Member>, key: &str) -> (found: Option<usize>)
    ensures
        match found {
            Some(i) => {
                &&& i < members.len()
                &&& members[i as int].key@ == key@
                &&& object_value(*members, members.len() as nat).contains_key(key@)
                &&& object_value(*members, members.len() as nat)[key@] == members[i as int].value@
            },
            None => !object_value(*members, members.len() as nat).contains_key(key@),
        },
{
    let wanted: String = key.to_owned();
    let mut i: usize = members.len();
    while i > 0
        invariant
            i <= members.len(),
            wanted@ == key@,
            forall|j: int| i <= j < members.len() ==> members[j].key@ != key@,
        decreases i,
    {
        i = i - 1;
        if members[i].key == wanted {
            proof {
                lemma_object_value_skip(*members, (i + 1) as nat, members.len() as nat, key@);
            }
            return Some(i);
        }
    }
    proof {
        lemma_object_value_skip(*members, 0, members.len() as nat, key@);
    }
    None
}

impl Json {
    /// Looks `key` up in an object. A value that is not an object, or an
    /// object without the key, gives nothing.
    pub fn get(&self, key: &str) -> (found: Option<&Json>)
        ensures
            match found {
                Some(value) => self@.field(key@) == Some(value@),
                None => self@.field(key@).is_none(),
            },
    {
        match self {
            Json::Object(members) => {
                match find_member(members, key) {
                    Some(i) => Some(&members[i].value),
                    None => None,
                }
            },
            _ => None,
        }
    }

    /// The text of a string value; nothing for any other kind of value.
    pub fn as_text(&self) -> (text: Option<&String>)
        ensures
            match text {
                Some(s) => self@.text() == Some(s@),
                None => self@.text().is_none(),
            },
    {
        match self {
            Json::Text(s) => Some(s),
            _ => None,
        }
    }
}

/// Whether the first `n` entries of `left` are bound alike in both objects.
spec fn members_agree(
    left: Vec<Member>,
    n: int,
    a: Map<Seq<char>, JsonValue>,
    b: Map<Seq<char>, JsonValue>,
) -> bool {
    forall|j: int|
        0 <= j < n ==> b.contains_key(#[trigger] left[j].key@) && a[left[j].key@]
            == b[left[j].key@]
}

/// Whether every key among the first `n` entries of `left` is bound in `other`.
spec fn members_bound(left: Vec<Member>, n: int, other: Map<Seq<char>, JsonValue>) -> bool {
    forall|j: int| 0 <= j < n ==> other.contains_key(#[trigger] left[j].key@)
}

impl Json {
    /// Structural equality: two values are equal when their models are.
    /// Lists are compared in order, objects as maps.
    pub fn equals(&self, other: &Json) -> (same: bool)
        ensures
            same == (self@ == other@),
        decreases self,
    {
        match (self, other) {
            (Json::Null, Json::Null) => true,
            (Json::Bool(a), Json::Bool(b)) => *a == *b,
            (Json::Number(a), Json::Number(b)) => a.equals(b),
            (Json::Text(a), Json::Text(b)) => *a == *b,
            (Json::List(a), Json::List(b)) => {
                proof {
                    lemma_list_value(*a, a.len() as nat);
                    lemma_list_value(*b, b.len() as nat);
                }
                if a.len() != b.len() {
                    return false;
                }
                let mut i: usize = 0;
                while i < a.len()
                    invariant
                        i <= a.len() == b.len(),
                        forall|j: int| 0 <= j < i ==> a[j]@ == b[j]@,
                        forall|j: int|
                            0 <= j < a.len() ==> list_value(*a, a.len() as nat)[j] == a[j]@,
                        forall|j: int|
                            0 <= j < b.len() ==> list_value(*b, b.len() as nat)[j] == b[j]@,
                        list_value(*a, a.len() as nat).len() == a.len(),
                        list_value(*b, b.len() as nat).len() == b.len(),
                        *self == Json::List(*a),
                        *other == Json::List(*b),
                    decreases a.len() - i,
                {
                    assert(decreases_to!(*self => self->List_0));
                    assert(decreases_to!(*a => a[i as int]));
                    if !a[i].equals(&b[i]) {
                        assert(list_value(*a, a.len() as nat)[i as int] != list_value(
                            *b,
                            b.len() as nat,
                        )[i as int]);
                        return false;
                    }
                    i = i + 1;
                }
                assert(list_value(*a, a.len() as nat) =~= list_value(*b, b.len() as nat));
                true
            },
            (Json::Object(a), Json::Object(b)) => {
                let ghost left = object_value(*a, a.len() as nat);
                let ghost right = object_value(*b, b.len() as nat);
                let mut i: usize = 0;
                while i < a.len()
                    invariant
                        i <= a.len(),
                        left == object_value(*a, a.len() as nat),
                        right == object_value(*b, b.len() as nat),
                        members_agree(*a, i as int, left, right),
                        *self == Json::Object(*a),
                        *other == Json::Object(*b),
                    decreases a.len() - i,
                {
                    let mine = find_member(a, a[i].key.as_str());
                    let theirs = find_member(b, a[i].key.as_str());
                    proof {
                        lemma_object_value_keys(*a, a.len() as nat, a[i as int].key@);
                    }
                    match (mine, theirs) {
                        (Some(m), Some(t)) => {
                            assert(decreases_to!(*self => self->Object_0));
                            assert(decreases_to!(*a => a[m as int]));
                            assert(decreases_to!(a[m as int] => a[m as int].value));
                            if !a[m].value.equals(&b[t].value) {
                                return false;
                            }
                        },
                        _ => {
                            return false;
                        },
                    }
                    i = i + 1;
                }
                let mut k: usize = 0;
                while k < b.len()
                    invariant
                        k <= b.len(),
                        left == object_value(*a, a.len() as nat),
                        right == object_value(*b, b.len() as nat),
                        members_bound(*b, k as int, left),
                        members_agree(*a, a.len() as int, left, right),
                        *self == Json::Object(*a),
                        *other == Json::Object(*b),
                    decreases b.len() - k,
                {
                    let mine = find_member(a, b[k].key.as_str());
                    proof {
                        lemma_object_value_keys(*b, b.len() as nat, b[k as int].key@);
                    }
                    if mine.is_none() {
                        return false;
                    }
                    k = k + 1;
                }
                proof {
                    assert forall|key: Seq<char>| #[trigger]
                        left.dom().contains(key) implies right.dom().contains(key) && left[key]
                        == right[key] by {
                        lemma_object_value_keys(*a, a.len() as nat, key);
                        let j = choose|j: int| 0 <= j < a.len() && #[trigger] a[j].key@ == key;
                        assert(a[j].key@ == key);
                    }
                    assert forall|key: Seq<char>| #[trigger]
                        right.dom().contains(key) implies left.dom().contains(key) by {
                        lemma_object_value_keys(*b, b.len() as nat, key);
                        let j = choose|j: int| 0 <= j < b.len() && #[trigger] b[j].key@ == key;
                        assert(b[j].key@ == key);
                    }
                    assert(left =~= right);
                }
                true
            },
            _ => false,
        }
    }
}

impl PartialEq for Number {
    fn eq(&self, other: &Number) -> (same: bool) {
        self.equals(other)
    }
}

impl vstd::std_specs::cmp::PartialEqSpecImpl for Number {
    open spec fn obeys_eq_spec() -> bool {
        true
    }

    open spec fn eq_spec(&self, other: &Number) -> bool {
        self@ == other@
    }
}

impl PartialEq for Json {
    fn eq(&self, other: &Json) -> (same: bool) {
        self.equals(other)
    }
}

impl vstd::std_specs::cmp::PartialEqSpecImpl for Json {
    open spec fn obeys_eq_spec() -> bool {
        true
    }

    open spec fn eq_spec(&self, other: &Json) -> bool {
        self@ == other@
    }
}

impl Clone for Member {
    fn clone(&self) -> (copy: Member)
        ensures
            copy.key@ == self.key@,
            copy.value@ == self.value@,
        decreases self,
    {
        assert(decreases_to!(*self => self.value));
        Member { key: self.key.clone(), value: self.value.clone() }
    }
}

impl Clone for Json {
    /// A deep copy with the same model.
    fn clone(&self) -> (copy: Json)
        ensures
            copy@ == self@,
        decreases self,
    {
        match self {
            Json::Null => Json::Null,
            Json::Bool(b) => Json::Bool(*b),
            Json::Number(n) => Json::Number(*n),
            Json::Text(s) => Json::Text(s.clone()),
            Json::List(items) => {
                let mut copies: Vec<Json> = Vec::new();
                let mut i: usize = 0;
                while i < items.len()
                    invariant
                        i <= items.len(),
                        copies.len() == i,
                        forall|j: int| 0 <= j < i ==> copies[j]@ == items[j]@,
                        *self == Json::List(*items),
                    decreases items.len() - i,
                {
                    assert(decreases_to!(*self => self->List_0));
                    assert(decreases_to!(*items => items[i as int]));
                    let item = items[i].clone();
                    copies.push(item);
                    i = i + 1;
                }
                proof {
                    lemma_list_value(copies, items.len() as nat);
                    lemma_list_value(*items, items.len() as nat);
                    assert(list_value(copies, items.len() as nat) =~= list_value(
                        *items,
                        items.len() as nat,
                    ));
                }
                Json::List(copies)
            },
            Json::Object(members) => {
                let mut copies: Vec<Member> = Vec::new();
                let mut i: usize = 0;
                while i < members.len()
                    invariant
                        i <= members.len(),
                        copies.len() == i,
                        forall|j: int|
                            0 <= j < i ==> copies[j].key@ == members[j].key@ && copies[j].value@
                                == members[j].value@,
                        *self == Json::Object(*members),
                    decreases members.len() - i,
                {
                    assert(decreases_to!(*self => self->Object_0));
                    assert(decreases_to!(*members => members[i as int]));
                    let member = members[i].clone();
                    copies.push(member);
                    i = i + 1;
                }
                proof {
                    lemma_object_value_alike(copies, *members, members.len() as nat);
                }
                Json::Object(copies)
            },
        }
    }
}

/// Objects whose entries agree one by one describe the same map.
pub proof fn lemma_object_value_alike(left: Vec<Member>, right: Vec<Member>, n: nat)
    requires
        n <= left.len(),
        n <= right.len(),
        forall|j: int|
            0 <= j < n ==> left[j].key@ == right[j].key@ && left[j].value@ == right[j].value@,
    ensures
        object_value(left, n) == object_value(right, n),
    decreases n,
{
    if n > 0 {
        lemma_object_value_alike(left, right, (n - 1) as nat);
    }
}

} // verus!
