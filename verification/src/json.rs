//! A JSON document model: the values that a server's status response holds.
use vstd::prelude::*;

verus! {

/// A JSON number, as the parser classifies it.
#[derive(Debug, Clone)]
pub enum JsonNumber {
    /// A non-negative integer.
    PosInt(u64),
    /// A negative integer.
    NegInt(i64),
    /// Any other number, kept as its decimal text.
    Float(String),
}

/// A JSON value. Object members keep their order; keys are unique.
#[derive(Debug)]
pub enum JsonValue {
    Null,
    Bool(bool),
    Number(JsonNumber),
    String(String),
    Array(Vec<JsonValue>),
    Object(Vec<(String, JsonValue)>),
}

/// The position of the first member of an object named `key`.
pub open spec fn member_index(entries: Seq<(String, JsonValue)>, key: Seq<char>) -> Option<nat>
    decreases entries.len(),
{
    if entries.len() == 0 {
        None
    } else if entries[0].0@ == key {
        Some(0)
    } else {
        match member_index(entries.drop_first(), key) {
            Some(k) => Some(k + 1),
            None => None,
        }
    }
}

/// The value of the member named `key` of an object (`None` for a missing
/// member, or when the value is not an object).
pub open spec fn json_field(v: JsonValue, key: Seq<char>) -> Option<JsonValue> {
    match v {
        JsonValue::Object(entries) => match member_index(entries@, key) {
            Some(k) => Some(entries@[k as int].1),
            None => None,
        },
        _ => None,
    }
}

/// The string held by a value, if it is a string.
pub open spec fn json_str(v: Option<JsonValue>) -> Option<Seq<char>> {
    match v {
        Some(JsonValue::String(s)) => Some(s@),
        _ => None,
    }
}

/// The boolean held by a value, if it is a boolean.
pub open spec fn json_bool(v: Option<JsonValue>) -> Option<bool> {
    match v {
        Some(JsonValue::Bool(b)) => Some(b),
        _ => None,
    }
}

/// The non-negative integer held by a value, if it holds one.
pub open spec fn json_u64(v: Option<JsonValue>) -> Option<u64> {
    match v {
        Some(JsonValue::Number(JsonNumber::PosInt(n))) => Some(n),
        _ => None,
    }
}

/// Whether two numbers are the same number, in the same form.
pub open spec fn number_same(a: JsonNumber, b: JsonNumber) -> bool {
    match (a, b) {
        (JsonNumber::PosInt(x), JsonNumber::PosInt(y)) => x == y,
        (JsonNumber::NegInt(x), JsonNumber::NegInt(y)) => x == y,
        (JsonNumber::Float(x), JsonNumber::Float(y)) => x@ == y@,
        _ => false,
    }
}

/// Whether two values are the same document: same kinds, same scalars, same
/// strings, and items and members pairwise the same, in the same order.
pub open spec fn json_same(a: JsonValue, b: JsonValue) -> bool
    decreases a,
{
    match a {
        JsonValue::Null => b is Null,
        JsonValue::Bool(x) => b == JsonValue::Bool(x),
        JsonValue::Number(n) => match b {
            JsonValue::Number(m) => number_same(n, m),
            _ => false,
        },
        JsonValue::String(s) => match b {
            JsonValue::String(t) => s@ == t@,
            _ => false,
        },
        JsonValue::Array(xs) => match b {
            JsonValue::Array(ys) => json_items_same(xs@, ys@),
            _ => false,
        },
        JsonValue::Object(xs) => match b {
            JsonValue::Object(ys) => json_members_same(xs@, ys@),
            _ => false,
        },
    }
}

/// Whether two lists of values are pairwise the same.
pub open spec fn json_items_same(xs: Seq<JsonValue>, ys: Seq<JsonValue>) -> bool
    decreases xs,
{
    if xs.len() == 0 {
        ys.len() == 0
    } else {
        ys.len() > 0 && json_same(xs[0], ys[0]) && json_items_same(xs.drop_first(), ys.drop_first())
    }
}

/// Whether two member lists have the same keys with the same values, in order.
pub open spec fn json_members_same(xs: Seq<(String, JsonValue)>, ys: Seq<(String, JsonValue)>) -> bool
    decreases xs,
{
    if xs.len() == 0 {
        ys.len() == 0
    } else {
        ys.len() > 0 && xs[0].0@ == ys[0].0@ && json_same(xs[0].1, ys[0].1) && json_members_same(
            xs.drop_first(),
            ys.drop_first(),
        )
    }
}

impl JsonNumber {
    /// A copy of the number.
    pub fn copy(&self) -> (r: JsonNumber)
        ensures
            number_same(r, *self),
    {
        match self {
            JsonNumber::PosInt(x) => JsonNumber::PosInt(*x),
            JsonNumber::NegInt(x) => JsonNumber::NegInt(*x),
            JsonNumber::Float(x) => JsonNumber::Float(x.clone()),
        }
    }
}

impl JsonValue {
    /// A copy of the whole document.
    pub fn deep_copy(&self) -> (r: JsonValue)
        ensures
            json_same(r, *self),
        decreases *self,
    {
        match self {
            JsonValue::Null => JsonValue::Null,
            JsonValue::Bool(b) => JsonValue::Bool(*b),
            JsonValue::Number(n) => JsonValue::Number(n.copy()),
            JsonValue::String(s) => JsonValue::String(s.clone()),
            JsonValue::Array(items) => {
                let mut out: Vec<JsonValue> = Vec::new();
                let mut j: usize = 0;
                while j < items.len()
                    invariant
                        j <= items.len(),
                        out@.len() == j,
                        *self == JsonValue::Array(*items),
                        forall|i: int| 0 <= i < j ==> json_same(#[trigger] out@[i], items@[i]),
                    decreases items.len() - j,
                {
                    proof {
                        assert(decreases_to!(*self => self->Array_0));
                        assert(decreases_to!(self->Array_0 => items@));
                        assert(decreases_to!(items@ => items@[j as int]));
                    }
                    let c = items[j].deep_copy();
                    out.push(c);
                    j += 1;
                }
                proof {
                    lemma_items_same(out@, items@);
                }
                JsonValue::Array(out)
            },
            JsonValue::Object(entries) => {
                let mut out: Vec<(String, JsonValue)> = Vec::new();
                let mut j: usize = 0;
                while j < entries.len()
                    invariant
                        j <= entries.len(),
                        out@.len() == j,
                        *self == JsonValue::Object(*entries),
                        forall|i: int|
                            0 <= i < j ==> (#[trigger] out@[i]).0@ == entries@[i].0@ && json_same(
                                out@[i].1,
                                entries@[i].1,
                            ),
                    decreases entries.len() - j,
                {
                    proof {
                        assert(decreases_to!(*self => self->Object_0));
                        assert(decreases_to!(self->Object_0 => entries@));
                        assert(decreases_to!(entries@ => entries@[j as int]));
                        assert(decreases_to!(entries@[j as int] => entries@[j as int].1));
                    }
                    let c = entries[j].1.deep_copy();
                    out.push((entries[j].0.clone(), c));
                    j += 1;
                }
                proof {
                    lemma_members_same(out@, entries@);
                }
                JsonValue::Object(out)
            },
        }
    }
}

/// Pairwise sameness of two lists of equal length gives `json_items_same`.
proof fn lemma_items_same(xs: Seq<JsonValue>, ys: Seq<JsonValue>)
    requires
        xs.len() == ys.len(),
        forall|i: int| 0 <= i < xs.len() ==> json_same(#[trigger] xs[i], ys[i]),
    ensures
        json_items_same(xs, ys),
    decreases xs.len(),
{
    if xs.len() > 0 {
        assert(json_same(xs[0], ys[0]));
        assert forall|i: int| 0 <= i < xs.len() - 1 implies json_same(
            #[trigger] xs.drop_first()[i],
            ys.drop_first()[i],
        ) by {
            assert(json_same(xs[i + 1], ys[i + 1]));
        }
        lemma_items_same(xs.drop_first(), ys.drop_first());
    }
}

/// Pairwise sameness of two member lists of equal length gives `json_members_same`.
proof fn lemma_members_same(xs: Seq<(String, JsonValue)>, ys: Seq<(String, JsonValue)>)
    requires
        xs.len() == ys.len(),
        forall|i: int|
            0 <= i < xs.len() ==> (#[trigger] xs[i]).0@ == ys[i].0@ && json_same(xs[i].1, ys[i].1),
    ensures
        json_members_same(xs, ys),
    decreases xs.len(),
{
    if xs.len() > 0 {
        assert(xs[0].0@ == ys[0].0@ && json_same(xs[0].1, ys[0].1));
        assert forall|i: int| 0 <= i < xs.len() - 1 implies (#[trigger] xs.drop_first()[i]).0@
            == ys.drop_first()[i].0@ && json_same(xs.drop_first()[i].1, ys.drop_first()[i].1) by {
            assert(xs[i + 1].0@ == ys[i + 1].0@ && json_same(xs[i + 1].1, ys[i + 1].1));
        }
        lemma_members_same(xs.drop_first(), ys.drop_first());
    }
}

/// A found member index is in range and names the key.
pub proof fn lemma_member_index(entries: Seq<(String, JsonValue)>, key: Seq<char>)
    ensures
        member_index(entries, key) matches Some(k) ==> k < entries.len() && entries[k as int].0@
            == key,
    decreases entries.len(),
{
    if entries.len() > 0 {
        lemma_member_index(entries.drop_first(), key);
    }
}

/// Whether two strings hold the same characters.
pub fn str_equal(a: &str, b: &str) -> (r: bool)
    ensures
        r == (a@ == b@),
{
    let x = crate::text::chars_of(a);
    let y = crate::text::chars_of(b);
    if x.len() != y.len() {
        return false;
    }
    let mut i: usize = 0;
    while i < x.len()
        invariant
            i <= x.len(),
            x.len() == y.len(),
            x@ == a@,
            y@ == b@,
            forall|j: int| 0 <= j < i ==> x@[j] == y@[j],
        decreases x.len() - i,
    {
        if x[i] != y[i] {
            assert(x@[i as int] != y@[i as int]);
            return false;
        }
        i += 1;
    }
    assert(x@ =~= y@);
    true
}

/// Looks up the member named `key` of an object's members.
pub fn get_member<'a>(entries: &'a Vec<(String, JsonValue)>, key: &str) -> (r: Option<
    &'a JsonValue,
>)
    ensures
        r == (match member_index(entries@, key@) {
            Some(k) => Some(&entries@[k as int].1),
            None => None,
        }),
{
    let mut i: usize = 0;
    assert(entries@.skip(0) =~= entries@);
    while i < entries.len()
        invariant
            i <= entries.len(),
            member_index(entries@, key@) == (match member_index(entries@.skip(i as int), key@) {
                Some(k) => Some((k + i) as nat),
                None => None,
            }),
        decreases entries.len() - i,
    {
        proof {
            assert(entries@.skip(i as int)[0] == entries@[i as int]);
            assert(entries@.skip(i as int).drop_first() =~= entries@.skip(i + 1));
        }
        if str_equal(entries[i].0.as_str(), key) {
            return Some(&entries[i].1);
        }
        i += 1;
    }
    assert(entries@.skip(i as int) =~= Seq::<(String, JsonValue)>::empty());
    None
}

/// Looks up the member named `key` of a value (`None` when the value is not an object).
pub fn get_field<'a>(v: &'a JsonValue, key: &str) -> (r: Option<&'a JsonValue>)
    ensures
        (match r {
            Some(x) => Some(*x),
            None => None,
        }) == json_field(*v, key@),
{
    match v {
        JsonValue::Object(entries) => get_member(entries, key),
        _ => None,
    }
}

} // verus!
