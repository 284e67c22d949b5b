//! A JSON value as the server reads and writes it, with the few accessors
//! that the request handling needs.
//!
//! Numbers keep the three forms that a JSON parser distinguishes: a
//! non-negative integer, a negative integer, and any other number, which is
//! kept as its decimal text.

use vstd::prelude::*;
use serde_json::Value;

verus! {

/// A JSON number.
#[derive(Debug, PartialEq)]
pub enum JsonNumber {
    /// An integer `>= 0`.
    PosInt(u64),
    /// An integer `< 0`.
    NegInt(i64),
    /// Any other number, as its shortest decimal text.
    Float(String),
}

/// A JSON value. An object keeps its members in order.
#[derive(Debug, PartialEq)]
pub enum Json {
    Null,
    Bool(bool),
    Number(JsonNumber),
    String(String),
    Array(Vec<Json>),
    Object(Vec<(String, Json)>),
}

/// The value of the first member named `key`.
pub open spec fn lookup(members: Seq<(String, Json)>, key: Seq<char>) -> Option<Json>
    decreases members.len(),
{
    if members.len() == 0 {
        None
    } else if members[0].0@ == key {
        Some(members[0].1)
    } else {
        lookup(members.drop_first(), key)
    }
}

/// The names of the members, in order.
pub open spec fn member_names(members: Seq<(String, Json)>) -> Seq<Seq<char>> {
    members.map_values(|m: (String, Json)| m.0@)
}

/// The JSON number for an `i64`.
pub open spec fn spec_int_number(n: i64) -> JsonNumber {
    if n < 0 {
        JsonNumber::NegInt(n)
    } else {
        JsonNumber::PosInt(n as u64)
    }
}

/// The text of `value` when it is a string.
pub open spec fn text_of(value: Option<Json>) -> Option<Seq<char>> {
    match value {
        Some(Json::String(s)) => Some(s@),
        _ => None,
    }
}

impl Json {
    /// The member `key` of an object; `None` for other values.
    pub open spec fn field(self, key: Seq<char>) -> Option<Json> {
        match self {
            Json::Object(members) => lookup(members@, key),
            _ => None,
        }
    }

    /// The member names of an object; empty for other values.
    pub open spec fn names(self) -> Seq<Seq<char>> {
        match self {
            Json::Object(members) => member_names(members@),
            _ => seq![],
        }
    }

    /// The value as an `i64`, when it is an integer in range.
    pub open spec fn int_value(self) -> Option<i64> {
        match self {
            Json::Number(JsonNumber::PosInt(u)) => if u <= i64::MAX {
                Some(u as i64)
            } else {
                None
            },
            Json::Number(JsonNumber::NegInt(i)) => Some(i),
            _ => None,
        }
    }

    /// The member `key` of an object (`None` for other values or a missing
    /// member).
    pub fn get(&self, key: &str) -> (res: Option<&Json>)
        ensures
            match res {
                Some(v) => self.field(key@) == Some(*v),
                None => self.field(key@) is None,
            },
    {
        match self {
            Json::Object(members) => {
                let wanted = String::from_str(key);
                let mut i: usize = 0;
                assert(members@.skip(0) =~= members@);
                while i < members.len()
                    invariant
                        i <= members@.len(),
                        wanted@ == key@,
                        self.field(key@) == lookup(members@, key@),
                        lookup(members@, key@) == lookup(members@.skip(i as int), key@),
                    decreases members.len() - i,
                {
                    assert(members@.skip(i as int).drop_first() =~= members@.skip(i + 1));
                    assert(members@.skip(i as int)[0] == members@[i as int]);
                    if members[i].0 == wanted {
                        let found = &members[i].1;
                        assert(lookup(members@.skip(i as int), key@) == Some(*found));
                        return Some(found);
                    }
                    i = i + 1;
                }
                None
            },
            _ => None,
        }
    }

    /// The text of a string value.
    pub fn as_str(&self) -> (res: Option<&str>)
        ensures
            match res {
                Some(s) => text_of(Some(*self)) == Some(s@),
                None => !(self is String),
            },
    {
        match self {
            Json::String(s) => Some(s.as_str()),
            _ => None,
        }
    }

    /// The elements of an array value.
    pub fn as_array(&self) -> (res: Option<&Vec<Json>>)
        ensures
            match res {
                Some(items) => *self == Json::Array(*items),
                None => !(self is Array),
            },
    {
        match self {
            Json::Array(items) => Some(items),
            _ => None,
        }
    }

    /// Whether the value is an object.
    pub fn is_object(&self) -> (res: bool)
        ensures
            res == self is Object,
    {
        match self {
            Json::Object(_) => true,
            _ => false,
        }
    }

    /// The value as an `i64`, when it is an integer that fits.
    pub fn as_i64(&self) -> (res: Option<i64>)
        ensures
            res == self.int_value(),
    {
        match self {
            Json::Number(JsonNumber::PosInt(u)) => if *u <= i64::MAX as u64 {
                Some(*u as i64)
            } else {
                None
            },
            Json::Number(JsonNumber::NegInt(i)) => Some(*i),
            _ => None,
        }
    }

    /// A string value holding `s`.
    pub fn text(s: &str) -> (res: Json)
        ensures
            text_of(Some(res)) == Some(s@),
    {
        Json::String(String::from_str(s))
    }

    /// The number `n`.
    pub fn integer(n: i64) -> (res: Json)
        ensures
            res == Json::Number(spec_int_number(n)),
    {
        if n < 0 {
            Json::Number(JsonNumber::NegInt(n))
        } else {
            Json::Number(JsonNumber::PosInt(n as u64))
        }
    }
}

/// A member named `name` with `value`.
pub fn member(name: &str, value: Json) -> (res: (String, Json))
    ensures
        res.0@ == name@,
        res.1 == value,
{
    (String::from_str(name), value)
}


/// The member at `i` is the one found under its name when no member before
/// it has that name.
pub proof fn lemma_lookup_at(members: Seq<(String, Json)>, i: int)
    requires
        0 <= i < members.len(),
        forall|j: int| 0 <= j < i ==> members[j].0@ != members[i].0@,
    ensures
        lookup(members, members[i].0@) == Some(members[i].1),
    decreases i,
{
    if i > 0 {
        let rest = members.drop_first();
        assert forall|j: int| 0 <= j < i - 1 implies #[trigger] rest[j].0@ != rest[i - 1].0@ by {
            assert(rest[j] == members[j + 1]);
        }
        lemma_lookup_at(rest, i - 1);
        assert(members[0].0@ != members[i].0@);
    }
}


/// No member has the name `key` when `lookup` finds none.
pub proof fn lemma_lookup_none(members: Seq<(String, Json)>, key: Seq<char>)
    requires
        forall|j: int| 0 <= j < members.len() ==> #[trigger] members[j].0@ != key,
    ensures
        lookup(members, key) is None,
    decreases members.len(),
{
    if members.len() > 0 {
        let rest = members.drop_first();
        assert forall|j: int| 0 <= j < rest.len() implies #[trigger] rest[j].0@ != key by {
            assert(rest[j] == members[j + 1]);
        }
        assert(members[0].0@ != key);
        lemma_lookup_none(rest, key);
    }
}

/// Removing a member of another name leaves `lookup` of `key` unchanged.
pub proof fn lemma_lookup_remove(members: Seq<(String, Json)>, i: int, key: Seq<char>)
    requires
        0 <= i < members.len(),
        members[i].0@ != key,
    ensures
        lookup(members.remove(i), key) == lookup(members, key),
    decreases i,
{
    if i > 0 {
        let rest = members.drop_first();
        assert(members.remove(i).drop_first() =~= rest.remove(i - 1));
        assert(members.remove(i)[0] == members[0]);
        lemma_lookup_remove(rest, i - 1, key);
    } else {
        assert(members.remove(0) =~= members.drop_first());
    }
}

/// `o` with the reference taken away.
pub open spec fn deref_opt(o: Option<&Json>) -> Option<Json> {
    match o {
        Some(v) => Some(*v),
        None => None,
    }
}

impl Json {
    /// Takes the member `key` out of an object: the value is the one
    /// `field` gives, and every other member stays where it is found.
    pub fn take_field(self, key: &str) -> (res: (Json, Option<Json>))
        ensures
            res.1 == self.field(key@),
            forall|k: Seq<char>| k != key@ ==> #[trigger] res.0.field(k) == self.field(k),
            res.0 is Object == self is Object,
    {
        match self {
            Json::Object(members) => {
                let ghost original = members@;
                let wanted = String::from_str(key);
                let mut i: usize = 0;
                while i < members.len()
                    invariant
                        i <= members@.len(),
                        members@ == original,
                        wanted@ == key@,
                        forall|j: int| 0 <= j < i ==> #[trigger] members@[j].0@ != key@,
                    ensures
                        i <= members@.len(),
                        forall|j: int| 0 <= j < i ==> #[trigger] members@[j].0@ != key@,
                        i < members@.len() ==> members@[i as int].0@ == key@,
                    decreases members.len() - i,
                {
                    if members[i].0 == wanted {
                        break;
                    }
                    i = i + 1;
                }
                if i < members.len() {
                    proof {
                        lemma_lookup_at(original, i as int);
                        assert forall|k: Seq<char>| k != key@ implies lookup(original.remove(i as int), k) == lookup(original, k) by {
                            lemma_lookup_remove(original, i as int, k);
                        }
                    }
                    let mut rest = members;
                    let (_, value) = rest.remove(i);
                    assert(rest@ == original.remove(i as int));
                    (Json::Object(rest), Some(value))
                } else {
                    proof {
                        lemma_lookup_none(original, key@);
                    }
                    (Json::Object(members), None)
                }
            },
            other => (other, None),
        }
    }
}

/// The JSON value type of `serde_json`, which the parser produces.
#[verifier::external_type_specification]
#[verifier::external_body]
pub struct ParsedValue(Value);

/// What parsing the text `text` as one JSON value with `serde_json` gives:
/// the value, its objects' members in the order of `serde_json`'s map, or
/// the parser's error message.
pub uninterp spec fn json_parse_of(text: Seq<char>) -> Result<Json, Seq<char>>;

/// Turns a `serde_json::Value` into a `Json`, variant by variant; a number
/// keeps the form that `serde_json` holds it in (`u64`, negative `i64`, or
/// other, kept as its text).
#[verifier::external_body]
fn json_of_value(value: &Value) -> Json {
    match value {
        Value::Null => Json::Null,
        Value::Bool(b) => Json::Bool(*b),
        Value::Number(n) => Json::Number(match (n.as_u64(), n.as_i64()) {
            (Some(u), _) => JsonNumber::PosInt(u),
            (None, Some(i)) => JsonNumber::NegInt(i),
            _ => JsonNumber::Float(n.to_string()),
        }),
        Value::String(s) => Json::String(s.clone()),
        Value::Array(items) => Json::Array(items.iter().map(json_of_value).collect()),
        Value::Object(map) => Json::Object(map.iter().map(|(k, v)| (k.clone(), json_of_value(v))).collect()),
    }
}

/// Parses `text` with `serde_json::from_str` into a `serde_json::Value`
/// and turns that into a `Json`, or gives the parser's error message; the
/// claim is only that the result is the one `json_parse_of` names for this
/// text.
#[verifier::external_body]
pub(crate) fn parse_json(text: &str) -> (res: Result<Json, String>)
    ensures
        match res {
            Ok(v) => json_parse_of(text@) == Ok::<Json, Seq<char>>(v),
            Err(e) => json_parse_of(text@) == Err::<Json, Seq<char>>(e@),
        },
{
    match serde_json::from_str::<Value>(text) {
        Ok(value) => Ok(json_of_value(&value)),
        Err(err) => Err(err.to_string()),
    }
}

} // verus!
