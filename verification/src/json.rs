//! JSON documents: the value tree the status parsers read, with parsing and
//! rendering done by `serde_json`.
use vstd::prelude::*;

use crate::text::str_eq;

verus! {

/// A JSON number as `serde_json` keeps it: a non-negative integer, a negative
/// integer, or a finite float (carried as `serde_json`'s own number, so that
/// rendering writes it exactly as parsed).
#[derive(Debug)]
pub enum JsonNumber {
    PosInt(u64),
    NegInt(i64),
    Float(serde_json::Number),
}

/// A JSON value. Object members keep the order and the distinct keys of
/// `serde_json::Map`.
#[derive(Debug)]
pub enum JsonValue {
    Null,
    Bool(bool),
    Number(JsonNumber),
    Str(String),
    Array(Vec<JsonValue>),
    Object(Vec<(String, JsonValue)>),
}

/// The first member of `entries` whose key is `k`.
pub open spec fn member(entries: Seq<(String, JsonValue)>, k: Seq<char>) -> Option<JsonValue>
    decreases entries.len(),
{
    if entries.len() == 0 {
        None
    } else if entries[0].0@ == k {
        Some(entries[0].1)
    } else {
        member(entries.drop_first(), k)
    }
}

pub proof fn lemma_member_remove(entries: Seq<(String, JsonValue)>, i: int, k: Seq<char>)
    requires
        0 <= i < entries.len(),
        entries[i].0@ != k,
    ensures
        member(entries.remove(i), k) == member(entries, k),
    decreases entries.len(),
{
    if i == 0 {
        assert(entries.remove(0) =~= entries.drop_first());
    } else {
        assert(entries.remove(i)[0] == entries[0]);
        if entries[0].0@ != k {
            assert(entries.remove(i).drop_first() =~= entries.drop_first().remove(i - 1));
            lemma_member_remove(entries.drop_first(), i - 1, k);
        }
    }
}

impl JsonValue {
    /// `v.get(k)`: the member `k` of an object; `None` for a missing key or a non-object.
    pub open spec fn lookup(self, k: Seq<char>) -> Option<JsonValue> {
        match self {
            JsonValue::Object(entries) => member(entries@, k),
            _ => None,
        }
    }

    /// `v[k]`: the member `k` of an object, or `null`.
    pub open spec fn at(self, k: Seq<char>) -> JsonValue {
        match self.lookup(k) {
            Some(x) => x,
            None => JsonValue::Null,
        }
    }

    /// `as_str`: the text of a string value.
    pub open spec fn str_of(self) -> Option<Seq<char>> {
        match self {
            JsonValue::Str(s) => Some(s@),
            _ => None,
        }
    }

    /// `as_bool`.
    pub open spec fn bool_of(self) -> Option<bool> {
        match self {
            JsonValue::Bool(b) => Some(b),
            _ => None,
        }
    }

    /// `as_i64`: an integer that fits in `i64`.
    pub open spec fn i64_of(self) -> Option<i64> {
        match self {
            JsonValue::Number(JsonNumber::PosInt(n)) => if n <= i64::MAX {
                Some(n as i64)
            } else {
                None
            },
            JsonValue::Number(JsonNumber::NegInt(n)) => Some(n),
            _ => None,
        }
    }

    /// `as_array`: the items of an array.
    pub open spec fn items_of(self) -> Option<Seq<JsonValue>> {
        match self {
            JsonValue::Array(items) => Some(items@),
            _ => None,
        }
    }

    /// `as_object`: the members of an object.
    pub open spec fn members_of(self) -> Option<Seq<(String, JsonValue)>> {
        match self {
            JsonValue::Object(entries) => Some(entries@),
            _ => None,
        }
    }

    /// The compact JSON text of this value, as `serde_json` prints it.
    pub fn render(&self) -> (s: String)
        ensures
            s@ == json_render(*self),
    {
        render_json(self)
    }

    /// The member `key` of an object.
    pub fn get(&self, key: &str) -> (r: Option<&JsonValue>)
        ensures
            match r {
                Some(x) => self.lookup(key@) == Some(*x),
                None => self.lookup(key@) is None,
            },
    {
        match self {
            JsonValue::Object(entries) => {
                let mut i: usize = 0;
                assert(entries@.subrange(0, entries@.len() as int) =~= entries@);
                while i < entries.len()
                    invariant
                        i <= entries@.len(),
                        self.lookup(key@) == member(entries@, key@),
                        member(entries@, key@) == member(entries@.subrange(i as int, entries@.len() as int), key@),
                    decreases entries@.len() - i,
                {
                    let ghost rest = entries@.subrange(i as int, entries@.len() as int);
                    proof {
                        assert(rest.drop_first() =~= entries@.subrange(i + 1, entries@.len() as int));
                        assert(rest[0] == entries@[i as int]);
                    }
                    if str_eq(entries[i].0.as_str(), key) {
                        return Some(&entries[i].1);
                    }
                    i = i + 1;
                }
                None
            },
            _ => None,
        }
    }

    /// Takes the member `key` out of an object and gives it back (`null` when
    /// there is none); every other member stays as it was.
    pub fn take_member(&mut self, key: &str) -> (r: JsonValue)
        ensures
            r == old(self).at(key@),
            forall|k: Seq<char>| k != key@ ==> #[trigger] final(self).at(k) == old(self).at(k),
    {
        let mut whole = JsonValue::Null;
        std::mem::swap(&mut whole, self);
        match whole {
            JsonValue::Object(mut entries) => {
                let ghost start = entries@;
                let mut i: usize = 0;
                assert(entries@.subrange(0, entries@.len() as int) =~= entries@);
                while i < entries.len()
                    invariant
                        i <= entries@.len(),
                        entries@ == start,
                        old(self).members_of() == Some(start),
                        member(start, key@) == member(start.subrange(i as int, start.len() as int), key@),
                    decreases entries@.len() - i,
                {
                    let ghost rest = start.subrange(i as int, start.len() as int);
                    proof {
                        assert(rest.drop_first() =~= start.subrange(i + 1, start.len() as int));
                        assert(rest[0] == start[i as int]);
                    }
                    if str_eq(entries[i].0.as_str(), key) {
                        let (_name, value) = entries.remove(i);
                        proof {
                            assert forall|k: Seq<char>| k != key@ implies member(entries@, k) == member(start, k) by {
                                lemma_member_remove(start, i as int, k);
                            }
                        }
                        *self = JsonValue::Object(entries);
                        return value;
                    }
                    i = i + 1;
                }
                proof {
                    assert(start.subrange(i as int, start.len() as int) =~= Seq::<(String, JsonValue)>::empty());
                }
                *self = JsonValue::Object(entries);
                JsonValue::Null
            },
            other => {
                *self = other;
                JsonValue::Null
            },
        }
    }

    /// The text of the string member `key`, if that member is a string.
    pub fn get_str(&self, key: &str) -> (r: Option<&String>)
        ensures
            match r {
                Some(s) => self.at(key@).str_of() == Some(s@),
                None => self.at(key@).str_of() is None,
            },
    {
        match self.get(key) {
            Some(JsonValue::Str(s)) => Some(s),
            _ => None,
        }
    }

    /// The boolean member `key`, if that member is a boolean.
    pub fn get_bool(&self, key: &str) -> (r: Option<bool>)
        ensures
            r == self.at(key@).bool_of(),
    {
        match self.get(key) {
            Some(JsonValue::Bool(b)) => Some(*b),
            _ => None,
        }
    }

    /// The integer member `key`, if that member is an integer that fits in `i64`.
    pub fn get_i64(&self, key: &str) -> (r: Option<i64>)
        ensures
            r == self.at(key@).i64_of(),
    {
        match self.get(key) {
            Some(JsonValue::Number(JsonNumber::PosInt(n))) => {
                if *n <= 9223372036854775807u64 {
                    Some(*n as i64)
                } else {
                    None
                }
            },
            Some(JsonValue::Number(JsonNumber::NegInt(n))) => Some(*n),
            _ => None,
        }
    }
}

/// What `serde_json::from_str::<serde_json::Value>` gives for a text: the value,
/// or the message of its error.
pub uninterp spec fn json_parse(text: Seq<char>) -> Result<JsonValue, Seq<char>>;

/// What `serde_json` prints for a value in its compact form.
pub uninterp spec fn json_render(v: JsonValue) -> Seq<char>;

#[verifier::external_type_specification]
#[verifier::external_body]
pub struct ExSerdeJsonValue(serde_json::Value);

#[verifier::external_type_specification]
#[verifier::external_body]
pub struct ExSerdeJsonNumber(serde_json::Number);

/// Parses `text` with `serde_json::from_str::<serde_json::Value>`. The contract
/// claims only that the outcome is a function of the text: the same text always
/// gives the same value, or the same error message (`Error::to_string`).
#[verifier::external_body]
pub(crate) fn parse_json(text: &str) -> (r: Result<JsonValue, String>)
    ensures
        match r {
            Ok(v) => json_parse(text@) == Ok::<JsonValue, Seq<char>>(v),
            Err(e) => json_parse(text@) == Err::<JsonValue, Seq<char>>(e@),
        },
{
    match serde_json::from_str::<serde_json::Value>(text) {
        Ok(v) => Ok(from_serde_value(v)),
        Err(e) => Err(e.to_string()),
    }
}

/// Renders `v` with `Display` for `serde_json::Value` (the compact form). The
/// contract claims only that the text is a function of the value.
#[verifier::external_body]
pub(crate) fn render_json(v: &JsonValue) -> (s: String)
    ensures
        s@ == json_render(*v),
{
    to_serde_value(v).to_string()
}

/// Moves a `serde_json::Value` into a `JsonValue`, variant for variant.
#[verifier::external_body]
fn from_serde_value(v: serde_json::Value) -> JsonValue {
    match v {
        serde_json::Value::Null => JsonValue::Null,
        serde_json::Value::Bool(b) => JsonValue::Bool(b),
        serde_json::Value::Number(n) => JsonValue::Number(from_serde_number(n)),
        serde_json::Value::String(s) => JsonValue::Str(s),
        serde_json::Value::Array(a) => JsonValue::Array(a.into_iter().map(from_serde_value).collect()),
        serde_json::Value::Object(o) => JsonValue::Object(
            o.into_iter().map(|(k, x)| (k, from_serde_value(x))).collect(),
        ),
    }
}

/// Tells the three kinds of `serde_json::Number` apart.
#[verifier::external_body]
fn from_serde_number(n: serde_json::Number) -> JsonNumber {
    match (n.as_u64(), n.as_i64()) {
        (Some(u), _) => JsonNumber::PosInt(u),
        (None, Some(i)) => JsonNumber::NegInt(i),
        (None, None) => JsonNumber::Float(n),
    }
}

/// Builds the `serde_json::Value` for a `JsonValue`, variant for variant.
#[verifier::external_body]
fn to_serde_value(v: &JsonValue) -> serde_json::Value {
    match v {
        JsonValue::Null => serde_json::Value::Null,
        JsonValue::Bool(b) => serde_json::Value::Bool(*b),
        JsonValue::Number(JsonNumber::PosInt(u)) => serde_json::Value::from(*u),
        JsonValue::Number(JsonNumber::NegInt(i)) => serde_json::Value::from(*i),
        JsonValue::Number(JsonNumber::Float(n)) => serde_json::Value::Number(n.clone()),
        JsonValue::Str(s) => serde_json::Value::String(s.clone()),
        JsonValue::Array(a) => serde_json::Value::Array(a.iter().map(to_serde_value).collect()),
        JsonValue::Object(o) => serde_json::Value::Object(o.iter().map(|(k, x)| (k.clone(), to_serde_value(x))).collect()),
    }
}

} // verus!
