//! A JSON document as plain values, and the accessors that status parsing reads it with.

use vstd::prelude::*;
use crate::text::{i64_to_decimal, int_decimal, str_eq, strip_trailing, trim_end_class, CharClass};

verus! {

/// A JSON value. Object members keep the order in which the document's map yields them.
#[derive(Debug)]
pub enum JsonValue {
    Null,
    Bool(bool),
    /// A number, with its value when it is an integer that fits in `i64`.
    Number(Option<i64>),
    Str(String),
    Array(Vec<JsonValue>),
    Object(Vec<(String, JsonValue)>),
}

/// The value a borrowed optional value refers to.
pub open spec fn val(v: Option<&JsonValue>) -> Option<JsonValue> {
    match v {
        Some(r) => Some(*r),
        None => None,
    }
}

/// The value of the first member named `key`.
pub open spec fn lookup(entries: Seq<(String, JsonValue)>, key: Seq<char>) -> Option<JsonValue>
    decreases entries.len(),
{
    if entries.len() == 0 {
        None
    } else if entries[0].0@ == key {
        Some(entries[0].1)
    } else {
        lookup(entries.drop_first(), key)
    }
}

/// Member `key` of an object; nothing for any other value (`Value::get` with a string key).
pub open spec fn member(v: JsonValue, key: Seq<char>) -> Option<JsonValue> {
    match v {
        JsonValue::Object(m) => lookup(m@, key),
        _ => None,
    }
}

/// Member `key` of an optional value.
pub open spec fn member_of(v: Option<JsonValue>, key: Seq<char>) -> Option<JsonValue> {
    match v {
        Some(x) => member(x, key),
        None => None,
    }
}

/// The string of a string value, else the empty string (`as_str().unwrap_or("")`).
pub open spec fn text_of(v: Option<JsonValue>) -> Seq<char> {
    match v {
        Some(JsonValue::Str(s)) => s@,
        _ => Seq::empty(),
    }
}

/// The boolean of a boolean value, else false (`as_bool().unwrap_or(false)`).
pub open spec fn flag_of(v: Option<JsonValue>) -> bool {
    match v {
        Some(JsonValue::Bool(b)) => b,
        _ => false,
    }
}

/// The decimal text of an `i64` number, else the empty string.
pub open spec fn id_of(v: Option<JsonValue>) -> Seq<char> {
    match v {
        Some(JsonValue::Number(Some(n))) => int_decimal(n as int),
        _ => Seq::empty(),
    }
}

/// The strings among the items, in order.
pub open spec fn strings_in(items: Seq<JsonValue>) -> Seq<Seq<char>>
    decreases items.len(),
{
    if items.len() == 0 {
        Seq::empty()
    } else {
        let rest = strings_in(items.drop_last());
        match items.last() {
            JsonValue::Str(s) => rest.push(s@),
            _ => rest,
        }
    }
}

/// The strings of an array value, else nothing.
pub open spec fn string_list(v: Option<JsonValue>) -> Seq<Seq<char>> {
    match v {
        Some(JsonValue::Array(a)) => strings_in(a@),
        _ => Seq::empty(),
    }
}

/// The object values among the members, in order.
pub open spec fn objects_in(entries: Seq<(String, JsonValue)>) -> Seq<JsonValue>
    decreases entries.len(),
{
    if entries.len() == 0 {
        Seq::empty()
    } else {
        let rest = objects_in(entries.drop_last());
        match entries.last().1 {
            JsonValue::Object(_) => rest.push(entries.last().1),
            _ => rest,
        }
    }
}

/// The object values among the members of an object value, else nothing.
pub open spec fn object_values(v: Option<JsonValue>) -> Seq<JsonValue> {
    match v {
        Some(JsonValue::Object(m)) => objects_in(m@),
        _ => Seq::empty(),
    }
}

/// `HostName`, or `DNSName` where there is no `HostName` member, as text without trailing dots.
pub open spec fn name_of(node: Option<JsonValue>) -> Seq<char> {
    let v = match member_of(node, "HostName"@) {
        Some(x) => Some(x),
        None => member_of(node, "DNSName"@),
    };
    strip_trailing(text_of(v), CharClass::Dot)
}

/// The first item of an array value when it is a string.
pub open spec fn first_text(v: Option<JsonValue>) -> Option<Seq<char>> {
    match v {
        Some(JsonValue::Array(a)) => if a@.len() > 0 {
            match a@[0] {
                JsonValue::Str(s) => Some(s@),
                _ => None,
            }
        } else {
            None
        },
        _ => None,
    }
}

impl JsonValue {
    /// Member `key` of an object (`Value::get`).
    pub fn get<'a>(&'a self, key: &str) -> (r: Option<&'a JsonValue>)
        ensures
            val(r) == member(*self, key@),
    {
        match self {
            JsonValue::Object(m) => {
                let n = m.len();
                let mut i: usize = 0;
                proof {
                    assert(m@.skip(0) =~= m@);
                }
                while i < n
                    invariant
                        n == m@.len(),
                        i <= n,
                        member(*self, key@) == lookup(m@, key@),
                        lookup(m@, key@) == lookup(m@.skip(i as int), key@),
                    decreases n - i,
                {
                    proof {
                        assert(m@.skip(i as int).drop_first() =~= m@.skip(i + 1));
                    }
                    if str_eq(m[i].0.as_str(), key) {
                        proof {
                            assert(m@.skip(i as int)[0] == m@[i as int]);
                        }
                        return Some(&m[i].1);
                    }
                    i = i + 1;
                }
                None
            },
            _ => None,
        }
    }

    /// The string of a string value (`Value::as_str`).
    pub fn as_str(&self) -> (r: Option<&str>)
        ensures
            match r {
                Some(s) => *self matches JsonValue::Str(t) && s@ == t@,
                None => !(*self is Str),
            },
    {
        match self {
            JsonValue::Str(s) => Some(s.as_str()),
            _ => None,
        }
    }

    /// The boolean of a boolean value (`Value::as_bool`).
    pub fn as_bool(&self) -> (r: Option<bool>)
        ensures
            r == match *self {
                JsonValue::Bool(b) => Some(b),
                _ => None,
            },
    {
        match self {
            JsonValue::Bool(b) => Some(*b),
            _ => None,
        }
    }

    /// The value of an integer number that fits in `i64` (`Value::as_i64`).
    pub fn as_i64(&self) -> (r: Option<i64>)
        ensures
            r == match *self {
                JsonValue::Number(n) => n,
                _ => None,
            },
    {
        match self {
            JsonValue::Number(n) => *n,
            _ => None,
        }
    }
}

/// Member `key` of an optional value.
pub fn member_opt<'a>(v: Option<&'a JsonValue>, key: &str) -> (r: Option<&'a JsonValue>)
    ensures
        val(r) == member_of(val(v), key@),
{
    match v {
        Some(x) => x.get(key),
        None => None,
    }
}

/// The string of an optional string value, else the empty string.
pub fn text_field(v: Option<&JsonValue>) -> (r: String)
    ensures
        r@ == text_of(val(v)),
{
    match v {
        Some(JsonValue::Str(s)) => s.clone(),
        _ => String::new(),
    }
}

/// The boolean of an optional boolean value, else false.
pub fn flag_field(v: Option<&JsonValue>) -> (r: bool)
    ensures
        r == flag_of(val(v)),
{
    match v {
        Some(JsonValue::Bool(b)) => *b,
        _ => false,
    }
}

/// The decimal text of an optional `i64` number, else the empty string.
pub fn id_field(v: Option<&JsonValue>) -> (r: String)
    ensures
        r@ == id_of(val(v)),
{
    match v {
        Some(JsonValue::Number(Some(n))) => i64_to_decimal(*n),
        _ => String::new(),
    }
}

/// The strings of an optional array value.
pub fn string_list_field(v: Option<&JsonValue>) -> (r: Vec<String>)
    ensures
        r.deep_view() == string_list(val(v)),
{
    let mut out: Vec<String> = Vec::new();
    match v {
        Some(JsonValue::Array(a)) => {
            let n = a.len();
            let mut i: usize = 0;
            while i < n
                invariant
                    n == a@.len(),
                    i <= n,
                    out.deep_view() == strings_in(a@.take(i as int)),
                decreases n - i,
            {
                proof {
                    assert(a@.take(i + 1).drop_last() =~= a@.take(i as int));
                }
                match &a[i] {
                    JsonValue::Str(s) => {
                        out.push(s.clone());
                        proof {
                            assert(out.deep_view() =~= strings_in(a@.take(i as int)).push(s@));
                        }
                    },
                    _ => {},
                }
                i = i + 1;
            }
            proof {
                assert(a@.take(n as int) =~= a@);
            }
        },
        _ => {
            proof {
                assert(out.deep_view() =~= Seq::<Seq<char>>::empty());
            }
        },
    }
    out
}

/// The name of a node: `HostName`, or `DNSName` where there is no `HostName` member, without
/// trailing dots.
pub fn name_field(node: Option<&JsonValue>) -> (r: String)
    ensures
        r@ == name_of(val(node)),
{
    let v = match member_opt(node, "HostName") {
        Some(x) => Some(x),
        None => member_opt(node, "DNSName"),
    };
    let t = text_field(v);
    String::from_str(trim_end_class(t.as_str(), CharClass::Dot))
}

/// The first item of an optional array value when it is a string.
pub fn first_text_field(v: Option<&JsonValue>) -> (r: Option<String>)
    ensures
        match r {
            Some(s) => first_text(val(v)) == Some(s@),
            None => first_text(val(v)) is None,
        },
{
    match v {
        Some(JsonValue::Array(a)) => {
            if a.len() > 0 {
                match &a[0] {
                    JsonValue::Str(s) => Some(s.clone()),
                    _ => None,
                }
            } else {
                None
            }
        },
        _ => None,
    }
}

} // verus!
