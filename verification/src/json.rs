//! A plain model of decoded JSON documents, and the one trusted route by
//! which serde_json's parser produces values of it.

use vstd::prelude::*;
use vstd::string::StrSliceExecFns;

verus! {

/// One decoded JSON value. Numbers keep their value when it fits an
/// unsigned or a signed 64-bit integer; any other number (a fraction, an
/// exponent form, a magnitude past both ranges) is noted without its value,
/// which is all the entry schemas below ever ask of one. Object members
/// appear sorted by key, each key once, as serde_json's maps hand them out.
#[derive(Debug)]
pub enum Json {
    Null,
    Bool(bool),
    UInt(u64),
    Int(i64),
    NumOther,
    Text(String),
    Arr(Vec<Json>),
    Obj(Vec<(String, Json)>),
}

/// What serde_json decodes from the front of a byte sequence: the first
/// JSON value as a `Json` model together with the count of bytes it took
/// (leading whitespace included), or nothing when no value parses there.
pub uninterp spec fn json_step(s: Seq<u8>) -> Option<(Json, int)>;

/// Strict lexicographic order on character sequences, by code point.
pub open spec fn str_lt(a: Seq<char>, b: Seq<char>) -> bool
    decreases a.len(),
{
    if b.len() == 0 {
        false
    } else if a.len() == 0 {
        true
    } else if a[0] != b[0] {
        (a[0] as u32) < (b[0] as u32)
    } else {
        str_lt(a.drop_first(), b.drop_first())
    }
}

/// Keys of an object's members are strictly increasing, hence unique.
pub open spec fn obj_keys_sorted(pairs: Seq<(String, Json)>) -> bool {
    forall|i: int, j: int|
        0 <= i < j < pairs.len() ==> str_lt(#[trigger] pairs[i].0@, #[trigger] pairs[j].0@)
}

/// A top-level object carries its members in sorted key order.
pub open spec fn top_sorted(j: Json) -> bool {
    match j {
        Json::Obj(pairs) => obj_keys_sorted(pairs@),
        _ => true,
    }
}

/// serde_json's parsed value tree, opaque here: it only passes between the
/// parser call and the conversion below.
#[verifier::external_type_specification]
#[verifier::external_body]
pub struct ExValue(serde_json::Value);

/// Relies on serde_json's value tree: each variant carried over one for
/// one; a number keeps its value through `as_u64` or `as_i64` where one of
/// them holds it, and is otherwise noted without it.
#[verifier::external_body]
fn json_of_value(v: serde_json::Value) -> Json {
    match v {
        serde_json::Value::Null => Json::Null,
        serde_json::Value::Bool(b) => Json::Bool(b),
        serde_json::Value::Number(n) => match (n.as_u64(), n.as_i64()) {
            (Some(u), _) => Json::UInt(u),
            (None, Some(i)) => Json::Int(i),
            _ => Json::NumOther,
        },
        serde_json::Value::String(s) => Json::Text(s),
        serde_json::Value::Array(a) => Json::Arr(a.into_iter().map(json_of_value).collect()),
        serde_json::Value::Object(m) => Json::Obj(
            m.into_iter().map(|(k, w)| (k, json_of_value(w))).collect(),
        ),
    }
}

/// Relies on serde_json's streaming deserializer over a byte slice: it
/// reads one JSON value from the front of `buf`, counts the bytes so far
/// deserialized through `byte_offset`, and leaves everything after the
/// value alone. The result depends on the bytes alone, and a value is
/// never read from an empty front, so a successful step takes at least one
/// byte. Object members come back sorted by key because serde_json's map
/// iterates its keys in order.
#[verifier::external_body]
pub(crate) fn json_parse_prefix(buf: &[u8]) -> (r: Option<(Json, usize)>)
    ensures
        match r {
            None => json_step(buf@) is None,
            Some((j, n)) => {
                &&& json_step(buf@) == Some((j, n as int))
                &&& 1 <= n <= buf@.len()
                &&& top_sorted(j)
            },
        },
{
    let mut stream = serde_json::Deserializer::from_slice(buf).into_iter::<serde_json::Value>();
    match stream.next() {
        Some(Ok(v)) => {
            let n = stream.byte_offset();
            Some((json_of_value(v), n))
        },
        _ => None,
    }
}

/// First member of `pairs` whose key reads as `key`, if any.
pub open spec fn obj_get(pairs: Seq<(String, Json)>, key: Seq<char>) -> Option<Json>
    decreases pairs.len(),
{
    if pairs.len() == 0 {
        None
    } else if pairs[0].0@ == key {
        Some(pairs[0].1)
    } else {
        obj_get(pairs.drop_first(), key)
    }
}

/// Character-for-character string equality.
pub fn str_eq_str(a: &str, b: &str) -> (r: bool)
    ensures
        r == (a@ == b@),
{
    let alen = a.unicode_len();
    let blen = b.unicode_len();
    if alen != blen {
        return false;
    }
    let mut i: usize = 0;
    while i < alen
        invariant
            a@.len() == alen,
            b@.len() == alen,
            i <= alen,
            forall|k: int| 0 <= k < i ==> a@[k] == b@[k],
        decreases alen - i,
    {
        if a.get_char(i) != b.get_char(i) {
            return false;
        }
        i += 1;
    }
    proof {
        assert(a@ =~= b@);
    }
    true
}

/// Find a member by key; agrees with `obj_get` on the view.
pub fn obj_lookup<'a>(pairs: &'a Vec<(String, Json)>, key: &str) -> (r: Option<&'a Json>)
    ensures
        match r {
            Some(j) => obj_get(pairs@, key@) == Some(*j),
            None => obj_get(pairs@, key@) is None,
        },
{
    let mut i: usize = 0;
    proof {
        assert(pairs@.skip(0) =~= pairs@);
    }
    while i < pairs.len()
        invariant
            i <= pairs@.len(),
            obj_get(pairs@, key@) == obj_get(pairs@.skip(i as int), key@),
        decreases pairs@.len() - i,
    {
        proof {
            assert(pairs@.skip(i as int)[0] == pairs@[i as int]);
        }
        if str_eq_str(pairs[i].0.as_str(), key) {
            return Some(&pairs[i].1);
        }
        proof {
            assert(pairs@.skip(i as int).drop_first() =~= pairs@.skip(i as int + 1));
        }
        i += 1;
    }
    proof {
        assert(pairs@.skip(i as int).len() == 0);
    }
    None
}

/// The signed 64-bit reading of a JSON value, where it has one.
pub open spec fn spec_json_i64(j: Json) -> Option<i64> {
    match j {
        Json::UInt(u) => if u <= i64::MAX as u64 {
            Some(u as i64)
        } else {
            None
        },
        Json::Int(i) => Some(i),
        _ => None,
    }
}

/// The unsigned 64-bit reading of a JSON value, where it has one.
pub open spec fn spec_json_u64(j: Json) -> Option<u64> {
    match j {
        Json::UInt(u) => Some(u),
        _ => None,
    }
}

pub fn json_as_i64(j: &Json) -> (r: Option<i64>)
    ensures
        r == spec_json_i64(*j),
{
    match j {
        Json::UInt(u) => if *u <= 0x7fff_ffff_ffff_ffffu64 {
            Some(*u as i64)
        } else {
            None
        },
        Json::Int(i) => Some(*i),
        _ => None,
    }
}

pub fn json_as_u64(j: &Json) -> (r: Option<u64>)
    ensures
        r == spec_json_u64(*j),
{
    match j {
        Json::UInt(u) => Some(*u),
        _ => None,
    }
}

/// A shape: every element an i64, in order.
pub open spec fn spec_shape(s: Seq<Json>) -> Option<Seq<i64>> {
    if forall|i: int| 0 <= i < s.len() ==> spec_json_i64(#[trigger] s[i]) is Some {
        Some(Seq::new(s.len(), |i: int| spec_json_i64(s[i])->Some_0))
    } else {
        None
    }
}

pub fn decode_shape(items: &Vec<Json>) -> (r: Option<Vec<i64>>)
    ensures
        match r {
            Some(v) => spec_shape(items@) == Some(v@),
            None => spec_shape(items@) is None,
        },
{
    let mut out: Vec<i64> = Vec::new();
    let mut i: usize = 0;
    while i < items.len()
        invariant
            i <= items@.len(),
            out@.len() == i,
            forall|k: int|
                0 <= k < i ==> spec_json_i64(#[trigger] items@[k]) == Some(out@[k]),
        decreases items@.len() - i,
    {
        match json_as_i64(&items[i]) {
            Some(x) => {
                out.push(x);
            },
            None => {
                proof {
                    assert(spec_json_i64(items@[i as int]) is None);
                }
                return None;
            },
        }
        i += 1;
    }
    proof {
        let m = Seq::new(items@.len(), |k: int| spec_json_i64(items@[k])->Some_0);
        assert(out@ =~= m);
    }
    Some(out)
}

} // verus!
