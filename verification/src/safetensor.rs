//! The header-first container format: an 8-byte little-endian length, a
//! JSON document mapping tensor names to entries, then the data region.

use vstd::prelude::*;

use crate::json::{
    json_parse_prefix, json_as_u64, decode_shape, obj_get, obj_lookup, obj_keys_sorted,
    spec_json_u64, spec_shape, str_eq_str, str_lt, Json, json_step,
};

verus! {

/// The reserved key whose value is carried as opaque metadata.
pub open spec fn meta_key() -> Seq<char> {
    "__metadata__"@
}

/// Scalar element type of a header entry. The JSON tags are the lowercase
/// names, except the uppercase `BOOL` and `BF16`.
#[derive(Clone, Copy, Debug, PartialEq, Eq, Structural)]
#[non_exhaustive]
pub enum SafetensorDtype {
    F64,
    F32,
    I64,
    I32,
    I16,
    I8,
    U64,
    U32,
    U16,
    U8,
    Bool,
    F16,
    Bf16,
}

/// One named entry: a shape, an element type, and a byte range
/// `[start, end)` relative to the start of the data region. Whether the
/// range matches shape times element width is deliberately not checked.
#[derive(Clone, Debug)]
pub struct SafetensorEntry {
    pub shape: Vec<i64>,
    pub dtype: SafetensorDtype,
    pub data_offsets: [u64; 2],
}

/// The parsed header: where the data region begins, the entries in name
/// order, and the untouched value of the reserved key, if one was there.
#[derive(Debug)]
pub struct SafetensorHeader {
    pub buf_start: u64,
    pub entries: Vec<(String, SafetensorEntry)>,
    pub raw_metadata: Option<Json>,
}

/// Ghost image of one header entry, for contracts.
pub ghost struct EntryAModel {
    pub shape: Seq<i64>,
    pub dtype: SafetensorDtype,
    pub start: u64,
    pub end: u64,
}

pub open spec fn entry_a_model(e: SafetensorEntry) -> EntryAModel {
    EntryAModel {
        shape: e.shape@,
        dtype: e.dtype,
        start: e.data_offsets@[0],
        end: e.data_offsets@[1],
    }
}

pub open spec fn spec_dtype_a(s: Seq<char>) -> Option<SafetensorDtype> {
    if s == "f64"@ {
        Some(SafetensorDtype::F64)
    } else if s == "f32"@ {
        Some(SafetensorDtype::F32)
    } else if s == "i64"@ {
        Some(SafetensorDtype::I64)
    } else if s == "i32"@ {
        Some(SafetensorDtype::I32)
    } else if s == "i16"@ {
        Some(SafetensorDtype::I16)
    } else if s == "i8"@ {
        Some(SafetensorDtype::I8)
    } else if s == "u64"@ {
        Some(SafetensorDtype::U64)
    } else if s == "u32"@ {
        Some(SafetensorDtype::U32)
    } else if s == "u16"@ {
        Some(SafetensorDtype::U16)
    } else if s == "u8"@ {
        Some(SafetensorDtype::U8)
    } else if s == "BOOL"@ {
        Some(SafetensorDtype::Bool)
    } else if s == "f16"@ {
        Some(SafetensorDtype::F16)
    } else if s == "BF16"@ {
        Some(SafetensorDtype::Bf16)
    } else {
        None
    }
}

fn decode_dtype_a(s: &str) -> (r: Option<SafetensorDtype>)
    ensures
        r == spec_dtype_a(s@),
{
    if str_eq_str(s, "f64") {
        Some(SafetensorDtype::F64)
    } else if str_eq_str(s, "f32") {
        Some(SafetensorDtype::F32)
    } else if str_eq_str(s, "i64") {
        Some(SafetensorDtype::I64)
    } else if str_eq_str(s, "i32") {
        Some(SafetensorDtype::I32)
    } else if str_eq_str(s, "i16") {
        Some(SafetensorDtype::I16)
    } else if str_eq_str(s, "i8") {
        Some(SafetensorDtype::I8)
    } else if str_eq_str(s, "u64") {
        Some(SafetensorDtype::U64)
    } else if str_eq_str(s, "u32") {
        Some(SafetensorDtype::U32)
    } else if str_eq_str(s, "u16") {
        Some(SafetensorDtype::U16)
    } else if str_eq_str(s, "u8") {
        Some(SafetensorDtype::U8)
    } else if str_eq_str(s, "BOOL") {
        Some(SafetensorDtype::Bool)
    } else if str_eq_str(s, "f16") {
        Some(SafetensorDtype::F16)
    } else if str_eq_str(s, "BF16") {
        Some(SafetensorDtype::Bf16)
    } else {
        None
    }
}

/// A `data_offsets` pair: exactly two unsigned 64-bit numbers.
pub open spec fn spec_offsets(s: Seq<Json>) -> Option<(u64, u64)> {
    if s.len() == 2 {
        match (spec_json_u64(s[0]), spec_json_u64(s[1])) {
            (Some(a), Some(b)) => Some((a, b)),
            _ => None,
        }
    } else {
        None
    }
}

fn decode_offsets(items: &Vec<Json>) -> (r: Option<[u64; 2]>)
    ensures
        match r {
            Some(a) => spec_offsets(items@) == Some((a@[0], a@[1])),
            None => spec_offsets(items@) is None,
        },
{
    if items.len() != 2 {
        return None;
    }
    let a = json_as_u64(&items[0]);
    let b = json_as_u64(&items[1]);
    match (a, b) {
        (Some(a), Some(b)) => Some([a, b]),
        _ => None,
    }
}

/// The header-entry schema on one named value: an object holding `shape`
/// as an array of signed 64-bit numbers, `dtype` as a known tag and
/// `data_offsets` as a pair of unsigned 64-bit numbers; other members are
/// ignored.
pub open spec fn entry_a_of_json(j: Json) -> Option<EntryAModel> {
    match j {
        Json::Obj(pairs) => match (
            obj_get(pairs@, "shape"@),
            obj_get(pairs@, "dtype"@),
            obj_get(pairs@, "data_offsets"@),
        ) {
            (Some(jsh), Some(jdt), Some(jof)) => match (jsh, jdt, jof) {
                (Json::Arr(items), Json::Text(ds), Json::Arr(offs)) => match (
                    spec_shape(items@),
                    spec_dtype_a(ds@),
                    spec_offsets(offs@),
                ) {
                    (Some(sh), Some(d), Some((st, en))) => Some(
                        EntryAModel { shape: sh, dtype: d, start: st, end: en },
                    ),
                    _ => None,
                },
                _ => None,
            },
            _ => None,
        },
        _ => None,
    }
}

/// Decode one named value against the header-entry schema.
fn decode_entry_a(j: &Json) -> (r: Option<SafetensorEntry>)
    ensures
        match r {
            Some(e) => entry_a_of_json(*j) == Some(entry_a_model(e)),
            None => entry_a_of_json(*j) is None,
        },
{
    match j {
        Json::Obj(pairs) => {
            let jsh = obj_lookup(pairs, "shape");
            let jdt = obj_lookup(pairs, "dtype");
            let jof = obj_lookup(pairs, "data_offsets");
            match (jsh, jdt, jof) {
                (Some(jsh), Some(jdt), Some(jof)) => match (jsh, jdt, jof) {
                    (Json::Arr(items), Json::Text(ds), Json::Arr(offs)) => {
                        let sh = decode_shape(items);
                        let d = decode_dtype_a(ds.as_str());
                        let of = decode_offsets(offs);
                        match (sh, d, of) {
                            (Some(sh), Some(d), Some(of)) => Some(
                                SafetensorEntry { shape: sh, dtype: d, data_offsets: of },
                            ),
                            _ => None,
                        }
                    },
                    _ => None,
                },
                _ => None,
            }
        },
        _ => None,
    }
}

/// The members that remain once the reserved key is taken out, in order.
pub open spec fn kept_pairs(pairs: Seq<(String, Json)>) -> Seq<(String, Json)>
    decreases pairs.len(),
{
    if pairs.len() == 0 {
        Seq::empty()
    } else {
        let rest = kept_pairs(pairs.drop_first());
        if pairs[0].0@ == meta_key() {
            rest
        } else {
            seq![pairs[0]] + rest
        }
    }
}

proof fn lemma_kept_append(a: Seq<(String, Json)>, b: Seq<(String, Json)>)
    ensures
        kept_pairs(a + b) == kept_pairs(a) + kept_pairs(b),
    decreases a.len(),
{
    if a.len() == 0 {
        assert(a + b =~= b);
        assert(kept_pairs(a) + kept_pairs(b) =~= kept_pairs(b));
    } else {
        assert((a + b).drop_first() =~= a.drop_first() + b);
        assert((a + b)[0] == a[0]);
        lemma_kept_append(a.drop_first(), b);
        if a[0].0@ == meta_key() {
        } else {
            assert(seq![a[0]] + (kept_pairs(a.drop_first()) + kept_pairs(b)) =~= (seq![a[0]]
                + kept_pairs(a.drop_first())) + kept_pairs(b));
        }
    }
}

/// Nothing kept carries the reserved key.
pub proof fn lemma_kept_no_meta(pairs: Seq<(String, Json)>)
    ensures
        forall|i: int|
            0 <= i < kept_pairs(pairs).len() ==> (#[trigger] kept_pairs(pairs)[i]).0@
                != meta_key(),
    decreases pairs.len(),
{
    if pairs.len() > 0 {
        lemma_kept_no_meta(pairs.drop_first());
        let rest = kept_pairs(pairs.drop_first());
        if pairs[0].0@ == meta_key() {
        } else {
            assert forall|i: int| 0 <= i < kept_pairs(pairs).len() implies (
            #[trigger] kept_pairs(pairs)[i]).0@ != meta_key() by {
                if i == 0 {
                    assert(kept_pairs(pairs)[0] == pairs[0]);
                } else {
                    assert(kept_pairs(pairs)[i] == rest[i - 1]);
                }
            };
        }
    }
}

/// Every kept member is one of the document's members.
proof fn lemma_kept_mem(pairs: Seq<(String, Json)>)
    ensures
        forall|i: int|
            0 <= i < kept_pairs(pairs).len() ==> exists|j: int|
                0 <= j < pairs.len() && #[trigger] kept_pairs(pairs)[i] == pairs[j],
    decreases pairs.len(),
{
    if pairs.len() > 0 {
        let rest = pairs.drop_first();
        lemma_kept_mem(rest);
        assert forall|i: int| 0 <= i < kept_pairs(pairs).len() implies exists|j: int|
            0 <= j < pairs.len() && #[trigger] kept_pairs(pairs)[i] == pairs[j] by {
            if pairs[0].0@ == meta_key() {
                let m = choose|m: int| 0 <= m < rest.len() && kept_pairs(rest)[i] == rest[m];
                assert(kept_pairs(pairs)[i] == pairs[m + 1]);
            } else if i == 0 {
                assert(kept_pairs(pairs)[0] == pairs[0]);
            } else {
                let m = choose|m: int|
                    0 <= m < rest.len() && kept_pairs(rest)[i - 1] == rest[m];
                assert(kept_pairs(pairs)[i] == pairs[m + 1]);
            }
        };
    }
}

/// Taking the reserved member out keeps the rest in sorted key order.
proof fn lemma_kept_sorted(pairs: Seq<(String, Json)>)
    requires
        obj_keys_sorted(pairs),
    ensures
        obj_keys_sorted(kept_pairs(pairs)),
    decreases pairs.len(),
{
    if pairs.len() > 0 {
        let rest = pairs.drop_first();
        assert forall|i: int, j: int| 0 <= i < j < rest.len() implies str_lt(
            #[trigger] rest[i].0@,
            #[trigger] rest[j].0@,
        ) by {
            assert(rest[i] == pairs[i + 1]);
            assert(rest[j] == pairs[j + 1]);
        };
        lemma_kept_sorted(rest);
        lemma_kept_mem(rest);
        if pairs[0].0@ != meta_key() {
            let k = kept_pairs(pairs);
            assert forall|i: int, j: int| 0 <= i < j < k.len() implies str_lt(
                #[trigger] k[i].0@,
                #[trigger] k[j].0@,
            ) by {
                if i == 0 {
                    assert(k[0] == pairs[0]);
                    assert(k[j] == kept_pairs(rest)[j - 1]);
                    let m = choose|m: int|
                        0 <= m < rest.len() && kept_pairs(rest)[j - 1] == rest[m];
                    assert(rest[m] == pairs[m + 1]);
                    assert(str_lt(pairs[0].0@, pairs[m + 1].0@));
                } else {
                    assert(k[i] == kept_pairs(rest)[i - 1]);
                    assert(k[j] == kept_pairs(rest)[j - 1]);
                }
            };
        }
    }
}

/// Entry names are strictly increasing: deterministic name order.
pub open spec fn entries_sorted(entries: Seq<(String, SafetensorEntry)>) -> bool {
    forall|i: int, j: int|
        0 <= i < j < entries.len() ==> str_lt(
            (#[trigger] entries[i]).0@,
            (#[trigger] entries[j]).0@,
        )
}

proof fn lemma_str_lt_irrefl(a: Seq<char>)
    ensures
        !str_lt(a, a),
    decreases a.len(),
{
    if a.len() > 0 {
        lemma_str_lt_irrefl(a.drop_first());
    }
}

/// The declared header length: the unsigned 64-bit little-endian number
/// in the first eight bytes.
pub open spec fn spec_header_len(s: Seq<u8>) -> int {
    vstd::bytes::spec_u64_from_le_bytes(s.subrange(0, 8)) as int
}

/// The length prefix is readable and the declared document fits.
pub open spec fn header_framing_ok(s: Seq<u8>) -> bool {
    &&& s.len() >= 8
    &&& 8 + spec_header_len(s) <= s.len()
}

/// The one JSON document read from the front of the declared region;
/// bytes of the region after the document are ignored.
pub open spec fn header_doc(s: Seq<u8>) -> Option<(Json, int)> {
    json_step(s.subrange(8, 8 + spec_header_len(s)))
}

/// The entries are exactly the kept members, in order, each meeting the
/// entry schema.
pub open spec fn entries_match(
    entries: Seq<(String, SafetensorEntry)>,
    pairs: Seq<(String, Json)>,
) -> bool {
    &&& entries.len() == kept_pairs(pairs).len()
    &&& forall|i: int|
        0 <= i < entries.len() ==> {
            &&& (#[trigger] entries[i]).0@ == kept_pairs(pairs)[i].0@
            &&& entry_a_of_json(kept_pairs(pairs)[i].1) == Some(entry_a_model(entries[i].1))
        }
}

/// The metadata is the reserved member's value where one exists, nothing
/// otherwise.
pub open spec fn metadata_match(meta: Option<Json>, pairs: Seq<(String, Json)>) -> bool {
    &&& forall|i: int|
        0 <= i < pairs.len() && (#[trigger] pairs[i]).0@ == meta_key() ==> meta == Some(
            pairs[i].1,
        )
    &&& (forall|i: int| 0 <= i < pairs.len() ==> (#[trigger] pairs[i]).0@ != meta_key())
        ==> meta is None
}

/// What a successful header parse of the bytes `s` means.
pub open spec fn header_parse_ok(s: Seq<u8>, h: SafetensorHeader) -> bool {
    &&& header_framing_ok(s)
    &&& h.buf_start == 8 + spec_header_len(s)
    &&& match header_doc(s) {
        Some((j, n)) => match j {
            Json::Obj(pairs) => {
                &&& entries_match(h.entries@, pairs@)
                &&& metadata_match(h.raw_metadata, pairs@)
            },
            _ => false,
        },
        None => false,
    }
}

/// When the header parse fails: an unreadable or overrunning length
/// prefix, no JSON document, a document that is not an object, or a kept
/// member that misses the entry schema.
pub open spec fn header_rejects(s: Seq<u8>) -> bool {
    ||| s.len() < 8
    ||| 8 + spec_header_len(s) > s.len()
    ||| match header_doc(s) {
        Some((j, n)) => match j {
            Json::Obj(pairs) => exists|i: int|
                0 <= i < kept_pairs(pairs@).len() && entry_a_of_json(
                    (#[trigger] kept_pairs(pairs@)[i]).1,
                ) is None,
            _ => true,
        },
        None => true,
    }
}

impl SafetensorHeader {
    /// Parse a whole header-format file held in memory: the length
    /// prefix, then one JSON object whose reserved member becomes the
    /// metadata and whose other members become the named entries, in the
    /// sorted key order the document decoder hands them out.
    #[verifier::loop_isolation(false)]
    pub fn from_bytes(buf: &[u8]) -> (r: Result<SafetensorHeader, ()>)
        ensures
            match r {
                Ok(h) => header_parse_ok(buf@, h) && entries_sorted(h.entries@),
                Err(e) => header_rejects(buf@),
            },
    {
        let len = buf.len();
        if len < 8 {
            return Err(());
        }
        let hb = vstd::slice::slice_subrange(buf, 0, 8);
        let hlen64 = vstd::bytes::u64_from_le_bytes(hb);
        if hlen64 > (len - 8) as u64 {
            return Err(());
        }
        let hlen = hlen64 as usize;
        let doc = vstd::slice::slice_subrange(buf, 8, 8 + hlen);
        proof {
            assert(doc@ =~= buf@.subrange(8, 8 + spec_header_len(buf@)));
        }
        match json_parse_prefix(doc) {
            None => Err(()),
            Some((j, _n)) => {
                let ghost jdoc = j;
                match j {
                Json::Obj(mut pairs) => {
                    let ghost orig = pairs@;
                    proof {
                        assert(header_doc(buf@) == Some((jdoc, _n as int)));
                        assert(match jdoc {
                            Json::Obj(pp) => pp@ == orig,
                            _ => false,
                        });
                    }
                    let ghost mut k: int = 0;
                    let mut entries: Vec<(String, SafetensorEntry)> = Vec::new();
                    let mut meta: Option<Json> = None;
                    proof {
                        assert(orig.skip(0) =~= orig);
                        assert(orig.take(0) =~= Seq::<(String, Json)>::empty());
                    }
                    while pairs.len() > 0
                        invariant
                            obj_keys_sorted(orig),
                            0 <= k <= orig.len(),
                            pairs@ == orig.skip(k),
                            pairs@.len() == orig.len() - k,
                            entries@.len() == kept_pairs(orig.take(k)).len(),
                            forall|i: int|
                                0 <= i < entries@.len() ==> {
                                    &&& (#[trigger] entries@[i]).0@ == kept_pairs(
                                        orig.take(k),
                                    )[i].0@
                                    &&& entry_a_of_json(kept_pairs(orig.take(k))[i].1)
                                        == Some(entry_a_model(entries@[i].1))
                                },
                            forall|i: int|
                                0 <= i < k && (#[trigger] orig[i]).0@ == meta_key()
                                    ==> meta == Some(orig[i].1),
                            (forall|i: int|
                                0 <= i < k ==> (#[trigger] orig[i]).0@ != meta_key())
                                ==> meta is None,
                        decreases pairs@.len(),
                    {
                        proof {
                            assert(orig.skip(k)[0] == orig[k]);
                            assert(orig.take(k + 1) =~= orig.take(k) + seq![orig[k]]);
                            lemma_kept_append(orig.take(k), seq![orig[k]]);
                            assert(seq![orig[k]][0] == orig[k]);
                            assert(seq![orig[k]].drop_first() =~= Seq::<(String, Json)>::empty());
                            assert(kept_pairs(Seq::<(String, Json)>::empty()) =~= Seq::<
                                (String, Json),
                            >::empty());
                        }
                        let p = pairs.remove(0);
                        proof {
                            assert(pairs@ =~= orig.skip(k).drop_first());
                            assert(orig.skip(k).drop_first() =~= orig.skip(k + 1));
                        }
                        if str_eq_str(p.0.as_str(), "__metadata__") {
                            proof {
                                assert(p == orig[k]);
                                assert(orig[k].0@ == meta_key());
                                lemma_str_lt_irrefl(meta_key());
                                assert forall|i: int| 0 <= i < k implies (#[trigger] orig[i]).0@
                                    != meta_key() by {
                                    assert(str_lt(orig[i].0@, orig[k].0@));
                                };
                                assert(kept_pairs(seq![orig[k]]) =~= Seq::<(String, Json)>::empty());
                                assert(kept_pairs(orig.take(k + 1)) =~= kept_pairs(orig.take(k)));
                            }
                            meta = Some(p.1);
                        } else {
                            proof {
                                assert(p == orig[k]);
                                assert(orig[k].0@ != meta_key());
                                assert(kept_pairs(seq![orig[k]]) =~= seq![orig[k]]);
                            }
                            match decode_entry_a(&p.1) {
                                Some(e) => {
                                    entries.push((p.0, e));
                                    proof {
                                        assert(kept_pairs(orig.take(k + 1)) =~= kept_pairs(
                                            orig.take(k),
                                        ) + seq![orig[k]]);
                                    }
                                },
                                None => {
                                    proof {
                                        assert(orig =~= orig.take(k) + orig.skip(k));
                                        lemma_kept_append(orig.take(k), orig.skip(k));
                                        assert(kept_pairs(orig.skip(k))[0] == orig[k]);
                                        let w = kept_pairs(orig.take(k)).len() as int;
                                        assert(kept_pairs(orig)[w] == orig[k]);
                                        assert(entry_a_of_json(kept_pairs(orig)[w].1) is None);
                                    }
                                    return Err(());
                                },
                            }
                        }
                        proof {
                            k = k + 1;
                        }
                    }
                    proof {
                        assert(orig.skip(k).len() == 0);
                        assert(k == orig.len());
                        assert(orig.take(k) =~= orig);
                        lemma_kept_sorted(orig);
                    }
                    Ok(
                        SafetensorHeader {
                            buf_start: 8 + hlen64,
                            entries,
                            raw_metadata: meta,
                        },
                    )
                },
                _ => Err(()),
                }
            },
        }
    }
}

/// The data region of a well-formed header starts right after the length
/// prefix and the declared document: eight bytes plus the declared length,
/// never past the end of the file.
pub proof fn lemma_header_buf_start(s: Seq<u8>, h: SafetensorHeader)
    requires
        header_parse_ok(s, h),
    ensures
        h.buf_start == 8 + spec_header_len(s),
        8 <= h.buf_start <= s.len(),
{
}

/// The reserved key never names an entry: a parsed header's entry list
/// excludes it, whatever the document held.
pub proof fn lemma_reserved_key_excluded(s: Seq<u8>, h: SafetensorHeader)
    requires
        header_parse_ok(s, h),
    ensures
        forall|i: int| 0 <= i < h.entries@.len() ==> (#[trigger] h.entries@[i]).0@ != meta_key(),
{
    match header_doc(s) {
        Some((j, n)) => match j {
            Json::Obj(pairs) => {
                lemma_kept_no_meta(pairs@);
            },
            _ => (),
        },
        None => (),
    }
}

} // verus!
