//! Read-only parsers for two on-disk tensor-container layouts: a
//! header-first format whose length-prefixed JSON document names each
//! entry, and a trailer-last format whose JSON-Lines region before a
//! magic-tagged footer lists entries in file order.

use vstd::prelude::*;

pub mod json;
pub mod safetensor;

use crate::json::{
    json_parse_prefix, json_as_u64, decode_shape, obj_get, obj_lookup, spec_json_u64,
    spec_shape, str_eq_str, Json, json_step,
};

verus! {

/// The eight magic bytes `10SRSAFE` that close every trailer-format file.
pub open spec fn magic_seq() -> Seq<u8> {
    seq![49u8, 48u8, 83u8, 82u8, 83u8, 65u8, 70u8, 69u8]
}

/// Layout tag of one trailer entry; only the dense n-dimensional layout is
/// known today, but the tag set is open for extension.
#[derive(Clone, Copy, Debug, PartialEq, Eq, Structural)]
#[non_exhaustive]
pub enum TensorsafeFormat {
    Nd,
}

/// Scalar element type of a trailer entry, tagged in JSON by its lowercase
/// name.
#[derive(Clone, Copy, Debug, PartialEq, Eq, Structural)]
#[non_exhaustive]
pub enum TensorsafeDtype {
    F32,
    F64,
    I8,
    I16,
    I32,
    I64,
    U8,
    U16,
    U32,
    U64,
    Bool,
    F16,
    Bf16,
}

/// One trailer entry: an absolute byte range `[start, end)` into the file,
/// a layout tag, a shape and an element type. Whether the range matches
/// shape times element width is deliberately not checked.
#[derive(Clone, Debug)]
pub struct TensorsafeEntry {
    pub start: u64,
    pub end: u64,
    pub fmt: TensorsafeFormat,
    pub shape: Vec<i64>,
    pub dtype: TensorsafeDtype,
}

/// The parsed trailer: entries in file order.
#[derive(Clone, Debug)]
pub struct TensorsafeTrailer {
    pub entries: Vec<TensorsafeEntry>,
}

/// Ghost image of one trailer entry, for contracts.
pub ghost struct EntryBModel {
    pub start: u64,
    pub end: u64,
    pub fmt: TensorsafeFormat,
    pub shape: Seq<i64>,
    pub dtype: TensorsafeDtype,
}

pub open spec fn entry_b_model(e: TensorsafeEntry) -> EntryBModel {
    EntryBModel { start: e.start, end: e.end, fmt: e.fmt, shape: e.shape@, dtype: e.dtype }
}

pub open spec fn spec_fmt_b(s: Seq<char>) -> Option<TensorsafeFormat> {
    if s == "nd"@ {
        Some(TensorsafeFormat::Nd)
    } else {
        None
    }
}

pub open spec fn spec_dtype_b(s: Seq<char>) -> Option<TensorsafeDtype> {
    if s == "f32"@ {
        Some(TensorsafeDtype::F32)
    } else if s == "f64"@ {
        Some(TensorsafeDtype::F64)
    } else if s == "i8"@ {
        Some(TensorsafeDtype::I8)
    } else if s == "i16"@ {
        Some(TensorsafeDtype::I16)
    } else if s == "i32"@ {
        Some(TensorsafeDtype::I32)
    } else if s == "i64"@ {
        Some(TensorsafeDtype::I64)
    } else if s == "u8"@ {
        Some(TensorsafeDtype::U8)
    } else if s == "u16"@ {
        Some(TensorsafeDtype::U16)
    } else if s == "u32"@ {
        Some(TensorsafeDtype::U32)
    } else if s == "u64"@ {
        Some(TensorsafeDtype::U64)
    } else if s == "bool"@ {
        Some(TensorsafeDtype::Bool)
    } else if s == "f16"@ {
        Some(TensorsafeDtype::F16)
    } else if s == "bf16"@ {
        Some(TensorsafeDtype::Bf16)
    } else {
        None
    }
}

/// The trailer-entry schema on one decoded JSON line: an object holding
/// `start` and `end` as unsigned 64-bit numbers, `fmt` as a known layout
/// tag, `shape` as an array of signed 64-bit numbers and `dtype` as a
/// known element-type tag; other members are ignored.
pub open spec fn entry_b_of_json(j: Json) -> Option<EntryBModel> {
    match j {
        Json::Obj(pairs) => match (
            obj_get(pairs@, "start"@),
            obj_get(pairs@, "end"@),
            obj_get(pairs@, "fmt"@),
            obj_get(pairs@, "shape"@),
            obj_get(pairs@, "dtype"@),
        ) {
            (Some(jst), Some(jen), Some(jfm), Some(jsh), Some(jdt)) => match (jfm, jsh, jdt) {
                (Json::Text(fs), Json::Arr(items), Json::Text(ds)) => match (
                    spec_json_u64(jst),
                    spec_json_u64(jen),
                    spec_fmt_b(fs@),
                    spec_shape(items@),
                    spec_dtype_b(ds@),
                ) {
                    (Some(st), Some(en), Some(f), Some(sh), Some(d)) => Some(
                        EntryBModel { start: st, end: en, fmt: f, shape: sh, dtype: d },
                    ),
                    _ => None,
                },
                _ => None,
            },
            _ => None,
        },
        _ => None,
    }
}

fn decode_fmt_b(s: &str) -> (r: Option<TensorsafeFormat>)
    ensures
        r == spec_fmt_b(s@),
{
    if str_eq_str(s, "nd") {
        Some(TensorsafeFormat::Nd)
    } else {
        None
    }
}

fn decode_dtype_b(s: &str) -> (r: Option<TensorsafeDtype>)
    ensures
        r == spec_dtype_b(s@),
{
    if str_eq_str(s, "f32") {
        Some(TensorsafeDtype::F32)
    } else if str_eq_str(s, "f64") {
        Some(TensorsafeDtype::F64)
    } else if str_eq_str(s, "i8") {
        Some(TensorsafeDtype::I8)
    } else if str_eq_str(s, "i16") {
        Some(TensorsafeDtype::I16)
    } else if str_eq_str(s, "i32") {
        Some(TensorsafeDtype::I32)
    } else if str_eq_str(s, "i64") {
        Some(TensorsafeDtype::I64)
    } else if str_eq_str(s, "u8") {
        Some(TensorsafeDtype::U8)
    } else if str_eq_str(s, "u16") {
        Some(TensorsafeDtype::U16)
    } else if str_eq_str(s, "u32") {
        Some(TensorsafeDtype::U32)
    } else if str_eq_str(s, "u64") {
        Some(TensorsafeDtype::U64)
    } else if str_eq_str(s, "bool") {
        Some(TensorsafeDtype::Bool)
    } else if str_eq_str(s, "f16") {
        Some(TensorsafeDtype::F16)
    } else if str_eq_str(s, "bf16") {
        Some(TensorsafeDtype::Bf16)
    } else {
        None
    }
}

/// Decode one well-framed line against the trailer-entry schema.
fn decode_entry_b(j: &Json) -> (r: Option<TensorsafeEntry>)
    ensures
        match r {
            Some(e) => entry_b_of_json(*j) == Some(entry_b_model(e)),
            None => entry_b_of_json(*j) is None,
        },
{
    match j {
        Json::Obj(pairs) => {
            let jst = obj_lookup(pairs, "start");
            let jen = obj_lookup(pairs, "end");
            let jfm = obj_lookup(pairs, "fmt");
            let jsh = obj_lookup(pairs, "shape");
            let jdt = obj_lookup(pairs, "dtype");
            match (jst, jen, jfm, jsh, jdt) {
                (Some(jst), Some(jen), Some(jfm), Some(jsh), Some(jdt)) => match (
                    jfm,
                    jsh,
                    jdt,
                ) {
                    (Json::Text(fs), Json::Arr(items), Json::Text(ds)) => {
                        let st = json_as_u64(jst);
                        let en = json_as_u64(jen);
                        let f = decode_fmt_b(fs.as_str());
                        let sh = decode_shape(items);
                        let d = decode_dtype_b(ds.as_str());
                        match (st, en, f, sh, d) {
                            (Some(st), Some(en), Some(f), Some(sh), Some(d)) => Some(
                                TensorsafeEntry {
                                    start: st,
                                    end: en,
                                    fmt: f,
                                    shape: sh,
                                    dtype: d,
                                },
                            ),
                            _ => None,
                        }
                    },
                    _ => None,
                },
                _ => None,
            }
        },
        _ => None,
    }
}

/// Byte count of a line terminator at `pos`: one for `\n`, two for `\r\n`,
/// nothing for any other byte, a lone `\r`, or the end of the region.
pub open spec fn term_at(s: Seq<u8>, pos: int) -> Option<int> {
    if 0 <= pos < s.len() && s[pos] == 10u8 {
        Some(1)
    } else if 0 <= pos && pos + 1 < s.len() && s[pos] == 13u8 && s[pos + 1] == 10u8 {
        Some(2)
    } else {
        None
    }
}

/// The permissive JSON-Lines scan of a region, from `pos` on: each step
/// decodes one JSON value and then expects a line terminator; the first
/// failed decode or missing terminator ends the scan with the values read
/// so far. A decoded value always counts, terminator or not.
pub open spec fn jsonl_scan(s: Seq<u8>, pos: int) -> Seq<Json>
    decreases s.len() - pos,
{
    if pos < 0 || pos > s.len() {
        Seq::empty()
    } else {
        match json_step(s.subrange(pos, s.len() as int)) {
            None => Seq::empty(),
            Some((j, n)) => {
                if 1 <= n && pos + n <= s.len() {
                    match term_at(s, pos + n) {
                        None => seq![j],
                        Some(t) => seq![j] + jsonl_scan(s, pos + n + t),
                    }
                } else {
                    seq![j]
                }
            },
        }
    }
}

/// Read the JSON-Lines region left to right, stopping at the first framing
/// failure and keeping everything framed before it.
fn jsonl_values(region: &[u8]) -> (r: Vec<Json>)
    ensures
        r@ == jsonl_scan(region@, 0),
{
    let len = region.len();
    let mut vals: Vec<Json> = Vec::new();
    let mut pos: usize = 0;
    loop
        invariant
            pos <= len,
            region@.len() == len,
            jsonl_scan(region@, 0) == vals@ + jsonl_scan(region@, pos as int),
        decreases len - pos,
    {
        let rest = vstd::slice::slice_subrange(region, pos, len);
        match json_parse_prefix(rest) {
            None => {
                proof {
                    assert(vals@ + Seq::<Json>::empty() =~= vals@);
                }
                return vals;
            },
            Some((j, n)) => {
                let ghost pre = vals@;
                let vpos = pos + n;
                vals.push(j);
                proof {
                    assert(vals@ =~= pre + seq![j]);
                }
                let mut advance: usize = 0;
                if vpos < len {
                    let b = *vstd::slice::slice_index_get(region, vpos);
                    if b == 10u8 {
                        advance = 1;
                    } else if b == 13u8 && vpos + 1 < len {
                        let b2 = *vstd::slice::slice_index_get(region, vpos + 1);
                        if b2 == 10u8 {
                            advance = 2;
                        }
                    }
                }
                if advance == 0 {
                    proof {
                        assert(term_at(region@, vpos as int) is None);
                        assert(jsonl_scan(region@, pos as int) =~= seq![j]);
                    }
                    return vals;
                }
                proof {
                    assert(term_at(region@, vpos as int) == Some(advance as int));
                    assert(jsonl_scan(region@, pos as int) =~= seq![j] + jsonl_scan(
                        region@,
                        vpos + advance,
                    ));
                    assert(pre + (seq![j] + jsonl_scan(region@, vpos + advance)) =~= (pre
                        + seq![j]) + jsonl_scan(region@, vpos + advance));
                }
                pos = vpos + advance;
            },
        }
    }
}

/// The trailer length: the unsigned 32-bit little-endian number in the
/// four bytes before the magic.
pub open spec fn spec_trailer_len(s: Seq<u8>) -> int {
    vstd::bytes::spec_u32_from_le_bytes(s.subrange(s.len() - 12, s.len() - 8)) as int
}

/// The structural gate every trailer-format file passes: a positive
/// multiple of sixteen bytes, the magic at the end, and a trailer length
/// that stays inside the file.
pub open spec fn structural_ok(s: Seq<u8>) -> bool {
    &&& s.len() % 16 == 0
    &&& s.len() >= 16
    &&& s.subrange(s.len() - 8, s.len() as int) == magic_seq()
    &&& 16 <= spec_trailer_len(s) <= s.len()
}

/// The JSON-Lines region `[len - T, len - 16)`.
pub open spec fn region_of(s: Seq<u8>) -> Seq<u8> {
    s.subrange(s.len() - spec_trailer_len(s), s.len() - 16)
}

/// The well-framed lines of the file's JSON-Lines region.
pub open spec fn scanned_lines(s: Seq<u8>) -> Seq<Json> {
    jsonl_scan(region_of(s), 0)
}

/// Every well-framed line meets the entry schema.
pub open spec fn lines_ok(lines: Seq<Json>) -> bool {
    forall|i: int| 0 <= i < lines.len() ==> entry_b_of_json(#[trigger] lines[i]) is Some
}

/// The trailer holds exactly the schema readings of the lines, in order.
pub open spec fn trailer_matches(t: TensorsafeTrailer, lines: Seq<Json>) -> bool {
    &&& t.entries@.len() == lines.len()
    &&& forall|i: int|
        0 <= i < lines.len() ==> entry_b_of_json(lines[i]) == Some(
            entry_b_model(#[trigger] t.entries@[i]),
        )
}

/// What a successful trailer parse of the bytes `s` means.
pub open spec fn trailer_parse_ok(s: Seq<u8>, t: TensorsafeTrailer) -> bool {
    &&& structural_ok(s)
    &&& lines_ok(scanned_lines(s))
    &&& trailer_matches(t, scanned_lines(s))
}

/// Check the last eight bytes against the magic.
fn is_magic(m: &[u8]) -> (r: bool)
    requires
        m@.len() == 8,
    ensures
        r == (m@ == magic_seq()),
{
    let r = *vstd::slice::slice_index_get(m, 0) == 49u8 && *vstd::slice::slice_index_get(m, 1)
        == 48u8 && *vstd::slice::slice_index_get(m, 2) == 83u8 && *vstd::slice::slice_index_get(
        m,
        3,
    ) == 82u8 && *vstd::slice::slice_index_get(m, 4) == 83u8 && *vstd::slice::slice_index_get(
        m,
        5,
    ) == 65u8 && *vstd::slice::slice_index_get(m, 6) == 70u8 && *vstd::slice::slice_index_get(
        m,
        7,
    ) == 69u8;
    proof {
        if r {
            assert(m@ =~= magic_seq());
        } else {
            assert(m@ != magic_seq());
        }
    }
    r
}

impl TensorsafeTrailer {
    /// Parse a whole trailer-format file held in memory. Structural faults
    /// and a schema fault on a well-framed line are hard errors; a framing
    /// fault inside the JSON-Lines region only ends the scan early.
    pub fn from_bytes(buf: &[u8]) -> (r: Result<TensorsafeTrailer, ()>)
        ensures
            match r {
                Ok(t) => trailer_parse_ok(buf@, t),
                Err(e) => !structural_ok(buf@) || !lines_ok(scanned_lines(buf@)),
            },
    {
        let len = buf.len();
        if len % 16 != 0 {
            return Err(());
        }
        if len < 16 {
            return Err(());
        }
        let m = vstd::slice::slice_subrange(buf, len - 8, len);
        if !is_magic(m) {
            return Err(());
        }
        let tbytes = vstd::slice::slice_subrange(buf, len - 12, len - 8);
        let toff = vstd::bytes::u32_from_le_bytes(tbytes);
        if toff < 16 {
            return Err(());
        }
        let t = toff as usize;
        if t > len {
            return Err(());
        }
        proof {
            assert(structural_ok(buf@));
        }
        let region = vstd::slice::slice_subrange(buf, len - t, len - 16);
        proof {
            assert(region@ =~= region_of(buf@));
        }
        let raw = jsonl_values(region);
        let mut entries: Vec<TensorsafeEntry> = Vec::new();
        let mut i: usize = 0;
        while i < raw.len()
            invariant
                i <= raw@.len(),
                entries@.len() == i,
                raw@ == scanned_lines(buf@),
                forall|k: int|
                    0 <= k < i ==> entry_b_of_json(raw@[k]) == Some(
                        entry_b_model(#[trigger] entries@[k]),
                    ),
            decreases raw@.len() - i,
        {
            match decode_entry_b(&raw[i]) {
                Some(e) => {
                    entries.push(e);
                },
                None => {
                    return Err(());
                },
            }
            i += 1;
        }
        proof {
            let lines = scanned_lines(buf@);
            assert forall|k: int| 0 <= k < lines.len() implies entry_b_of_json(
                #[trigger] lines[k],
            ) is Some by {
                assert(entry_b_of_json(raw@[k]) == Some(entry_b_model(entries@[k])));
            };
        }
        Ok(TensorsafeTrailer { entries })
    }
}

/// A structurally valid trailer file is a positive multiple of sixteen
/// bytes, ends in the magic, keeps its trailer length between sixteen and
/// the file size, and yields one entry per well-framed line.
pub proof fn lemma_trailer_structure(s: Seq<u8>, t: TensorsafeTrailer)
    requires
        trailer_parse_ok(s, t),
    ensures
        s.len() % 16 == 0,
        s.len() >= 16,
        s.subrange(s.len() - 8, s.len() as int) == magic_seq(),
        16 <= spec_trailer_len(s) <= s.len(),
        t.entries@.len() == scanned_lines(s).len(),
{
}

/// The two spellings of a line break are interchangeable: a region whose
/// first value is closed by a bare newline and one whose same first value
/// is closed by a carriage-return-newline pair scan to the same values,
/// whenever the rest of the two regions scans alike.
pub proof fn lemma_terminator_equivalence(a: Seq<u8>, b: Seq<u8>, j: Json, na: int, nb: int)
    requires
        json_step(a) == Some((j, na)),
        json_step(b) == Some((j, nb)),
        1 <= na < a.len(),
        a[na] == 10u8,
        1 <= nb,
        nb + 1 < b.len(),
        b[nb] == 13u8,
        b[nb + 1] == 10u8,
        jsonl_scan(a, na + 1) == jsonl_scan(b, nb + 2),
    ensures
        jsonl_scan(a, 0) == jsonl_scan(b, 0),
{
    assert(a.subrange(0, a.len() as int) =~= a);
    assert(b.subrange(0, b.len() as int) =~= b);
    assert(term_at(a, na) == Some(1int));
    assert(term_at(b, nb) == Some(2int));
}

/// A carriage return not followed by a newline ends the scan at that
/// point: the value just framed is kept and nothing further is read.
pub proof fn lemma_stray_cr_halts(s: Seq<u8>, pos: int, j: Json, n: int)
    requires
        0 <= pos <= s.len(),
        json_step(s.subrange(pos, s.len() as int)) == Some((j, n)),
        1 <= n,
        pos + n < s.len(),
        s[pos + n] == 13u8,
        pos + n + 1 < s.len() ==> s[pos + n + 1] != 10u8,
    ensures
        jsonl_scan(s, pos) == seq![j],
{
    assert(term_at(s, pos + n) is None);
}

} // verus!

