use tensorsafe::json::Json;
use tensorsafe::safetensor::{SafetensorDtype, SafetensorHeader};

/// Build a header-format file: the little-endian length of the document,
/// the document bytes, then `data_len` data bytes.
fn header_file(doc: &str, data_len: usize) -> Vec<u8> {
    let mut f = Vec::new();
    f.extend_from_slice(&(doc.len() as u64).to_le_bytes());
    f.extend_from_slice(doc.as_bytes());
    f.extend_from_slice(&vec![0u8; data_len]);
    f
}

#[test]
fn weight_entry_with_metadata() {
    let doc = r#"{"weight":{"shape":[2,3],"dtype":"f32","data_offsets":[0,24]},"__metadata__":{"note":"x"}}"#;
    let f = header_file(doc, 24);
    let h = SafetensorHeader::from_bytes(&f).unwrap();
    assert_eq!(h.buf_start, 8 + doc.len() as u64);
    assert_eq!(h.entries.len(), 1);
    assert_eq!(h.entries[0].0, "weight");
    let e = &h.entries[0].1;
    assert_eq!(e.shape, vec![2, 3]);
    assert_eq!(e.dtype, SafetensorDtype::F32);
    assert_eq!(e.data_offsets, [0, 24]);
    assert!(e.data_offsets[1] <= f.len() as u64 - h.buf_start);
    match &h.raw_metadata {
        Some(Json::Obj(pairs)) => {
            assert_eq!(pairs.len(), 1);
            assert_eq!(pairs[0].0, "note");
            match &pairs[0].1 {
                Json::Text(s) => assert_eq!(s, "x"),
                _ => panic!("metadata note is not text"),
            }
        }
        _ => panic!("metadata missing or not an object"),
    }
}

#[test]
fn absent_reserved_key_gives_no_metadata() {
    let doc = r#"{"weight":{"shape":[4],"dtype":"u8","data_offsets":[0,4]}}"#;
    let h = SafetensorHeader::from_bytes(&header_file(doc, 4)).unwrap();
    assert!(h.raw_metadata.is_none());
    assert_eq!(h.entries.len(), 1);
}

#[test]
fn reserved_key_never_names_an_entry() {
    let doc = r#"{"__metadata__":{"a":1},"b":{"shape":[],"dtype":"u8","data_offsets":[0,1]}}"#;
    let h = SafetensorHeader::from_bytes(&header_file(doc, 1)).unwrap();
    assert_eq!(h.entries.len(), 1);
    assert_eq!(h.entries[0].0, "b");
    assert!(h.raw_metadata.is_some());
}

#[test]
fn metadata_only_document() {
    let doc = r#"{"__metadata__":[1,2,3]}"#;
    let h = SafetensorHeader::from_bytes(&header_file(doc, 0)).unwrap();
    assert_eq!(h.entries.len(), 0);
    match &h.raw_metadata {
        Some(Json::Arr(items)) => assert_eq!(items.len(), 3),
        _ => panic!("metadata missing or not an array"),
    }
}

#[test]
fn entries_come_out_in_name_order() {
    let doc = r#"{"b":{"shape":[1],"dtype":"u8","data_offsets":[0,1]},"a":{"shape":[1],"dtype":"u8","data_offsets":[1,2]}}"#;
    let h = SafetensorHeader::from_bytes(&header_file(doc, 2)).unwrap();
    assert_eq!(h.entries.len(), 2);
    assert_eq!(h.entries[0].0, "a");
    assert_eq!(h.entries[1].0, "b");
    assert_eq!(h.entries[0].1.data_offsets, [1, 2]);
}

#[test]
fn trailing_padding_in_declared_region_ignored() {
    let doc = r#"{"w":{"shape":[1],"dtype":"i8","data_offsets":[0,1]}}    "#;
    let h = SafetensorHeader::from_bytes(&header_file(doc, 1)).unwrap();
    assert_eq!(h.entries.len(), 1);
    let doc2 = r#"{"w":{"shape":[1],"dtype":"i8","data_offsets":[0,1]}}xyz"#;
    let h2 = SafetensorHeader::from_bytes(&header_file(doc2, 1)).unwrap();
    assert_eq!(h2.entries.len(), 1);
}

#[test]
fn short_prefix_rejected() {
    assert!(SafetensorHeader::from_bytes(&[]).is_err());
    assert!(SafetensorHeader::from_bytes(&[1, 0, 0]).is_err());
}

#[test]
fn overrunning_declared_length_rejected() {
    let mut f = Vec::new();
    f.extend_from_slice(&100u64.to_le_bytes());
    f.extend_from_slice(b"{}");
    assert!(SafetensorHeader::from_bytes(&f).is_err());
}

#[test]
fn huge_declared_length_rejected() {
    let mut f = Vec::new();
    f.extend_from_slice(&u64::MAX.to_le_bytes());
    f.extend_from_slice(b"{}");
    assert!(SafetensorHeader::from_bytes(&f).is_err());
}

#[test]
fn empty_document_region_rejected() {
    let f = 0u64.to_le_bytes().to_vec();
    assert!(SafetensorHeader::from_bytes(&f).is_err());
}

#[test]
fn unparsable_document_rejected() {
    assert!(SafetensorHeader::from_bytes(&header_file("{\"a\":", 0)).is_err());
}

#[test]
fn non_object_document_rejected() {
    assert!(SafetensorHeader::from_bytes(&header_file("[1,2]", 0)).is_err());
    assert!(SafetensorHeader::from_bytes(&header_file("17", 0)).is_err());
}

#[test]
fn entry_missing_a_field_rejected() {
    let doc = r#"{"w":{"shape":[1],"dtype":"i8"}}"#;
    assert!(SafetensorHeader::from_bytes(&header_file(doc, 0)).is_err());
}

#[test]
fn unknown_dtype_tag_rejects_whole_header() {
    let doc = r#"{"w":{"shape":[1],"dtype":"q7","data_offsets":[0,1]}}"#;
    assert!(SafetensorHeader::from_bytes(&header_file(doc, 1)).is_err());
}

#[test]
fn uppercase_tags_only_for_bool_and_bf16() {
    let ok = r#"{"w":{"shape":[1],"dtype":"BOOL","data_offsets":[0,1]},"v":{"shape":[1],"dtype":"BF16","data_offsets":[1,3]}}"#;
    let h = SafetensorHeader::from_bytes(&header_file(ok, 3)).unwrap();
    assert_eq!(h.entries[0].0, "v");
    assert_eq!(h.entries[0].1.dtype, SafetensorDtype::Bf16);
    assert_eq!(h.entries[1].0, "w");
    assert_eq!(h.entries[1].1.dtype, SafetensorDtype::Bool);
}

#[test]
fn uppercase_f32_rejected_in_header_format() {
    let doc = r#"{"w":{"shape":[1],"dtype":"F32","data_offsets":[0,4]}}"#;
    assert!(SafetensorHeader::from_bytes(&header_file(doc, 4)).is_err());
}

#[test]
fn lowercase_bool_rejected_in_header_format() {
    let doc = r#"{"w":{"shape":[1],"dtype":"bool","data_offsets":[0,1]}}"#;
    assert!(SafetensorHeader::from_bytes(&header_file(doc, 1)).is_err());
}

#[test]
fn data_offsets_must_be_a_pair() {
    let doc = r#"{"w":{"shape":[1],"dtype":"i8","data_offsets":[0,1,2]}}"#;
    assert!(SafetensorHeader::from_bytes(&header_file(doc, 2)).is_err());
    let doc2 = r#"{"w":{"shape":[1],"dtype":"i8","data_offsets":[0]}}"#;
    assert!(SafetensorHeader::from_bytes(&header_file(doc2, 1)).is_err());
}

#[test]
fn negative_data_offset_rejected() {
    let doc = r#"{"w":{"shape":[1],"dtype":"i8","data_offsets":[-1,1]}}"#;
    assert!(SafetensorHeader::from_bytes(&header_file(doc, 1)).is_err());
}

#[test]
fn all_header_dtype_tags_accepted() {
    let tags = [
        ("f64", SafetensorDtype::F64),
        ("f32", SafetensorDtype::F32),
        ("i64", SafetensorDtype::I64),
        ("i32", SafetensorDtype::I32),
        ("i16", SafetensorDtype::I16),
        ("i8", SafetensorDtype::I8),
        ("u64", SafetensorDtype::U64),
        ("u32", SafetensorDtype::U32),
        ("u16", SafetensorDtype::U16),
        ("u8", SafetensorDtype::U8),
        ("BOOL", SafetensorDtype::Bool),
        ("f16", SafetensorDtype::F16),
        ("BF16", SafetensorDtype::Bf16),
    ];
    for (tag, want) in tags {
        let doc = format!(
            "{{\"w\":{{\"shape\":[1],\"dtype\":\"{}\",\"data_offsets\":[0,8]}}}}",
            tag
        );
        let h = SafetensorHeader::from_bytes(&header_file(&doc, 8)).unwrap();
        assert_eq!(h.entries[0].1.dtype, want);
    }
}
