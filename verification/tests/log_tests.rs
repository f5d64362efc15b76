//! End-to-end tests of the log decoding pipeline: container framing, key
//! remapping, value coercion and time-series assembly.
use oxlog::reader::{decode, FormatError};
use oxlog::remap::remap;
use oxlog::series::read_log;
use oxlog::value::{coerce, GenericValue, Payload};

fn le4(x: u32) -> Vec<u8> {
    x.to_le_bytes().to_vec()
}

fn le8(x: u64) -> Vec<u8> {
    x.to_le_bytes().to_vec()
}

/// A container header: signature, version 1.0, empty header metadata.
fn header() -> Vec<u8> {
    let mut v = Vec::new();
    v.extend_from_slice(&[0x57, 0x50, 0x49, 0x4c, 0x4f, 0x47]);
    v.extend_from_slice(&[0x00, 0x01]);
    v.extend_from_slice(&le4(0));
    v
}

/// One record frame with four-byte identifier, four-byte size and
/// eight-byte timestamp fields.
fn frame(entry_id: u32, timestamp: u64, payload: &[u8]) -> Vec<u8> {
    let mut v = Vec::new();
    v.push(0x7f); // id length 4, size length 4, timestamp length 8
    v.extend_from_slice(&le4(entry_id));
    v.extend_from_slice(&le4(payload.len() as u32));
    v.extend_from_slice(&le8(timestamp));
    v.extend_from_slice(payload);
    v
}

/// A start control record declaring an entry.
fn start(target: u32, name: &str, declared_type: &str, timestamp: u64) -> Vec<u8> {
    let mut p = Vec::new();
    p.push(0u8);
    p.extend_from_slice(&le4(target));
    p.extend_from_slice(&le4(name.len() as u32));
    p.extend_from_slice(name.as_bytes());
    p.extend_from_slice(&le4(declared_type.len() as u32));
    p.extend_from_slice(declared_type.as_bytes());
    p.extend_from_slice(&le4(0)); // empty metadata
    frame(0, timestamp, &p)
}

/// A finish control record.
fn finish(target: u32, timestamp: u64) -> Vec<u8> {
    let mut p = Vec::new();
    p.push(1u8);
    p.extend_from_slice(&le4(target));
    frame(0, timestamp, &p)
}

#[test]
fn remap_strips_sentinel() {
    assert_eq!(remap("NT:/foo/bar"), "/foo/bar");
}

#[test]
fn remap_prefixes_namespace() {
    assert_eq!(remap("/foo"), "/AdvantageKit/foo");
}

#[test]
fn remap_always_namespaces_without_sentinel() {
    for raw in ["", "x", "foo/bar", "NT/other", "nt:/lower"] {
        assert!(remap(raw).starts_with("/AdvantageKit"));
        assert_eq!(remap(raw), format!("/AdvantageKit{}", raw));
    }
}

#[test]
fn coerce_struct_is_null() {
    assert_eq!(coerce(Payload::Struct(vec![1, 2, 3])), GenericValue::Null);
    assert_eq!(coerce(Payload::StructArray(vec![9])), GenericValue::Null);
    assert_eq!(coerce(Payload::Void), GenericValue::Null);
}

#[test]
fn coerce_primitives_structurally() {
    assert_eq!(coerce(Payload::Boolean(true)), GenericValue::Bool(true));
    assert_eq!(coerce(Payload::Int64(-7)), GenericValue::Int(-7));
    assert_eq!(
        coerce(Payload::Str("hi".to_string())),
        GenericValue::Text("hi".to_string())
    );
    assert_eq!(
        coerce(Payload::Int64Array(vec![1, 2])),
        GenericValue::IntArray(vec![1, 2])
    );
    assert_eq!(
        coerce(Payload::RawBytes(vec![5, 6])),
        GenericValue::ByteArray(vec![5, 6])
    );
    let bits = 1.5f64.to_bits();
    assert_eq!(coerce(Payload::Double(bits)), GenericValue::F64Bits(bits));
}

#[test]
fn two_boolean_records_under_namespace() {
    let mut log = header();
    log.extend(start(1, "/foo", "boolean", 0));
    log.extend(frame(1, 1, &[1]));
    log.extend(frame(1, 2, &[0]));
    let ts = read_log(&log).expect("log should decode");
    let keys = ts.keys();
    assert_eq!(keys, vec!["/AdvantageKit/foo".to_string()]);
    assert_eq!(ts.get("/AdvantageKit/foo", 1), Some(&GenericValue::Bool(true)));
    assert_eq!(ts.get("/AdvantageKit/foo", 2), Some(&GenericValue::Bool(false)));
    assert_eq!(ts.get("/AdvantageKit/foo", 3), None);
    assert_eq!(ts.series("/AdvantageKit/foo").unwrap().len(), 2);
}

#[test]
fn sentinel_key_int_record() {
    let mut log = header();
    log.extend(start(1, "NT:/x/y", "int64", 0));
    log.extend(frame(1, 5, &42i64.to_le_bytes()));
    let ts = read_log(&log).expect("log should decode");
    assert_eq!(ts.keys(), vec!["/x/y".to_string()]);
    assert_eq!(ts.get("/x/y", 5), Some(&GenericValue::Int(42)));
}

#[test]
fn same_timestamp_later_record_wins() {
    let mut log = header();
    log.extend(start(1, "/k", "int64", 0));
    log.extend(frame(1, 9, &1i64.to_le_bytes()));
    log.extend(frame(1, 9, &2i64.to_le_bytes()));
    let ts = read_log(&log).expect("log should decode");
    assert_eq!(ts.get("/AdvantageKit/k", 9), Some(&GenericValue::Int(2)));
    assert_eq!(ts.series("/AdvantageKit/k").unwrap().len(), 1);
}

#[test]
fn corrupted_signature_fails_whole_decode() {
    let mut log = header();
    log[0] = 0x58;
    log.extend(start(1, "/foo", "boolean", 0));
    log.extend(frame(1, 1, &[1]));
    assert_eq!(read_log(&log).err(), Some(FormatError::BadMagic));
}

#[test]
fn wrong_version_fails() {
    let mut log = header();
    log[7] = 2;
    assert_eq!(read_log(&log).err(), Some(FormatError::BadVersion));
}

#[test]
fn truncated_record_fails() {
    let mut log = header();
    log.extend(start(1, "/foo", "boolean", 0));
    let mut rec = frame(1, 1, &[1]);
    rec.pop();
    log.extend(rec);
    assert_eq!(read_log(&log).err(), Some(FormatError::Truncated));
}

#[test]
fn unknown_control_type_fails() {
    let mut log = header();
    let mut p = vec![3u8];
    p.extend_from_slice(&le4(1));
    log.extend(frame(0, 0, &p));
    assert_eq!(read_log(&log).err(), Some(FormatError::BadControl));
}

#[test]
fn invalid_utf8_name_fails() {
    let mut log = header();
    let mut p = vec![0u8];
    p.extend_from_slice(&le4(1));
    p.extend_from_slice(&le4(2));
    p.extend_from_slice(&[0xff, 0xfe]);
    p.extend_from_slice(&le4(0));
    p.extend_from_slice(&le4(0));
    log.extend(frame(0, 0, &p));
    assert_eq!(read_log(&log).err(), Some(FormatError::BadString));
}

#[test]
fn mis_sized_boolean_payload_fails() {
    let mut log = header();
    log.extend(start(1, "/b", "boolean", 0));
    log.extend(frame(1, 1, &[1, 0]));
    assert_eq!(read_log(&log).err(), Some(FormatError::BadPayload));
}

#[test]
fn struct_typed_records_decode_to_null() {
    let mut log = header();
    log.extend(start(1, "/pose", "struct:Pose2d", 0));
    log.extend(start(2, "/poses", "struct:Pose2d[]", 0));
    log.extend(frame(1, 4, &[1, 2, 3, 4, 5]));
    log.extend(frame(2, 6, &[7, 8]));
    let ts = read_log(&log).expect("struct records must not fail the decode");
    assert_eq!(ts.get("/AdvantageKit/pose", 4), Some(&GenericValue::Null));
    assert_eq!(ts.get("/AdvantageKit/poses", 6), Some(&GenericValue::Null));
}

#[test]
fn unknown_type_reads_as_raw() {
    let mut log = header();
    log.extend(start(1, "/blob", "msgpack", 0));
    log.extend(frame(1, 2, &[1, 2, 3]));
    let ts = read_log(&log).expect("log should decode");
    assert_eq!(
        ts.get("/AdvantageKit/blob", 2),
        Some(&GenericValue::ByteArray(vec![1, 2, 3]))
    );
}

#[test]
fn typed_arrays_and_strings_roundtrip() {
    let mut payload_ints = Vec::new();
    payload_ints.extend_from_slice(&3i64.to_le_bytes());
    payload_ints.extend_from_slice(&(-4i64).to_le_bytes());
    let mut payload_strs = Vec::new();
    payload_strs.extend_from_slice(&le4(2));
    payload_strs.extend_from_slice(b"ab");
    payload_strs.extend_from_slice(&le4(1));
    payload_strs.extend_from_slice(b"c");
    let d = 2.25f64.to_bits();
    let f = 0.5f32.to_bits();
    let mut log = header();
    log.extend(start(1, "/ints", "int64[]", 0));
    log.extend(start(2, "/strs", "string[]", 0));
    log.extend(start(3, "/d", "double", 0));
    log.extend(start(4, "/f", "float", 0));
    log.extend(start(5, "/s", "string", 0));
    log.extend(frame(1, 1, &payload_ints));
    log.extend(frame(2, 1, &payload_strs));
    log.extend(frame(3, 1, &d.to_le_bytes()));
    log.extend(frame(4, 1, &f.to_le_bytes()));
    log.extend(frame(5, 1, "héllo".as_bytes()));
    let ts = read_log(&log).expect("log should decode");
    assert_eq!(
        ts.get("/AdvantageKit/ints", 1),
        Some(&GenericValue::IntArray(vec![3, -4]))
    );
    assert_eq!(
        ts.get("/AdvantageKit/strs", 1),
        Some(&GenericValue::TextArray(vec!["ab".to_string(), "c".to_string()]))
    );
    assert_eq!(ts.get("/AdvantageKit/d", 1), Some(&GenericValue::F64Bits(d)));
    assert_eq!(ts.get("/AdvantageKit/f", 1), Some(&GenericValue::F32Bits(f)));
    assert_eq!(
        ts.get("/AdvantageKit/s", 1),
        Some(&GenericValue::Text("héllo".to_string()))
    );
}

#[test]
fn records_after_finish_are_dropped() {
    let mut log = header();
    log.extend(start(1, "/k", "int64", 0));
    log.extend(frame(1, 1, &10i64.to_le_bytes()));
    log.extend(finish(1, 2));
    log.extend(frame(1, 3, &11i64.to_le_bytes()));
    let ts = read_log(&log).expect("log should decode");
    assert_eq!(ts.get("/AdvantageKit/k", 1), Some(&GenericValue::Int(10)));
    assert_eq!(ts.get("/AdvantageKit/k", 3), None);
}

#[test]
fn non_ascii_key_decodes() {
    let mut log = header();
    log.extend(start(1, "/clé", "boolean", 0));
    log.extend(frame(1, 1, &[1]));
    let ts = read_log(&log).expect("log should decode");
    assert_eq!(ts.get("/AdvantageKit/clé", 1), Some(&GenericValue::Bool(true)));
}

#[test]
fn decode_exposes_table_and_records() {
    let mut log = header();
    log.extend(start(7, "foo", "boolean", 0));
    log.extend(frame(7, 1, &[1]));
    let (table, records) = decode(&log).expect("log should decode");
    assert_eq!(table.len(), 1);
    assert_eq!(table[0].id, 7);
    assert_eq!(table[0].name, "foo");
    assert_eq!(table[0].declared_type, "boolean");
    assert!(table[0].live);
    assert_eq!(records.len(), 1);
    assert_eq!(records[0].entry_id, 7);
    assert_eq!(records[0].timestamp, 1);
}

#[test]
fn header_only_log_is_empty() {
    let ts = read_log(&header()).expect("a bare header decodes");
    assert!(ts.keys().is_empty());
}

#[test]
fn metadata_control_record_changes_nothing() {
    let mut log = header();
    log.extend(start(1, "/m", "int64", 0));
    let mut p = vec![2u8];
    p.extend_from_slice(&le4(1));
    p.extend_from_slice(&le4(2));
    p.extend_from_slice(b"{}");
    log.extend(frame(0, 1, &p));
    log.extend(frame(1, 2, &8i64.to_le_bytes()));
    let ts = read_log(&log).expect("log should decode");
    assert_eq!(ts.get("/AdvantageKit/m", 2), Some(&GenericValue::Int(8)));
}

#[test]
fn metadata_length_mismatch_fails() {
    let mut log = header();
    let mut p = vec![2u8];
    p.extend_from_slice(&le4(1));
    p.extend_from_slice(&le4(5));
    p.extend_from_slice(b"{}");
    log.extend(frame(0, 1, &p));
    assert_eq!(read_log(&log).err(), Some(FormatError::BadControl));
}

#[test]
fn second_start_for_live_entry_is_ignored() {
    let mut log = header();
    log.extend(start(1, "/a", "int64", 0));
    log.extend(start(1, "/b", "boolean", 1));
    log.extend(frame(1, 2, &5i64.to_le_bytes()));
    let ts = read_log(&log).expect("log should decode");
    assert_eq!(ts.get("/AdvantageKit/a", 2), Some(&GenericValue::Int(5)));
    assert_eq!(ts.series("/AdvantageKit/b"), None);
}

#[test]
fn restart_after_finish_redeclares_the_entry() {
    let mut log = header();
    log.extend(start(1, "/a", "int64", 0));
    log.extend(finish(1, 1));
    log.extend(start(1, "/b", "boolean", 2));
    log.extend(frame(1, 3, &[1]));
    let ts = read_log(&log).expect("log should decode");
    assert_eq!(ts.get("/AdvantageKit/b", 3), Some(&GenericValue::Bool(true)));
}

#[test]
fn remaining_array_types_roundtrip() {
    let f1 = 1.0f32.to_bits();
    let f2 = (-2.5f32).to_bits();
    let d1 = 9.75f64.to_bits();
    let mut floats = Vec::new();
    floats.extend_from_slice(&f1.to_le_bytes());
    floats.extend_from_slice(&f2.to_le_bytes());
    let mut log = header();
    log.extend(start(1, "/bools", "boolean[]", 0));
    log.extend(start(2, "/floats", "float[]", 0));
    log.extend(start(3, "/doubles", "double[]", 0));
    log.extend(frame(1, 1, &[1, 0, 2]));
    log.extend(frame(2, 1, &floats));
    log.extend(frame(3, 1, &d1.to_le_bytes()));
    let ts = read_log(&log).expect("log should decode");
    assert_eq!(
        ts.get("/AdvantageKit/bools", 1),
        Some(&GenericValue::BoolArray(vec![true, false, true]))
    );
    assert_eq!(
        ts.get("/AdvantageKit/floats", 1),
        Some(&GenericValue::F32BitsArray(vec![f1, f2]))
    );
    assert_eq!(
        ts.get("/AdvantageKit/doubles", 1),
        Some(&GenericValue::F64BitsArray(vec![d1]))
    );
}

#[test]
fn empty_payloads_make_empty_values() {
    let mut log = header();
    log.extend(start(1, "/raw", "raw", 0));
    log.extend(start(2, "/ints", "int64[]", 0));
    log.extend(frame(1, 1, &[]));
    log.extend(frame(2, 1, &[]));
    let ts = read_log(&log).expect("log should decode");
    assert_eq!(ts.get("/AdvantageKit/raw", 1), Some(&GenericValue::ByteArray(vec![])));
    assert_eq!(ts.get("/AdvantageKit/ints", 1), Some(&GenericValue::IntArray(vec![])));
}

#[test]
fn partial_array_payload_fails() {
    let mut log = header();
    log.extend(start(1, "/ints", "int64[]", 0));
    log.extend(frame(1, 1, &[1, 2, 3]));
    assert_eq!(read_log(&log).err(), Some(FormatError::BadPayload));
}
