use serde_pickle::{HashableValue, Value};
use std::collections::BTreeMap;
use std::io::Write;
use unrpyc_rs::ast::{extract_statements, parse_statement, RenpyStatement};
use unrpyc_rs::pickle::PickleValue;
use unrpyc_rs::reader::{decode_script, decompress_data, parse_v2_container, read_rpyc_bytes, starts_with, ReaderError};

fn slot(id: u32, start: u32, len: u32) -> Vec<u8> {
    let mut v = Vec::new();
    v.extend_from_slice(&id.to_le_bytes());
    v.extend_from_slice(&start.to_le_bytes());
    v.extend_from_slice(&len.to_le_bytes());
    v
}

fn container(slots: &[(u32, u32, u32)], tail: &[u8]) -> Vec<u8> {
    let mut v = b"RENPY RPC2".to_vec();
    for (a, b, c) in slots {
        v.extend(slot(*a, *b, *c));
    }
    v.extend_from_slice(tail);
    v
}

#[test]
fn slot_one_is_found_after_other_slots() {
    // header 10 + 3 slots of 12 = 46; payload at 46.
    let data = container(&[(2, 0, 0), (1, 46, 3), (0, 0, 0)], b"abcdef");
    assert_eq!(parse_v2_container(&data).unwrap(), b"abc".to_vec());
}

#[test]
fn slot_zero_ends_the_records() {
    let data = container(&[(0, 0, 0), (1, 0, 1)], b"x");
    assert_eq!(parse_v2_container(&data).unwrap_err(), ReaderError::SlotNotFound);
}

#[test]
fn records_that_run_out_give_no_slot() {
    let data = container(&[(3, 0, 0)], b"short");
    assert_eq!(parse_v2_container(&data).unwrap_err(), ReaderError::SlotNotFound);
    assert_eq!(parse_v2_container(b"RENPY").unwrap_err(), ReaderError::SlotNotFound);
}

#[test]
fn slot_past_the_end_is_refused() {
    let data = container(&[(1, 20, 100)], b"");
    assert_eq!(parse_v2_container(&data).unwrap_err(), ReaderError::SlotOutOfBounds);
    assert_eq!(ReaderError::SlotOutOfBounds.message(), "Invalid slot definition: data out of bounds");
    let big = container(&[(1, u32::MAX, u32::MAX)], b"");
    assert_eq!(parse_v2_container(&big).unwrap_err(), ReaderError::SlotOutOfBounds);
}

#[test]
fn slot_ending_at_the_end_is_read() {
    let data = container(&[(1, 22, 4)], b"wxyz");
    assert_eq!(parse_v2_container(&data).unwrap(), b"wxyz".to_vec());
    let empty = container(&[(1, 22, 0)], b"");
    assert_eq!(parse_v2_container(&empty).unwrap(), Vec::<u8>::new());
}

#[test]
fn file_without_header_is_the_payload() {
    let data = b"RENPY RPC1 and more".to_vec();
    assert_eq!(read_rpyc_bytes(data.clone()).unwrap(), data);
    let v2 = container(&[(1, 22, 2)], b"ok");
    assert_eq!(read_rpyc_bytes(v2).unwrap(), b"ok".to_vec());
}

#[test]
fn prefix_test() {
    assert!(starts_with(b"abc", b"ab"));
    assert!(starts_with(b"abc", b""));
    assert!(!starts_with(b"ab", b"abc"));
    assert!(!starts_with(b"abc", b"ac"));
}

#[test]
fn zlib_stream_is_decompressed() {
    let mut enc = flate2::write::ZlibEncoder::new(Vec::new(), flate2::Compression::default());
    enc.write_all(b"hello hello hello").unwrap();
    let mut z = enc.finish().unwrap();
    assert_ne!(z, b"hello hello hello".to_vec());
    assert_eq!(decompress_data(&z).unwrap(), b"hello hello hello".to_vec());
    // Bytes after the stream are not read.
    z.extend_from_slice(b"trailing");
    assert_eq!(decompress_data(&z).unwrap(), b"hello hello hello".to_vec());
}

#[test]
fn corrupt_zlib_is_an_error() {
    assert_eq!(decompress_data(b"not zlib at all").unwrap_err(), ReaderError::Decompress);
    assert_eq!(ReaderError::Decompress.message(), "Failed to decompress zlib data");
}

fn zlib(data: &[u8]) -> Vec<u8> {
    let mut enc = flate2::write::ZlibEncoder::new(Vec::new(), flate2::Compression::default());
    enc.write_all(data).unwrap();
    enc.finish().unwrap()
}

#[test]
fn script_tree_is_decoded_and_parsed() {
    let mut attrs = BTreeMap::new();
    attrs.insert(HashableValue::String("what".to_string()), Value::String("Hello.".to_string()));
    attrs.insert(HashableValue::String("who".to_string()), Value::F64(1.5));
    let node = Value::List(vec![Value::String("Say".to_string()), Value::Dict(attrs)]);
    let top = Value::Tuple(vec![Value::Dict(BTreeMap::new()), Value::List(vec![node])]);
    let bytes = serde_pickle::value_to_vec(&top, serde_pickle::SerOptions::new()).unwrap();
    let tree = decode_script(&zlib(&bytes)).unwrap();
    let stmts = extract_statements(&tree).unwrap();
    assert_eq!(stmts.len(), 1);
    match parse_statement(&stmts[0]).unwrap() {
        RenpyStatement::Say(s) => assert_eq!(s.what, "Hello."),
        other => panic!("{:?}", other),
    }
    match &stmts[0] {
        PickleValue::List(items) => match &items[1] {
            PickleValue::Dict(d) => assert!(d.iter().any(|(_, v)| matches!(v, PickleValue::Float(b) if *b == 1.5f64.to_bits()))),
            other => panic!("{:?}", other),
        },
        other => panic!("{:?}", other),
    }
}

#[test]
fn script_that_is_not_a_pickle_errors() {
    assert_eq!(decode_script(&zlib(b"\xff junk")).unwrap_err(), ReaderError::Unpickle);
    assert_eq!(decode_script(b"junk").unwrap_err(), ReaderError::Decompress);
    assert_eq!(ReaderError::Unpickle.message(), "Failed to unpickle data");
}
