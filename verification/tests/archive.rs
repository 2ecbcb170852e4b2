use serde_pickle::{HashableValue, Value};
use std::collections::BTreeMap;
use std::io::Write;
use unrpyc_rs::pickle::PickleValue;
use unrpyc_rs::rpa::{
    assemble_file, parse_hex, parse_v2_header, parse_v3_header, rpa_version, trim_bounds,
    read_index, ArchiveEntry, IndexError, RpaError, RpaIndex, RpaVersion,
};

fn s(x: &str) -> PickleValue {
    PickleValue::Str(x.to_string())
}

#[test]
fn versions_are_told_by_the_header() {
    assert_eq!(rpa_version(b"RPA-3.0 ").unwrap(), RpaVersion::V3);
    assert_eq!(rpa_version(b"RPA-2.0 ").unwrap(), RpaVersion::V2);
    match rpa_version(b"RPA-1.0 ") {
        Err(RpaError::UnsupportedHeader(h)) => assert_eq!(h, b"RPA-1.0 ".to_vec()),
        other => panic!("{:?}", other),
    }
    assert!(rpa_version(b"RPA-3.0").is_err());
}

#[test]
fn hex_reading_follows_from_str_radix() {
    for text in ["0", "00ff", "+1A", "FFFFFFFFFFFFFFFF", "", "+", "-1", "g", "1 ", "10000000000000000", "0000000000000000000001"] {
        assert_eq!(parse_hex(text.as_bytes()), u64::from_str_radix(text, 16).ok(), "{:?}", text);
    }
}

#[test]
fn v3_header_gives_offset_and_key() {
    let rest = b"00000000000012ab 42424242\n      ";
    assert_eq!(rest.len(), 32);
    assert_eq!(parse_v3_header(rest).unwrap(), (0x12ab, 0x42424242));
    assert!(matches!(parse_v3_header(b"0000000000zz12ab 42424242\n      "), Err(RpaError::OffsetParse)));
    assert!(matches!(parse_v3_header(b"00000000000012ab 4242424x\n      "), Err(RpaError::KeyParse)));
    assert_eq!(RpaError::KeyParse.message(), "Failed to parse key");
}

#[test]
fn v2_header_is_trimmed() {
    assert_eq!(parse_v2_header(b"00000000000012ab").unwrap(), 0x12ab);
    assert_eq!(parse_v2_header(b"  12ab\n         ").unwrap(), 0x12ab);
    // A no-break space is whitespace too.
    assert_eq!(parse_v2_header("\u{a0}12ab\u{3000}       ".as_bytes()).unwrap(), 0x12ab);
    assert!(matches!(parse_v2_header(b"12 ab           "), Err(RpaError::OffsetParse)));
    assert!(matches!(parse_v2_header(b"                "), Err(RpaError::OffsetParse)));
}

#[test]
fn trim_matches_str_trim() {
    for text in ["  a b  ", "\u{2003}x\u{85}", "", "   ", "\u{1680}\u{202f}q\u{205f}"] {
        let (lo, hi) = trim_bounds(text.as_bytes());
        assert_eq!(&text.as_bytes()[lo..hi], text.trim().as_bytes(), "{:?}", text);
    }
}

fn index_value(key: u64) -> PickleValue {
    let k = key as i64;
    PickleValue::Dict(vec![
        (
            s("images/bg.png"),
            PickleValue::List(vec![
                PickleValue::Tuple(vec![PickleValue::I64(100 ^ k), PickleValue::I64(5 ^ k), PickleValue::Bytes(b"PNG".to_vec())]),
                PickleValue::List(vec![PickleValue::I64(200 ^ k), PickleValue::I64(2 ^ k)]),
                PickleValue::Tuple(vec![PickleValue::I64(1)]),
            ]),
        ),
        (s("script.rpyc"), PickleValue::List(vec![PickleValue::Tuple(vec![PickleValue::I64(300 ^ k), PickleValue::I64(4 ^ k), s("é")])])),
        (PickleValue::I64(7), PickleValue::List(vec![])),
        (s("empty"), PickleValue::NoneValue),
    ])
}

#[test]
fn index_lists_each_file_once() {
    let index = RpaIndex::from_pickle(&index_value(0), 0);
    let mut names = index.list_files();
    names.sort();
    assert_eq!(names, vec!["empty".to_string(), "images/bg.png".to_string(), "script.rpyc".to_string()]);
    assert!(index.entries_for("missing").is_none());
    assert!(index.entries_for("empty").unwrap().is_empty());
}

#[test]
fn v3_index_is_deobfuscated_with_its_key() {
    let key = 0xdeadbeef;
    let index = RpaIndex::from_pickle(&index_value(key), key);
    let e = index.entries_for("images/bg.png").unwrap();
    assert_eq!(e.len(), 2);
    assert_eq!((e[0].offset, e[0].length, e[0].prefix.clone()), (100, 5, b"PNG".to_vec()));
    assert_eq!((e[1].offset, e[1].length, e[1].prefix.clone()), (200, 2, vec![]));
    let e = index.entries_for("script.rpyc").unwrap();
    assert_eq!((e[0].offset, e[0].length, e[0].prefix.clone()), (300, 4, "é".as_bytes().to_vec()));
}

#[test]
fn negative_fields_keep_their_bits() {
    let v = PickleValue::Dict(vec![(s("f"), PickleValue::List(vec![PickleValue::List(vec![PickleValue::I64(-1), PickleValue::Str("x".into())])]))]);
    let index = RpaIndex::from_pickle(&v, 1);
    let e = index.entries_for("f").unwrap();
    assert_eq!((e[0].offset, e[0].length), (u64::MAX ^ 1, 1));
}

#[test]
fn first_entry_of_a_name_counts() {
    let v = PickleValue::Dict(vec![
        (s("f"), PickleValue::List(vec![PickleValue::Tuple(vec![PickleValue::I64(1), PickleValue::I64(2)])])),
        (s("f"), PickleValue::List(vec![])),
    ]);
    let index = RpaIndex::from_pickle(&v, 0);
    assert_eq!(index.list_files(), vec!["f".to_string()]);
    assert_eq!(index.entries_for("f").unwrap().len(), 1);
    assert!(RpaIndex::from_pickle(&PickleValue::List(vec![]), 0).list_files().is_empty());
    assert!(RpaIndex::new().list_files().is_empty());
}

#[test]
fn file_is_prefix_then_stored_bytes_per_entry() {
    let entries = vec![
        ArchiveEntry { offset: 10, length: 3, prefix: b"P".to_vec() },
        ArchiveEntry { offset: 0, length: 2, prefix: vec![] },
    ];
    let chunks = vec![b"abc".to_vec(), b"de".to_vec()];
    assert_eq!(assemble_file(&entries, &chunks), b"Pabcde".to_vec());
    assert_eq!(assemble_file(&vec![], &vec![]), Vec::<u8>::new());
}

fn zlib(data: &[u8]) -> Vec<u8> {
    let mut enc = flate2::write::ZlibEncoder::new(Vec::new(), flate2::Compression::default());
    enc.write_all(data).unwrap();
    enc.finish().unwrap()
}

fn pickled_index(key: i64) -> Vec<u8> {
    let mut m = BTreeMap::new();
    m.insert(
        HashableValue::String("game/script.rpyc".to_string()),
        Value::List(vec![Value::Tuple(vec![Value::I64(1000 ^ key), Value::I64(77 ^ key), Value::Bytes(b"ab".to_vec())])]),
    );
    m.insert(HashableValue::I64(3), Value::List(vec![]));
    serde_pickle::value_to_vec(&Value::Dict(m), serde_pickle::SerOptions::new()).unwrap()
}

#[test]
fn index_is_read_from_compressed_pickle() {
    let key: u64 = 0x42424242;
    let index = read_index(&zlib(&pickled_index(key as i64)), key).unwrap();
    assert_eq!(index.list_files(), vec!["game/script.rpyc".to_string()]);
    let e = index.entries_for("game/script.rpyc").unwrap();
    assert_eq!((e[0].offset, e[0].length, e[0].prefix.clone()), (1000, 77, b"ab".to_vec()));
    let v2 = read_index(&zlib(&pickled_index(0)), 0).unwrap();
    assert_eq!(v2.entries_for("game/script.rpyc").unwrap()[0].offset, 1000);
}

#[test]
fn unreadable_index_errors() {
    assert_eq!(read_index(b"garbage", 0).unwrap_err(), IndexError::Decompress);
    assert_eq!(read_index(&zlib(b"not a pickle"), 0).unwrap_err(), IndexError::Unpickle);
    assert_eq!(IndexError::Unpickle.message(), "Failed to unpickle RPA index");
    assert_eq!(IndexError::Decompress.message(), "Failed to decompress index");
}
