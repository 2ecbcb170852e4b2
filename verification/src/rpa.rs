//! Ren'Py archives (`.rpa`), versions 2.0 and 3.0.
//!
//! An archive starts with a text header that gives, in hexadecimal, the
//! offset of its index; version 3.0 adds a key. The index is a zlib-compressed
//! pickle: a dictionary from file names to lists of `(offset, length)` or
//! `(offset, length, prefix)` items. In version 3.0 offsets and lengths are
//! stored XOR-ed with the key. A file's contents are, item by item, the prefix
//! followed by `length` bytes of the archive from `offset`.
use vstd::prelude::*;
use crate::pickle::{self, copy_bytes, unpickle, PickleTerm, PickleValue};
use crate::reader::{self, decompress_data};

verus! {

/// The version of an archive, told by its first eight bytes.
#[derive(Debug, Clone, Copy, PartialEq, Eq, Structural)]
pub enum RpaVersion {
    V2,
    V3,
}

/// Why an archive could not be read.
#[derive(Debug)]
pub enum RpaError {
    /// The first eight bytes name no supported version; they are kept.
    UnsupportedHeader(Vec<u8>),
    /// The index offset in the header is not a hexadecimal `u64`.
    OffsetParse,
    /// The key in the header is not a hexadecimal `u64`.
    KeyParse,
}

impl RpaError {
    /// The error's message, without the header bytes that
    /// `UnsupportedHeader` carries.
    pub fn message(&self) -> (m: &'static str)
        ensures
            m@ == rpa_error_message(*self),
    {
        match self {
            RpaError::UnsupportedHeader(_) => "Unsupported or invalid RPA header",
            RpaError::OffsetParse => "Failed to parse offset",
            RpaError::KeyParse => "Failed to parse key",
        }
    }
}

/// The text of each error.
pub open spec fn rpa_error_message(e: RpaError) -> Seq<char> {
    match e {
        RpaError::UnsupportedHeader(_) => "Unsupported or invalid RPA header"@,
        RpaError::OffsetParse => "Failed to parse offset"@,
        RpaError::KeyParse => "Failed to parse key"@,
    }
}

/// `RPA-3.0 `
pub open spec fn rpa3_magic() -> Seq<u8> {
    seq![0x52u8, 0x50u8, 0x41u8, 0x2Du8, 0x33u8, 0x2Eu8, 0x30u8, 0x20u8]
}

/// `RPA-2.0 `
pub open spec fn rpa2_magic() -> Seq<u8> {
    seq![0x52u8, 0x50u8, 0x41u8, 0x2Du8, 0x32u8, 0x2Eu8, 0x30u8, 0x20u8]
}

/// Whether two byte strings are equal.
fn same_bytes(a: &[u8], b: &[u8]) -> (r: bool)
    ensures
        r == (a@ == b@),
{
    if a.len() != b.len() {
        return false;
    }
    let mut i: usize = 0;
    while i < a.len()
        invariant
            i <= a@.len(),
            a@.len() == b@.len(),
            forall|k: int| 0 <= k < i ==> a@[k] == b@[k],
        decreases a@.len() - i,
    {
        if a[i] != b[i] {
            return false;
        }
        i = i + 1;
    }
    assert(a@ =~= b@);
    true
}

/// Tells the version of an archive from its first eight bytes.
pub fn rpa_version(header: &[u8]) -> (r: Result<RpaVersion, RpaError>)
    ensures
        header@ == rpa3_magic() <==> r matches Ok(RpaVersion::V3),
        header@ == rpa2_magic() <==> r matches Ok(RpaVersion::V2),
        r is Err <==> header@ != rpa3_magic() && header@ != rpa2_magic(),
        r matches Err(e) ==> e matches RpaError::UnsupportedHeader(h) && h@ == header@,
{
    let v3: [u8; 8] = [0x52u8, 0x50u8, 0x41u8, 0x2Du8, 0x33u8, 0x2Eu8, 0x30u8, 0x20u8];
    let v2: [u8; 8] = [0x52u8, 0x50u8, 0x41u8, 0x2Du8, 0x32u8, 0x2Eu8, 0x30u8, 0x20u8];
    assert(v3@ =~= rpa3_magic());
    assert(v2@ =~= rpa2_magic());
    assert(rpa3_magic()[4] != rpa2_magic()[4]);
    if same_bytes(header, &v3) {
        Ok(RpaVersion::V3)
    } else if same_bytes(header, &v2) {
        Ok(RpaVersion::V2)
    } else {
        Err(RpaError::UnsupportedHeader(vstd::slice::slice_to_vec(header)))
    }
}

/// The value of a hexadecimal digit.
pub open spec fn hex_digit(c: u8) -> Option<int> {
    if 0x30 <= c <= 0x39 {
        Some(c - 0x30)
    } else if 0x61 <= c <= 0x66 {
        Some(c - 0x61 + 10)
    } else if 0x41 <= c <= 0x46 {
        Some(c - 0x41 + 10)
    } else {
        None
    }
}

/// Whether every byte is a hexadecimal digit.
pub open spec fn all_hex_digits(d: Seq<u8>) -> bool {
    forall|i: int| 0 <= i < d.len() ==> #[trigger] hex_digit(d[i]) is Some
}

/// The number that hexadecimal digits denote.
pub open spec fn hex_value(d: Seq<u8>) -> int
    decreases d.len(),
{
    if d.len() == 0 {
        0
    } else {
        hex_value(d.drop_last()) * 16 + hex_digit(d.last()).unwrap()
    }
}

/// The digits of a number in text: after a leading `+`, if there is one.
pub open spec fn unsigned_digits(s: Seq<u8>) -> Seq<u8> {
    if s.len() > 0 && s[0] == 0x2B {
        s.drop_first()
    } else {
        s
    }
}

/// The `u64` that a text denotes in base 16, as Rust reads an unsigned
/// integer: an optional `+`, then at least one hexadecimal digit, and a value
/// that fits.
pub open spec fn parse_hex_u64(s: Seq<u8>) -> Option<u64> {
    let d = unsigned_digits(s);
    if d.len() > 0 && all_hex_digits(d) && hex_value(d) <= u64::MAX {
        Some(hex_value(d) as u64)
    } else {
        None
    }
}

/// A longer string of digits denotes at least as much.
proof fn lemma_hex_value_grows(d: Seq<u8>, k: int)
    requires
        0 <= k <= d.len(),
        all_hex_digits(d),
    ensures
        hex_value(d.subrange(0, k)) <= hex_value(d),
        0 <= hex_value(d.subrange(0, k)),
    decreases d.len() - k,
{
    if k < d.len() {
        let next = d.subrange(0, k + 1);
        assert(next.drop_last() =~= d.subrange(0, k));
        assert(hex_digit(d[k]) is Some);
        lemma_hex_value_grows(d, k + 1);
        if k == 0 {
            assert(d.subrange(0, 0).len() == 0);
        }
    } else {
        assert(d.subrange(0, k) =~= d);
        lemma_hex_value_nonneg(d);
    }
}

/// Digits denote no negative number.
proof fn lemma_hex_value_nonneg(d: Seq<u8>)
    requires
        all_hex_digits(d),
    ensures
        0 <= hex_value(d),
    decreases d.len(),
{
    if d.len() > 0 {
        assert(hex_digit(d[d.len() - 1]) is Some);
        lemma_hex_value_nonneg(d.drop_last());
    }
}

/// The value of a hexadecimal digit.
fn hex_digit_exec(c: u8) -> (r: Option<u64>)
    ensures
        match r {
            Some(v) => hex_digit(c) == Some(v as int),
            None => hex_digit(c) is None,
        },
{
    if 0x30 <= c && c <= 0x39 {
        Some((c - 0x30) as u64)
    } else if 0x61 <= c && c <= 0x66 {
        Some((c - 0x61 + 10) as u64)
    } else if 0x41 <= c && c <= 0x46 {
        Some((c - 0x41 + 10) as u64)
    } else {
        None
    }
}

/// Reads a text as a `u64` in base 16, as `u64::from_str_radix(s, 16)`
/// does.
pub fn parse_hex(s: &[u8]) -> (r: Option<u64>)
    ensures
        r == parse_hex_u64(s@),
{
    let ghost d = unsigned_digits(s@);
    let start: usize = if s.len() > 0 && s[0] == 0x2B {
        1
    } else {
        0
    };
    assert(d =~= s@.subrange(start as int, s@.len() as int));
    if start == s.len() {
        return None;
    }
    let mut value: u64 = 0;
    let mut i: usize = start;
    while i < s.len()
        invariant
            start <= i <= s@.len(),
            start < s@.len(),
            d == unsigned_digits(s@),
            d =~= s@.subrange(start as int, s@.len() as int),
            all_hex_digits(d.subrange(0, i - start)),
            value == hex_value(d.subrange(0, i - start)),
        decreases s@.len() - i,
    {
        let ghost k = i - start;
        assert(d.subrange(0, k + 1).drop_last() =~= d.subrange(0, k));
        assert(d[k] == s@[i as int]);
        let digit = match hex_digit_exec(s[i]) {
            Some(v) => v,
            None => {
                assert(hex_digit(d[k]) is None);
                assert(!all_hex_digits(d));
                return None;
            },
        };
        if value > (u64::MAX - digit) / 16 {
            proof {
                let next = d.subrange(0, k + 1);
                assert(next.last() == d[k]);
                assert(hex_value(next) == hex_value(next.drop_last()) * 16 + hex_digit(next.last()).unwrap());
                assert(hex_value(d.subrange(0, k + 1)) > u64::MAX);
                if all_hex_digits(d) {
                    lemma_hex_value_grows(d, k + 1);
                }
            }
            return None;
        }
        value = value * 16 + digit;
        i = i + 1;
        assert(all_hex_digits(d.subrange(0, i - start)));
    }
    assert(d.subrange(0, i - start) =~= d);
    Some(value)
}

/// Whether a byte is ASCII whitespace (tab, line feed, vertical tab, form
/// feed, carriage return, space).
pub open spec fn is_ascii_ws(c: u8) -> bool {
    (0x09 <= c <= 0x0D) || c == 0x20
}

/// Whether three bytes encode, in UTF-8, a whitespace character of three
/// bytes (U+1680, U+2000 to U+200A, U+2028, U+2029, U+202F, U+205F, U+3000).
pub open spec fn is_ws3(a: u8, b: u8, c: u8) -> bool {
    ||| (a == 0xE1 && b == 0x9A && c == 0x80)
    ||| (a == 0xE2 && b == 0x80 && ((0x80 <= c <= 0x8A) || c == 0xA8 || c == 0xA9 || c == 0xAF))
    ||| (a == 0xE2 && b == 0x81 && c == 0x9F)
    ||| (a == 0xE3 && b == 0x80 && c == 0x80)
}

/// Whether two bytes encode, in UTF-8, a whitespace character of two bytes
/// (U+0085, U+00A0).
pub open spec fn is_ws2(a: u8, b: u8) -> bool {
    a == 0xC2 && (b == 0x85 || b == 0xA0)
}

/// The length of the UTF-8 encoding of a whitespace character that starts
/// at `i`, or 0 where none does.
pub open spec fn ws_len_at(s: Seq<u8>, i: int) -> int {
    if 0 <= i < s.len() && is_ascii_ws(s[i]) {
        1
    } else if 0 <= i && i + 2 <= s.len() && is_ws2(s[i], s[i + 1]) {
        2
    } else if 0 <= i && i + 3 <= s.len() && is_ws3(s[i], s[i + 1], s[i + 2]) {
        3
    } else {
        0
    }
}

/// The length of the UTF-8 encoding of a whitespace character that ends
/// at `j`, or 0 where none does.
pub open spec fn ws_len_before(s: Seq<u8>, j: int) -> int {
    if 1 <= j <= s.len() && is_ascii_ws(s[j - 1]) {
        1
    } else if 2 <= j <= s.len() && is_ws2(s[j - 2], s[j - 1]) {
        2
    } else if 3 <= j <= s.len() && is_ws3(s[j - 3], s[j - 2], s[j - 1]) {
        3
    } else {
        0
    }
}

/// Where the text starts once the whitespace from `i` on is skipped.
pub open spec fn skip_ws_from(s: Seq<u8>, i: int) -> int
    decreases s.len() - i,
{
    if 0 <= i < s.len() && ws_len_at(s, i) > 0 {
        skip_ws_from(s, i + ws_len_at(s, i))
    } else {
        i
    }
}

/// Where the text ends once the whitespace before `j`, down to `lo`, is
/// skipped.
pub open spec fn skip_ws_before(s: Seq<u8>, lo: int, j: int) -> int
    decreases j,
{
    if lo < j && ws_len_before(s, j) > 0 && lo <= j - ws_len_before(s, j) {
        skip_ws_before(s, lo, j - ws_len_before(s, j))
    } else {
        j
    }
}

/// The text without its leading and trailing whitespace, whitespace being
/// what Rust's `char::is_whitespace` accepts.
pub open spec fn trim_ws(s: Seq<u8>) -> Seq<u8> {
    let lo = skip_ws_from(s, 0);
    s.subrange(lo, skip_ws_before(s, lo, s.len() as int))
}

/// The length of the whitespace character that starts at `i`.
fn ws_len_at_exec(s: &[u8], i: usize) -> (r: usize)
    requires
        i < s@.len(),
    ensures
        r == ws_len_at(s@, i as int),
{
    let n = s.len();
    let a = s[i];
    if (0x09 <= a && a <= 0x0D) || a == 0x20 {
        1
    } else if n - i >= 2 && a == 0xC2 && (s[i + 1] == 0x85 || s[i + 1] == 0xA0) {
        2
    } else if n - i >= 3 && is_ws3_exec(a, s[i + 1], s[i + 2]) {
        3
    } else {
        0
    }
}

/// Whether three bytes encode a whitespace character.
fn is_ws3_exec(a: u8, b: u8, c: u8) -> (r: bool)
    ensures
        r == is_ws3(a, b, c),
{
    (a == 0xE1 && b == 0x9A && c == 0x80) || (a == 0xE2 && b == 0x80 && ((0x80 <= c && c <= 0x8A)
        || c == 0xA8 || c == 0xA9 || c == 0xAF)) || (a == 0xE2 && b == 0x81 && c == 0x9F) || (a
        == 0xE3 && b == 0x80 && c == 0x80)
}

/// The length of the whitespace character that ends at `j`.
fn ws_len_before_exec(s: &[u8], j: usize) -> (r: usize)
    requires
        1 <= j <= s@.len(),
    ensures
        r == ws_len_before(s@, j as int),
{
    let a = s[j - 1];
    if (0x09 <= a && a <= 0x0D) || a == 0x20 {
        1
    } else if j >= 2 && s[j - 2] == 0xC2 && (a == 0x85 || a == 0xA0) {
        2
    } else if j >= 3 && is_ws3_exec(s[j - 3], s[j - 2], a) {
        3
    } else {
        0
    }
}

/// The bounds of the text without its leading and trailing whitespace.
pub fn trim_bounds(s: &[u8]) -> (r: (usize, usize))
    ensures
        r.0 <= r.1 <= s@.len(),
        s@.subrange(r.0 as int, r.1 as int) == trim_ws(s@),
{
    let mut lo: usize = 0;
    while lo < s.len() && ws_len_at_exec(s, lo) > 0
        invariant
            lo <= s@.len(),
            skip_ws_from(s@, lo as int) == skip_ws_from(s@, 0),
        decreases s@.len() - lo,
    {
        lo = lo + ws_len_at_exec(s, lo);
    }
    let mut hi: usize = s.len();
    while lo < hi && ws_len_before_exec(s, hi) > 0 && lo <= hi - ws_len_before_exec(s, hi)
        invariant
            lo <= hi <= s@.len(),
            lo == skip_ws_from(s@, 0),
            skip_ws_before(s@, lo as int, hi as int) == skip_ws_before(s@, lo as int, s@.len() as int),
        decreases hi,
    {
        hi = hi - ws_len_before_exec(s, hi);
    }
    (lo, hi)
}

/// The index offset that the header of a version-2.0 archive gives: the
/// sixteen bytes after `RPA-2.0 `, without surrounding whitespace, read in
/// base 16.
pub open spec fn v2_header(rest: Seq<u8>) -> Result<u64, RpaError> {
    match parse_hex_u64(trim_ws(rest)) {
        Some(offset) => Ok(offset),
        None => Err(RpaError::OffsetParse),
    }
}

/// Reads the index offset from the header of a version-2.0 archive.
pub fn parse_v2_header(rest: &[u8]) -> (r: Result<u64, RpaError>)
    ensures
        match r {
            Ok(offset) => v2_header(rest@) == Ok::<u64, RpaError>(offset),
            Err(e) => v2_header(rest@) is Err && e is OffsetParse,
        },
{
    let (lo, hi) = trim_bounds(rest);
    match parse_hex(&rest[lo..hi]) {
        Some(offset) => Ok(offset),
        None => Err(RpaError::OffsetParse),
    }
}

/// Whether every byte is ASCII.
pub open spec fn all_ascii(s: Seq<u8>) -> bool {
    forall|i: int| 0 <= i < s.len() ==> #[trigger] s[i] < 0x80
}

/// The index offset and key that the header of a version-3.0 archive gives:
/// bytes 0 to 16 and 17 to 25 after `RPA-3.0 `, each read in base 16.
pub open spec fn v3_header(rest: Seq<u8>) -> Result<(u64, u64), RpaError> {
    match parse_hex_u64(rest.subrange(0, 16)) {
        None => Err(RpaError::OffsetParse),
        Some(offset) => match parse_hex_u64(rest.subrange(17, 25)) {
            None => Err(RpaError::KeyParse),
            Some(key) => Ok((offset, key)),
        },
    }
}

/// Reads the index offset and key from the header of a version-3.0 archive.
///
/// The header is read as text: a non-ASCII byte among the fields makes it
/// unreadable. Where the offset is ASCII but the byte after it is not, the
/// key would start inside a character, and that input is left out.
pub fn parse_v3_header(rest: &[u8]) -> (r: Result<(u64, u64), RpaError>)
    requires
        rest@.len() >= 25,
        all_ascii(rest@.subrange(0, 16)) ==> rest@[16] < 0x80,
    ensures
        match r {
            Ok(fields) => v3_header(rest@) == Ok::<(u64, u64), RpaError>(fields),
            Err(RpaError::OffsetParse) => v3_header(rest@) matches Err(RpaError::OffsetParse),
            Err(RpaError::KeyParse) => v3_header(rest@) matches Err(RpaError::KeyParse),
            Err(RpaError::UnsupportedHeader(_)) => false,
        },
{
    let offset = match parse_hex(&rest[0..16]) {
        Some(v) => v,
        None => return Err(RpaError::OffsetParse),
    };
    let key = match parse_hex(&rest[17..25]) {
        Some(v) => v,
        None => return Err(RpaError::KeyParse),
    };
    Ok((offset, key))
}

/// Where a file's bytes lie: `length` bytes of the archive from `offset`,
/// after the bytes of `prefix`.
#[derive(Debug)]
pub struct ArchiveEntry {
    pub offset: u64,
    pub length: u64,
    pub prefix: Vec<u8>,
}

/// The model of an entry: offset, length and prefix.
pub type EntryTerm = (u64, u64, Seq<u8>);

/// The model of an entry.
pub open spec fn entry_term(e: ArchiveEntry) -> EntryTerm {
    (e.offset, e.length, e.prefix@)
}

/// The models of a list of entries.
pub open spec fn entry_terms(v: Vec<ArchiveEntry>) -> Seq<EntryTerm> {
    Seq::new(v@.len(), |i: int| entry_term(v@[i]))
}

/// A file of the index and its entries.
#[derive(Debug)]
pub struct IndexedFile {
    pub name: String,
    pub entries: Vec<ArchiveEntry>,
}

/// The index of an archive: for each file name, where its bytes lie.
#[derive(Debug)]
pub struct RpaIndex {
    files: Vec<IndexedFile>,
}

/// The map that a list of files makes, a later file taking the place of an
/// earlier one of the same name.
pub open spec fn files_map(files: Seq<IndexedFile>) -> Map<Seq<char>, Seq<EntryTerm>>
    decreases files.len(),
{
    if files.len() == 0 {
        Map::empty()
    } else {
        files_map(files.drop_last()).insert(files.last().name@, entry_terms(files.last().entries))
    }
}

/// Whether no two files have the same name.
pub open spec fn names_distinct(files: Seq<IndexedFile>) -> bool {
    forall|i: int, j: int|
        0 <= i < files.len() && 0 <= j < files.len() && i != j ==> files[i].name@ != files[j].name@
}

impl RpaIndex {
    /// Files have distinct names.
    #[verifier::type_invariant]
    spec fn wf(self) -> bool {
        names_distinct(self.files@)
    }
}

impl View for RpaIndex {
    type V = Map<Seq<char>, Seq<EntryTerm>>;

    closed spec fn view(&self) -> Map<Seq<char>, Seq<EntryTerm>> {
        files_map(self.files@)
    }
}

/// With distinct names, the map has exactly the files' names, each with
/// that file's entries.
proof fn lemma_files_map(files: Seq<IndexedFile>)
    requires
        names_distinct(files),
    ensures
        forall|n: Seq<char>|
            files_map(files).contains_key(n) <==> exists|i: int| 0 <= i < files.len() && #[trigger] files[i].name@ == n,
        forall|i: int|
            0 <= i < files.len() ==> files_map(files)[#[trigger] files[i].name@] == entry_terms(files[i].entries),
    decreases files.len(),
{
    if files.len() > 0 {
        let rest = files.drop_last();
        assert(names_distinct(rest));
        lemma_files_map(rest);
        assert forall|i: int| 0 <= i < rest.len() implies #[trigger] rest[i] == files[i] by {}
        assert forall|n: Seq<char>|
            files_map(files).contains_key(n) <==> exists|i: int| 0 <= i < files.len() && #[trigger] files[i].name@ == n by {
            if files_map(files).contains_key(n) {
                if n == files.last().name@ {
                    assert(files[files.len() - 1].name@ == n);
                } else {
                    assert(files_map(rest).contains_key(n));
                    let i = choose|i: int| 0 <= i < rest.len() && #[trigger] rest[i].name@ == n;
                    assert(rest[i] == files[i]);
                    assert(files[i].name@ == n);
                }
            }
            if exists|i: int| 0 <= i < files.len() && #[trigger] files[i].name@ == n {
                let i = choose|i: int| 0 <= i < files.len() && #[trigger] files[i].name@ == n;
                if i < files.len() - 1 {
                    assert(rest[i] == files[i]);
                    assert(rest[i].name@ == n);
                    assert(files_map(rest).contains_key(n));
                }
            }
        }
        assert forall|i: int|
            0 <= i < files.len() implies files_map(files)[#[trigger] files[i].name@] == entry_terms(files[i].entries) by {
            if i < files.len() - 1 {
                assert(rest[i] == files[i]);
                assert(files[i].name@ != files.last().name@);
            }
        }
    }
}

/// Adds a file to the index, unless the index already has a file of that
/// name.
#[verifier::loop_isolation(false)]
fn add_file(files: &mut Vec<IndexedFile>, name: String, entries: Vec<ArchiveEntry>)
    requires
        names_distinct(old(files)@),
    ensures
        names_distinct(final(files)@),
        files_map(final(files)@) == if files_map(old(files)@).contains_key(name@) {
            files_map(old(files)@)
        } else {
            files_map(old(files)@).insert(name@, entry_terms(entries))
        },
{
    let ghost before = files@;
    proof {
        lemma_files_map(before);
    }
    let mut i: usize = 0;
    while i < files.len()
        invariant
            i <= files@.len(),
            files@ == before,
            forall|k: int| 0 <= k < i ==> files@[k].name@ != name@,
        decreases files@.len() - i,
    {
        if files[i].name == name {
            assert(before[i as int].name@ == name@);
            return;
        }
        i = i + 1;
    }
    assert(!files_map(before).contains_key(name@));
    let ghost n = name@;
    files.push(IndexedFile { name, entries });
    proof {
        let after = files@;
        assert(after.drop_last() =~= before);
        assert(names_distinct(after)) by {
            assert forall|p: int, q: int|
                0 <= p < after.len() && 0 <= q < after.len() && p != q implies after[p].name@ != after[q].name@ by {
                if p < before.len() && q < before.len() {
                    assert(after[p] == before[p] && after[q] == before[q]);
                } else if p < before.len() {
                    assert(after[p] == before[p]);
                } else if q < before.len() {
                    assert(after[q] == before[q]);
                }
            }
        }
    }
}

/// The `u64` an index field holds: the bits of a short integer, 0 for any
/// other value.
pub open spec fn int_field(v: PickleTerm) -> u64 {
    match v {
        PickleTerm::I64(i) => i as u64,
        _ => 0,
    }
}

/// The prefix of an index item: its third value, as bytes where it is a byte
/// string or the UTF-8 encoding of a string, empty otherwise.
pub open spec fn prefix_field(t: Seq<PickleTerm>) -> Seq<u8> {
    if t.len() >= 3 {
        match t[2] {
            PickleTerm::Bytes(b) => b,
            PickleTerm::Str(s) => vstd::utf8::encode_utf8(s),
            _ => Seq::empty(),
        }
    } else {
        Seq::empty()
    }
}

/// The entry an index item makes: a tuple or list of at least two values,
/// whose offset and length are XOR-ed with the key.
pub open spec fn item_entry(item: PickleTerm, key: u64) -> Option<EntryTerm> {
    match item {
        PickleTerm::Tuple(t) => fields_entry(t, key),
        PickleTerm::List(t) => fields_entry(t, key),
        _ => None,
    }
}

/// The entry the values of an index item make.
pub open spec fn fields_entry(t: Seq<PickleTerm>, key: u64) -> Option<EntryTerm> {
    if t.len() >= 2 {
        Some((int_field(t[0]) ^ key, int_field(t[1]) ^ key, prefix_field(t)))
    } else {
        None
    }
}

/// The entries a list of index items makes; items that make none are left
/// out.
pub open spec fn item_entries(items: Seq<PickleTerm>, key: u64) -> Seq<EntryTerm>
    decreases items.len(),
{
    if items.len() == 0 {
        Seq::empty()
    } else {
        let rest = item_entries(items.drop_last(), key);
        match item_entry(items.last(), key) {
            Some(e) => rest.push(e),
            None => rest,
        }
    }
}

/// The entries of a file: those its list of items makes, none where the
/// value is not a list.
pub open spec fn file_entries(v: PickleTerm, key: u64) -> Seq<EntryTerm> {
    match v {
        PickleTerm::List(items) => item_entries(items, key),
        _ => Seq::empty(),
    }
}

/// The index a dictionary makes, entry by entry: a string key names a file;
/// other keys are passed over. A dictionary decoded from a pickle has each
/// key once; where a name comes twice, the first entry counts, as it does for
/// a lookup in the dictionary (`lemma_index_is_lookup`).
pub open spec fn index_of_dict(d: Seq<(PickleTerm, PickleTerm)>, key: u64) -> Map<Seq<char>, Seq<EntryTerm>>
    decreases d.len(),
{
    if d.len() == 0 {
        Map::empty()
    } else {
        let m = index_of_dict(d.drop_last(), key);
        match d.last().0 {
            PickleTerm::Str(name) => if m.contains_key(name) {
                m
            } else {
                m.insert(name, file_entries(d.last().1, key))
            },
            _ => m,
        }
    }
}

/// The index gives a name exactly where looking the name up in the index
/// dictionary finds an entry, and gives it the entries of the value found.
pub proof fn lemma_index_is_lookup(d: Seq<(PickleTerm, PickleTerm)>, key: u64)
    ensures
        forall|name: Seq<char>|
            #[trigger] index_of_dict(d, key).contains_key(name) <==> pickle::dict_has(d, name),
        forall|name: Seq<char>|
            #[trigger] index_of_dict(d, key).contains_key(name) ==> index_of_dict(d, key)[name]
                == file_entries(pickle::dict_get(d, name).unwrap(), key),
    decreases d.len(),
{
    if d.len() > 0 {
        let r = d.drop_last();
        lemma_index_is_lookup(r, key);
        assert forall|name: Seq<char>|
            #[trigger] index_of_dict(d, key).contains_key(name) <==> pickle::dict_has(d, name) by {
            pickle::lemma_dict_index_push(d, name);
            assert(index_of_dict(r, key).contains_key(name) <==> pickle::dict_has(r, name));
        }
        assert forall|name: Seq<char>|
            #[trigger] index_of_dict(d, key).contains_key(name) implies index_of_dict(d, key)[name]
                == file_entries(pickle::dict_get(d, name).unwrap(), key) by {
            pickle::lemma_dict_index_push(d, name);
            pickle::lemma_dict_index(r, name);
            assert(index_of_dict(r, key).contains_key(name) <==> pickle::dict_has(r, name));
            if let Some(j) = pickle::dict_index(r, name) {
                assert(r[j] == d[j]);
                assert(index_of_dict(r, key)[name] == file_entries(pickle::dict_get(r, name).unwrap(), key));
            }
        }
    }
}

/// The index an unpickled index value makes with the given key; a value
/// that is not a dictionary makes an empty index.
pub open spec fn index_of_pickle(v: PickleTerm, key: u64) -> Map<Seq<char>, Seq<EntryTerm>> {
    match v {
        PickleTerm::Dict(d) => index_of_dict(d, key),
        _ => Map::empty(),
    }
}

/// The `u64` an index field holds.
fn int_field_exec(v: &PickleValue) -> (r: u64)
    ensures
        r == int_field(v@),
{
    match v {
        PickleValue::I64(i) => *i as u64,
        _ => 0,
    }
}

/// The entry the values of an index item make.
fn fields_entry_exec(t: &Vec<PickleValue>, key: u64) -> (r: Option<ArchiveEntry>)
    ensures
        match r {
            Some(e) => fields_entry(pickle::terms_of(*t), key) == Some(entry_term(e)),
            None => fields_entry(pickle::terms_of(*t), key) is None,
        },
{
    proof {
        pickle::lemma_terms_of(*t);
    }
    if t.len() < 2 {
        return None;
    }
    let offset = int_field_exec(&t[0]) ^ key;
    let length = int_field_exec(&t[1]) ^ key;
    let prefix: Vec<u8> = if t.len() >= 3 {
        match &t[2] {
            PickleValue::Bytes(b) => copy_bytes(b),
            PickleValue::Str(s) => vstd::slice::slice_to_vec(s.as_str().as_bytes()),
            _ => Vec::new(),
        }
    } else {
        Vec::new()
    };
    Some(ArchiveEntry { offset, length, prefix })
}

/// The entries of a file of the index.
fn file_entries_exec(v: &PickleValue, key: u64) -> (r: Vec<ArchiveEntry>)
    ensures
        entry_terms(r) == file_entries(v@, key),
{
    let mut out: Vec<ArchiveEntry> = Vec::new();
    let items = match v {
        PickleValue::List(items) => items,
        _ => {
            assert(entry_terms(out) =~= Seq::<EntryTerm>::empty());
            return out;
        },
    };
    let ghost terms = pickle::terms_of(*items);
    proof {
        pickle::lemma_terms_of(*items);
    }
    let mut i: usize = 0;
    while i < items.len()
        invariant
            i <= items@.len(),
            terms == pickle::terms_of(*items),
            terms.len() == items@.len(),
            forall|k: int| 0 <= k < items@.len() ==> #[trigger] terms[k] == items@[k]@,
            entry_terms(out) == item_entries(terms.subrange(0, i as int), key),
        decreases items@.len() - i,
    {
        let ghost before = entry_terms(out);
        assert(terms.subrange(0, i + 1).drop_last() =~= terms.subrange(0, i as int));
        assert(terms.subrange(0, i + 1).last() == items@[i as int]@);
        let made = match &items[i] {
            PickleValue::Tuple(t) => fields_entry_exec(t, key),
            PickleValue::List(t) => fields_entry_exec(t, key),
            _ => None,
        };
        match made {
            Some(e) => {
                out.push(e);
                assert(entry_terms(out) =~= before.push(entry_term(e)));
            },
            None => {},
        }
        i = i + 1;
    }
    assert(terms.subrange(0, i as int) =~= terms);
    out
}

impl RpaIndex {
    /// An index with no file.
    pub fn new() -> (r: RpaIndex)
        ensures
            r@ == Map::<Seq<char>, Seq<EntryTerm>>::empty(),
    {
        RpaIndex { files: Vec::new() }
    }

    /// Builds the index from the unpickled index of an archive, XOR-ing each
    /// offset and length with `key` (0 for a version-2.0 archive, whose
    /// index is stored as it is).
    pub fn from_pickle(value: &PickleValue, key: u64) -> (r: RpaIndex)
        ensures
            r@ == index_of_pickle(value@, key),
    {
        let mut files: Vec<IndexedFile> = Vec::new();
        let dict = match value {
            PickleValue::Dict(d) => d,
            _ => {
                return RpaIndex { files };
            },
        };
        let ghost terms = pickle::pair_terms_of(*dict);
        proof {
            pickle::lemma_pair_terms_of(*dict);
        }
        let mut i: usize = 0;
        while i < dict.len()
            invariant
                i <= dict@.len(),
                terms == pickle::pair_terms_of(*dict),
                terms.len() == dict@.len(),
                forall|k: int| 0 <= k < dict@.len() ==> #[trigger] terms[k] == (dict@[k].0@, dict@[k].1@),
                names_distinct(files@),
                files_map(files@) == index_of_dict(terms.subrange(0, i as int), key),
            decreases dict@.len() - i,
        {
            assert(terms.subrange(0, i + 1).drop_last() =~= terms.subrange(0, i as int));
            assert(terms.subrange(0, i + 1).last() == terms[i as int]);
            match &dict[i].0 {
                PickleValue::Str(name) => {
                    let entries = file_entries_exec(&dict[i].1, key);
                    add_file(&mut files, name.clone(), entries);
                },
                _ => {},
            }
            i = i + 1;
        }
        assert(terms.subrange(0, i as int) =~= terms);
        RpaIndex { files }
    }

    /// The names of the files in the index, each once, in no particular order.
    pub fn list_files(&self) -> (r: Vec<String>)
        ensures
            forall|i: int| 0 <= i < r@.len() ==> self@.contains_key(#[trigger] r@[i]@),
            forall|n: Seq<char>| self@.contains_key(n) ==> exists|i: int| 0 <= i < r@.len() && #[trigger] r@[i]@ == n,
            forall|i: int, j: int| 0 <= i < r@.len() && 0 <= j < r@.len() && i != j ==> r@[i]@ != r@[j]@,
    {
        proof {
            use_type_invariant(self);
            lemma_files_map(self.files@);
        }
        let mut out: Vec<String> = Vec::new();
        let mut i: usize = 0;
        while i < self.files.len()
            invariant
                i <= self.files@.len(),
                out@.len() == i,
                forall|k: int| 0 <= k < i ==> #[trigger] out@[k]@ == self.files@[k].name@,
            decreases self.files@.len() - i,
        {
            out.push(self.files[i].name.clone());
            i = i + 1;
        }
        proof {
            assert forall|n: Seq<char>| self@.contains_key(n) implies exists|i: int| 0 <= i < out@.len() && #[trigger] out@[i]@ == n by {
                let k = choose|k: int| 0 <= k < self.files@.len() && #[trigger] self.files@[k].name@ == n;
                assert(out@[k]@ == n);
            }
            assert forall|p: int| 0 <= p < out@.len() implies self@.contains_key(#[trigger] out@[p]@) by {
                assert(self.files@[p].name@ == out@[p]@);
            }
        }
        out
    }

    /// The entries of the file `name`, where the index has it.
    #[verifier::loop_isolation(false)]
    pub fn entries_for(&self, name: &str) -> (r: Option<&Vec<ArchiveEntry>>)
        ensures
            match r {
                Some(v) => self@.contains_key(name@) && entry_terms(*v) == self@[name@],
                None => !self@.contains_key(name@),
            },
    {
        proof {
            use_type_invariant(self);
            lemma_files_map(self.files@);
        }
        let mut i: usize = 0;
        while i < self.files.len()
            invariant
                i <= self.files@.len(),
                forall|k: int| 0 <= k < i ==> self.files@[k].name@ != name@,
            decreases self.files@.len() - i,
        {
            if pickle::same_str(self.files[i].name.as_str(), name) {
                assert(self.files@[i as int].name@ == name@);
                return Some(&self.files[i].entries);
            }
            i = i + 1;
        }
        None
    }
}

/// The models of a list of byte strings.
pub open spec fn byte_strings(v: Vec<Vec<u8>>) -> Seq<Seq<u8>> {
    Seq::new(v@.len(), |i: int| v@[i]@)
}

/// The bytes of a file: for each entry, its prefix followed by the bytes
/// read for it.
pub open spec fn assembled(entries: Seq<EntryTerm>, chunks: Seq<Seq<u8>>) -> Seq<u8>
    decreases entries.len(),
{
    if entries.len() == 0 || chunks.len() == 0 {
        Seq::empty()
    } else {
        assembled(entries.drop_last(), chunks.drop_last()) + entries.last().2 + chunks.last()
    }
}

/// Puts a file together from its entries and the bytes read for each of them
/// (the `length` bytes of the archive from `offset`).
pub fn assemble_file(entries: &Vec<ArchiveEntry>, chunks: &Vec<Vec<u8>>) -> (r: Vec<u8>)
    requires
        entries@.len() == chunks@.len(),
    ensures
        r@ == assembled(entry_terms(*entries), byte_strings(*chunks)),
{
    let ghost es = entry_terms(*entries);
    let ghost cs = byte_strings(*chunks);
    let mut data: Vec<u8> = Vec::new();
    let mut i: usize = 0;
    while i < entries.len()
        invariant
            i <= entries@.len(),
            entries@.len() == chunks@.len(),
            es == entry_terms(*entries),
            cs == byte_strings(*chunks),
            data@ == assembled(es.subrange(0, i as int), cs.subrange(0, i as int)),
        decreases entries@.len() - i,
    {
        let ghost before = data@;
        let prefix = &entries[i].prefix;
        let chunk = &chunks[i];
        let mut k: usize = 0;
        while k < prefix.len()
            invariant
                k <= prefix@.len(),
                data@ == before + prefix@.subrange(0, k as int),
            decreases prefix@.len() - k,
        {
            data.push(prefix[k]);
            assert(prefix@.subrange(0, k + 1) =~= prefix@.subrange(0, k as int).push(prefix@[k as int]));
            k = k + 1;
        }
        assert(prefix@.subrange(0, k as int) =~= prefix@);
        let ghost mid = data@;
        let mut k: usize = 0;
        while k < chunk.len()
            invariant
                k <= chunk@.len(),
                data@ == mid + chunk@.subrange(0, k as int),
            decreases chunk@.len() - k,
        {
            data.push(chunk[k]);
            assert(chunk@.subrange(0, k + 1) =~= chunk@.subrange(0, k as int).push(chunk@[k as int]));
            k = k + 1;
        }
        assert(chunk@.subrange(0, k as int) =~= chunk@);
        assert(es.subrange(0, i + 1).drop_last() =~= es.subrange(0, i as int));
        assert(cs.subrange(0, i + 1).drop_last() =~= cs.subrange(0, i as int));
        assert(es.subrange(0, i + 1).last() == entry_term(entries@[i as int]));
        assert(cs.subrange(0, i + 1).last() == chunk@);
        i = i + 1;
    }
    assert(es.subrange(0, i as int) =~= es);
    assert(cs.subrange(0, i as int) =~= cs);
    data
}

/// Entries with their offsets and lengths XOR-ed with `key`.
pub open spec fn xor_entries(es: Seq<EntryTerm>, key: u64) -> Seq<EntryTerm> {
    Seq::new(es.len(), |i: int| (es[i].0 ^ key, es[i].1 ^ key, es[i].2))
}

/// An index with every offset and length XOR-ed with `key`.
pub open spec fn xor_index(m: Map<Seq<char>, Seq<EntryTerm>>, key: u64) -> Map<Seq<char>, Seq<EntryTerm>> {
    Map::new(|n: Seq<char>| m.contains_key(n), |n: Seq<char>| xor_entries(m[n], key))
}

proof fn lemma_item_entries_xor(items: Seq<PickleTerm>, key: u64)
    ensures
        item_entries(items, key) == xor_entries(item_entries(items, 0), key),
    decreases items.len(),
{
    if items.len() > 0 {
        lemma_item_entries_xor(items.drop_last(), key);
        let rest0 = item_entries(items.drop_last(), 0);
        match item_entry(items.last(), 0) {
            Some(e) => {
                let t = match items.last() {
                    PickleTerm::Tuple(t) => t,
                    PickleTerm::List(t) => t,
                    _ => Seq::empty(),
                };
                let a = int_field(t[0]);
                let b = int_field(t[1]);
                assert(a ^ 0u64 == a && b ^ 0u64 == b) by (bit_vector);
                assert(xor_entries(rest0.push(e), key) =~= xor_entries(rest0, key).push((e.0 ^ key, e.1 ^ key, e.2)));
            },
            None => {},
        }
    } else {
        assert(xor_entries(Seq::<EntryTerm>::empty(), key) =~= Seq::<EntryTerm>::empty());
    }
}

proof fn lemma_index_of_dict_xor(d: Seq<(PickleTerm, PickleTerm)>, key: u64)
    ensures
        index_of_dict(d, key) == xor_index(index_of_dict(d, 0), key),
    decreases d.len(),
{
    if d.len() > 0 {
        lemma_index_of_dict_xor(d.drop_last(), key);
        let v = d.last().1;
        match v {
            PickleTerm::List(items) => lemma_item_entries_xor(items, key),
            _ => {
                assert(xor_entries(Seq::<EntryTerm>::empty(), key) =~= Seq::<EntryTerm>::empty());
            },
        }
        assert(index_of_dict(d, key) =~= xor_index(index_of_dict(d, 0), key));
    } else {
        assert(index_of_dict(d, key) =~= xor_index(index_of_dict(d, 0), key));
    }
}

/// Reading an index with a key is reading it with the key 0, as a
/// version-2.0 archive is read, and then XOR-ing every offset and length
/// with the key: the same files, the same prefixes, in the same order.
pub proof fn lemma_index_key_is_xor(v: PickleTerm, key: u64)
    ensures
        index_of_pickle(v, key) == xor_index(index_of_pickle(v, 0), key),
{
    match v {
        PickleTerm::Dict(d) => lemma_index_of_dict_xor(d, key),
        _ => {
            assert(index_of_pickle(v, key) =~= xor_index(index_of_pickle(v, 0), key));
        },
    }
}

/// The total of the prefix lengths and the entry lengths.
pub open spec fn stored_len(entries: Seq<EntryTerm>) -> int
    decreases entries.len(),
{
    if entries.len() == 0 {
        0
    } else {
        stored_len(entries.drop_last()) + entries.last().2.len() + entries.last().1
    }
}

/// Where the bytes read for each entry are as many as its length says, the
/// file has as many bytes as its prefixes and lengths add up to.
pub proof fn lemma_assembled_len(entries: Seq<EntryTerm>, chunks: Seq<Seq<u8>>)
    requires
        entries.len() == chunks.len(),
        forall|i: int| 0 <= i < entries.len() ==> #[trigger] chunks[i].len() == entries[i].1,
    ensures
        assembled(entries, chunks).len() == stored_len(entries),
    decreases entries.len(),
{
    if entries.len() > 0 {
        let n = entries.len() - 1;
        assert forall|i: int| 0 <= i < n implies #[trigger] chunks.drop_last()[i].len() == entries.drop_last()[i].1 by {
            assert(chunks.drop_last()[i] == chunks[i]);
            assert(entries.drop_last()[i] == entries[i]);
        }
        lemma_assembled_len(entries.drop_last(), chunks.drop_last());
        assert(chunks[n].len() == entries[n].1);
    }
}

/// Why the index of an archive could not be read.
#[derive(Debug, Clone, Copy, PartialEq, Eq, Structural)]
pub enum IndexError {
    /// The index is not a complete zlib stream.
    Decompress,
    /// The decompressed index is not a pickle.
    Unpickle,
}

impl IndexError {
    /// The error's message.
    pub fn message(&self) -> (m: &'static str)
        ensures
            m@ == index_error_message(*self),
    {
        match self {
            IndexError::Decompress => "Failed to decompress index",
            IndexError::Unpickle => "Failed to unpickle RPA index",
        }
    }
}

/// The text of each error.
pub open spec fn index_error_message(e: IndexError) -> Seq<char> {
    match e {
        IndexError::Decompress => "Failed to decompress index"@,
        IndexError::Unpickle => "Failed to unpickle RPA index"@,
    }
}

/// The index stored in an archive, from the bytes at its index offset on:
/// decompressed, unpickled, and read with the archive's key.
pub open spec fn archive_index(compressed: Seq<u8>, key: u64) -> Result<Map<Seq<char>, Seq<EntryTerm>>, IndexError> {
    match reader::zlib_decoded(compressed) {
        None => Err(IndexError::Decompress),
        Some(u) => match pickle::unpickled(u) {
            None => Err(IndexError::Unpickle),
            Some(v) => Ok(index_of_pickle(v, key)),
        },
    }
}

/// Whether the bytes decompress, and what they decompress to unpickles.
pub open spec fn zlib_ok_and_unpickled(compressed: Seq<u8>) -> bool {
    reader::zlib_decoded(compressed) matches Some(u) && pickle::unpickled(u) is Some
}

/// The key of an archive is applied to every offset and length, and to
/// nothing else: reading an index with the key `key` gives what reading it
/// with the key 0 gives, with each offset and length XOR-ed with `key`.
pub proof fn lemma_archive_index_key(compressed: Seq<u8>, key: u64)
    ensures
        archive_index(compressed, key) == match archive_index(compressed, 0) {
            Ok(m) => Ok::<Map<Seq<char>, Seq<EntryTerm>>, IndexError>(xor_index(m, key)),
            Err(e) => Err(e),
        },
        archive_index(compressed, key) matches Ok(m) ==> zlib_ok_and_unpickled(compressed) && m == index_of_pickle(
            pickle::unpickled(reader::zlib_decoded(compressed).unwrap()).unwrap(),
            key,
        ),
{
    if let Some(u) = reader::zlib_decoded(compressed) {
        if let Some(v) = pickle::unpickled(u) {
            lemma_index_key_is_xor(v, key);
        }
    }
}

/// An index item whose first two values are short integers `a` and `b`
/// gives the offset `a` and length `b`, taken as `u64` bits and XOR-ed with
/// the key; a third value that is a byte string is its prefix, one that is a
/// string gives its UTF-8 bytes, and anything else, or no third value, gives
/// none.
pub proof fn lemma_item_fields(t: Seq<PickleTerm>, a: i64, b: i64, key: u64)
    requires
        t.len() >= 2,
        t[0] == PickleTerm::I64(a),
        t[1] == PickleTerm::I64(b),
    ensures
        item_entry(PickleTerm::Tuple(t), key) == item_entry(PickleTerm::List(t), key),
        item_entry(PickleTerm::Tuple(t), key) matches Some(e) && e.0 == (a as u64) ^ key && e.1 == (b as u64) ^ key
            && e.2 == if t.len() >= 3 {
                match t[2] {
                    PickleTerm::Bytes(p) => p,
                    PickleTerm::Str(p) => vstd::utf8::encode_utf8(p),
                    _ => Seq::<u8>::empty(),
                }
            } else {
                Seq::<u8>::empty()
            },
{
}

/// The hexadecimal digits are exactly `0` to `9`, `a` to `f` and `A` to `F`,
/// with their usual values.
pub proof fn lemma_hex_digits()
    ensures
        forall|c: u8| 0x30 <= c <= 0x39 ==> #[trigger] hex_digit(c) == Some((c - 0x30) as int),
        forall|c: u8| 0x61 <= c <= 0x66 ==> #[trigger] hex_digit(c) == Some((c - 0x61 + 10) as int),
        forall|c: u8| 0x41 <= c <= 0x46 ==> #[trigger] hex_digit(c) == Some((c - 0x41 + 10) as int),
        forall|c: u8|
            !(0x30 <= c <= 0x39) && !(0x61 <= c <= 0x66) && !(0x41 <= c <= 0x46) ==> #[trigger] hex_digit(c) is None,
{
}

/// One hexadecimal digit, alone, is read as its value.
pub proof fn lemma_parse_one_hex_digit(c: u8)
    ensures
        0x30 <= c <= 0x39 ==> parse_hex_u64(seq![c]) == Some((c - 0x30) as u64),
        0x61 <= c <= 0x66 ==> parse_hex_u64(seq![c]) == Some((c - 0x61 + 10) as u64),
        0x41 <= c <= 0x46 ==> parse_hex_u64(seq![c]) == Some((c - 0x41 + 10) as u64),
{
    let s = seq![c];
    if hex_digit(c) is Some {
        assert(unsigned_digits(s) == s);
        assert(s.drop_last() =~= Seq::<u8>::empty());
        assert(hex_value(s) == hex_value(s.drop_last()) * 16 + hex_digit(s.last()).unwrap());
    }
}

/// Appending a digit to a number read in base 16 multiplies it by 16 and
/// adds the digit, while the value fits in a `u64`.
pub proof fn lemma_parse_hex_append(s: Seq<u8>, c: u8, v: u64)
    requires
        parse_hex_u64(s) == Some(v),
        hex_digit(c) is Some,
    ensures
        parse_hex_u64(s.push(c)) == if v * 16 + hex_digit(c).unwrap() <= u64::MAX {
            Some((v * 16 + hex_digit(c).unwrap()) as u64)
        } else {
            None::<u64>
        },
{
    let d = unsigned_digits(s);
    let e = unsigned_digits(s.push(c));
    if s[0] == 0x2B {
        assert(e =~= d.push(c));
    } else {
        assert(e =~= d.push(c));
    }
    assert(e.drop_last() =~= d);
    assert forall|i: int| 0 <= i < e.len() implies #[trigger] hex_digit(e[i]) is Some by {
        if i < d.len() {
            assert(e[i] == d[i]);
        }
    }
    assert(e.last() == c);
    assert(hex_value(e) == hex_value(d) * 16 + hex_digit(c).unwrap());
    lemma_hex_value_nonneg(d);
    assert(v == hex_value(d));
}

/// The two accepted headers spell `RPA-3.0 ` and `RPA-2.0 `.
pub proof fn lemma_headers_spell_versions()
    ensures
        rpa3_magic() == "RPA-3.0 "@.map_values(|c: char| c as u8),
        rpa2_magic() == "RPA-2.0 "@.map_values(|c: char| c as u8),
{
    reveal_strlit("RPA-3.0 ");
    reveal_strlit("RPA-2.0 ");
    assert(rpa3_magic() =~= "RPA-3.0 "@.map_values(|c: char| c as u8));
    assert(rpa2_magic() =~= "RPA-2.0 "@.map_values(|c: char| c as u8));
}

/// A version-3.0 header is read from bytes 0 to 16 (the offset) and 17 to
/// 25 (the key): the offset is checked first, and the byte between them and
/// those after the key are not read.
pub proof fn lemma_v3_header_fields(rest: Seq<u8>, other: Seq<u8>)
    requires
        rest.len() >= 25,
        other.len() >= 25,
        rest.subrange(0, 16) == other.subrange(0, 16),
        rest.subrange(17, 25) == other.subrange(17, 25),
    ensures
        v3_header(rest) == v3_header(other),
        parse_hex_u64(rest.subrange(0, 16)) is None ==> v3_header(rest) is Err && v3_header(rest)->Err_0 is OffsetParse,
        parse_hex_u64(rest.subrange(0, 16)) is Some && parse_hex_u64(rest.subrange(17, 25)) is None
            ==> v3_header(rest) is Err && v3_header(rest)->Err_0 is KeyParse,
        parse_hex_u64(rest.subrange(0, 16)) is Some && parse_hex_u64(rest.subrange(17, 25)) is Some
            ==> v3_header(rest) == Ok::<(u64, u64), RpaError>(
            (parse_hex_u64(rest.subrange(0, 16)).unwrap(), parse_hex_u64(rest.subrange(17, 25)).unwrap()),
        ),
{
}

/// A leading `+` is allowed once, before at least one digit; a text with
/// no digit is not a number.
pub proof fn lemma_parse_hex_sign(s: Seq<u8>)
    ensures
        s.len() > 0 && s[0] != 0x2B ==> parse_hex_u64(seq![0x2Bu8] + s) == parse_hex_u64(s),
        parse_hex_u64(Seq::<u8>::empty()) is None,
        parse_hex_u64(seq![0x2Bu8]) is None,
{
    let t = seq![0x2Bu8] + s;
    assert(t.drop_first() =~= s);
    assert(seq![0x2Bu8].drop_first() =~= Seq::<u8>::empty());
}

/// The whitespace trimmed around a version-2.0 offset is what Rust's
/// `char::is_whitespace` accepts: the ASCII tab, line feed, vertical tab,
/// form feed, carriage return and space, and the UTF-8 encodings of U+0085,
/// U+00A0, U+1680, U+2000 to U+200A, U+2028, U+2029, U+202F, U+205F and U+3000.
pub proof fn lemma_whitespace_set()
    ensures
        forall|c: u8| #[trigger] is_ascii_ws(c) <==> (c == 9 || c == 10 || c == 11 || c == 12 || c == 13 || c == 32),
        is_ws2(0xC2, 0x85),
        is_ws2(0xC2, 0xA0),
        is_ws3(0xE1, 0x9A, 0x80),
        forall|c: u8| 0x80 <= c <= 0x8A ==> #[trigger] is_ws3(0xE2, 0x80, c),
        is_ws3(0xE2, 0x80, 0xA8),
        is_ws3(0xE2, 0x80, 0xA9),
        is_ws3(0xE2, 0x80, 0xAF),
        is_ws3(0xE2, 0x81, 0x9F),
        is_ws3(0xE3, 0x80, 0x80),
        forall|a: u8, b: u8| #[trigger] is_ws2(a, b) ==> a == 0xC2 && (b == 0x85 || b == 0xA0),
{
}

/// An index item makes an entry exactly when it is a tuple or list of at
/// least two values.
pub proof fn lemma_item_shape(item: PickleTerm, key: u64)
    ensures
        item_entry(item, key) is Some <==> (item is Tuple && item->Tuple_0.len() >= 2)
            || (item is List && item->List_0.len() >= 2),
{
}

/// A file of one entry is that entry's prefix followed by the bytes read
/// for it; a file of more entries is the file of all but the last entry,
/// followed by the last one's prefix and bytes.
pub proof fn lemma_assembled_order(entries: Seq<EntryTerm>, chunks: Seq<Seq<u8>>, e: EntryTerm, c: Seq<u8>)
    requires
        entries.len() == chunks.len(),
    ensures
        assembled(seq![e], seq![c]) == e.2 + c,
        assembled(entries.push(e), chunks.push(c)) == assembled(entries, chunks) + e.2 + c,
{
    assert(seq![e].drop_last() =~= Seq::<EntryTerm>::empty());
    assert(seq![c].drop_last() =~= Seq::<Seq<u8>>::empty());
    assert(entries.push(e).drop_last() =~= entries);
    assert(chunks.push(c).drop_last() =~= chunks);
    assert(assembled(Seq::<EntryTerm>::empty(), Seq::<Seq<u8>>::empty()) == Seq::<u8>::empty());
    assert(assembled(seq![e], seq![c]) == assembled(seq![e].drop_last(), seq![c].drop_last()) + seq![e].last().2 + seq![c].last());
    assert(Seq::<u8>::empty() + e.2 + c =~= e.2 + c);
}

/// Reads the index of an archive from the bytes at its index offset on, with
/// the archive's key (0 for version 2.0).
pub fn read_index(compressed: &[u8], key: u64) -> (r: Result<RpaIndex, IndexError>)
    ensures
        match r {
            Ok(index) => zlib_ok_and_unpickled(compressed@) && index@ == index_of_pickle(
                pickle::unpickled(reader::zlib_decoded(compressed@).unwrap()).unwrap(),
                key,
            ),
            Err(IndexError::Decompress) => reader::zlib_decoded(compressed@) is None,
            Err(IndexError::Unpickle) => reader::zlib_decoded(compressed@) matches Some(u) && pickle::unpickled(u) is None,
        },
        match r {
            Ok(index) => archive_index(compressed@, key) == Ok::<Map<Seq<char>, Seq<EntryTerm>>, IndexError>(index@),
            Err(e) => archive_index(compressed@, key) == Err::<Map<Seq<char>, Seq<EntryTerm>>, IndexError>(e),
        },
{
    let data = match decompress_data(compressed) {
        Ok(data) => data,
        Err(_) => return Err(IndexError::Decompress),
    };
    match unpickle(data.as_slice()) {
        Some(v) => Ok(RpaIndex::from_pickle(&v, key)),
        None => Err(IndexError::Unpickle),
    }
}

} // verus!
