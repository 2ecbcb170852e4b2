//! The container of a compiled Ren'Py script, and the zlib layer inside it.
//!
//! A version-2 `.rpyc` file starts with the ten bytes `RENPY RPC2`, followed by
//! twelve-byte slot records: slot number, start and length, each a
//! little-endian `u32`. Slot 1 holds the compressed script; slot 0 ends the
//! records. A file without the header is taken to be the compressed script
//! itself.
use vstd::prelude::*;
use std::io::Read;
use crate::pickle::{self, unpickle_script, PickleTerm, PickleValue};

verus! {

/// Why a compiled script could not be read.
#[derive(Debug, Clone, Copy, PartialEq, Eq, Structural)]
pub enum ReaderError {
    /// Slot 1 reaches past the end of the file.
    SlotOutOfBounds,
    /// The records end, or the file does, before slot 1.
    SlotNotFound,
    /// The bytes are not a complete zlib stream.
    Decompress,
    /// The decompressed bytes are not a pickle.
    Unpickle,
}

impl ReaderError {
    /// The error's message.
    pub fn message(&self) -> (m: &'static str)
        ensures
            m@ == reader_error_message(*self),
    {
        match self {
            ReaderError::SlotOutOfBounds => "Invalid slot definition: data out of bounds",
            ReaderError::SlotNotFound => "Could not find slot 1 in RPYC v2 container",
            ReaderError::Decompress => "Failed to decompress zlib data",
            ReaderError::Unpickle => "Failed to unpickle data",
        }
    }
}

/// The text of each error.
pub open spec fn reader_error_message(e: ReaderError) -> Seq<char> {
    match e {
        ReaderError::SlotOutOfBounds => "Invalid slot definition: data out of bounds"@,
        ReaderError::SlotNotFound => "Could not find slot 1 in RPYC v2 container"@,
        ReaderError::Decompress => "Failed to decompress zlib data"@,
        ReaderError::Unpickle => "Failed to unpickle data"@,
    }
}

/// The little-endian `u32` whose first byte is at `at`.
pub open spec fn le_u32(data: Seq<u8>, at: int) -> int {
    data[at] + data[at + 1] * 256 + data[at + 2] * 65536 + data[at + 3] * 16777216
}

/// What the slot records from `pos` on give: the bytes of slot 1, or why
/// there are none.
pub open spec fn scan_slots(data: Seq<u8>, pos: int) -> Result<Seq<u8>, ReaderError>
    decreases data.len() - pos,
{
    if 0 <= pos && pos + 12 <= data.len() {
        let slot = le_u32(data, pos);
        let start = le_u32(data, pos + 4);
        let length = le_u32(data, pos + 8);
        if slot == 0 {
            Err(ReaderError::SlotNotFound)
        } else if slot == 1 {
            if start + length > data.len() {
                Err(ReaderError::SlotOutOfBounds)
            } else {
                Ok(data.subrange(start, start + length))
            }
        } else {
            scan_slots(data, pos + 12)
        }
    } else {
        Err(ReaderError::SlotNotFound)
    }
}

/// What a version-2 container holds: the records start after the ten-byte
/// header.
pub open spec fn v2_container(data: Seq<u8>) -> Result<Seq<u8>, ReaderError> {
    scan_slots(data, 10)
}

/// The header of a version-2 container, `RENPY RPC2`.
pub open spec fn rpyc_v2_magic() -> Seq<u8> {
    seq![0x52u8, 0x45u8, 0x4Eu8, 0x50u8, 0x59u8, 0x20u8, 0x52u8, 0x50u8, 0x43u8, 0x32u8]
}

/// Whether `data` starts with `prefix`.
pub open spec fn has_prefix(data: Seq<u8>, prefix: Seq<u8>) -> bool {
    prefix.len() <= data.len() && data.subrange(0, prefix.len() as int) == prefix
}

/// The compressed script in the bytes of a `.rpyc` file.
pub open spec fn rpyc_payload(data: Seq<u8>) -> Result<Seq<u8>, ReaderError> {
    if has_prefix(data, rpyc_v2_magic()) {
        v2_container(data)
    } else {
        Ok(data)
    }
}

/// Whether `data` starts with `prefix`.
pub fn starts_with(data: &[u8], prefix: &[u8]) -> (r: bool)
    ensures
        r == has_prefix(data@, prefix@),
{
    if prefix.len() > data.len() {
        return false;
    }
    let mut i: usize = 0;
    while i < prefix.len()
        invariant
            i <= prefix@.len(),
            prefix@.len() <= data@.len(),
            forall|k: int| 0 <= k < i ==> data@[k] == prefix@[k],
        decreases prefix@.len() - i,
    {
        if data[i] != prefix[i] {
            assert(data@.subrange(0, prefix@.len() as int)[i as int] != prefix@[i as int]);
            return false;
        }
        i = i + 1;
    }
    assert(data@.subrange(0, prefix@.len() as int) =~= prefix@);
    true
}

/// Reads the little-endian `u32` whose first byte is at `at`.
fn read_le_u32(data: &[u8], at: usize) -> (r: u32)
    requires
        at + 4 <= data@.len(),
    ensures
        r == le_u32(data@, at as int),
{
    let b0 = data[at] as u32;
    let b1 = data[at + 1] as u32;
    let b2 = data[at + 2] as u32;
    let b3 = data[at + 3] as u32;
    b0 + b1 * 256 + b2 * 65536 + b3 * 16777216
}

/// Finds slot 1 in a version-2 container and copies out its bytes.
pub fn parse_v2_container(data: &[u8]) -> (r: Result<Vec<u8>, ReaderError>)
    ensures
        match r {
            Ok(v) => v2_container(data@) == Ok::<Seq<u8>, ReaderError>(v@),
            Err(e) => v2_container(data@) == Err::<Seq<u8>, ReaderError>(e),
        },
{
    let mut position: usize = 10;
    while position <= data.len() && data.len() - position >= 12
        invariant
            10 <= position,
            scan_slots(data@, position as int) == v2_container(data@),
        decreases data@.len() - position,
    {
        let slot = read_le_u32(data, position);
        let start = read_le_u32(data, position + 4);
        let length = read_le_u32(data, position + 8);
        if slot == 0 {
            return Err(ReaderError::SlotNotFound);
        }
        if slot == 1 {
            if (start as u64) + (length as u64) > data.len() as u64 {
                return Err(ReaderError::SlotOutOfBounds);
            }
            let s = start as usize;
            let e = s + length as usize;
            let payload = vstd::slice::slice_to_vec(&data[s..e]);
            return Ok(payload);
        }
        position = position + 12;
    }
    Err(ReaderError::SlotNotFound)
}

/// The compressed script in the bytes of a `.rpyc` file: slot 1 of a
/// version-2 container, or the whole file where it has no version-2 header.
pub fn read_rpyc_bytes(buffer: Vec<u8>) -> (r: Result<Vec<u8>, ReaderError>)
    ensures
        match r {
            Ok(v) => rpyc_payload(buffer@) == Ok::<Seq<u8>, ReaderError>(v@),
            Err(e) => rpyc_payload(buffer@) == Err::<Seq<u8>, ReaderError>(e),
        },
{
    let magic: [u8; 10] = [0x52u8, 0x45u8, 0x4Eu8, 0x50u8, 0x59u8, 0x20u8, 0x52u8, 0x50u8, 0x43u8, 0x32u8];
    assert(magic@ =~= rpyc_v2_magic());
    if starts_with(buffer.as_slice(), &magic) {
        parse_v2_container(buffer.as_slice())
    } else {
        Ok(buffer)
    }
}

proof fn lemma_scan_slots_is_slice(data: Seq<u8>, pos: int)
    ensures
        scan_slots(data, pos) matches Ok(p) ==> exists|start: int|
            0 <= start && start + p.len() <= data.len() && p == #[trigger] data.subrange(start, start + p.len()),
    decreases data.len() - pos,
{
    if 0 <= pos && pos + 12 <= data.len() {
        let slot = le_u32(data, pos);
        let start = le_u32(data, pos + 4);
        if slot != 0 && slot != 1 {
            lemma_scan_slots_is_slice(data, pos + 12);
        } else if slot == 1 {
            if let Ok(p) = scan_slots(data, pos) {
                assert(p.len() == le_u32(data, pos + 8));
                assert(p == data.subrange(start, start + p.len()));
            }
        }
    }
}

/// The payload of a version-2 container is a run of its own bytes.
pub proof fn lemma_v2_payload_is_slice(data: Seq<u8>)
    ensures
        v2_container(data) matches Ok(p) ==> exists|start: int|
            0 <= start && start + p.len() <= data.len() && p == #[trigger] data.subrange(start, start + p.len()),
{
    lemma_scan_slots_is_slice(data, 10);
}

/// A compiled script's tree is its bytes decompressed and then unpickled the
/// way scripts are, with unresolved globals replaced (`unpickled_script`):
/// it is there exactly where both steps succeed.
pub proof fn lemma_script_tree_decodes(compressed: Seq<u8>)
    ensures
        script_tree(compressed) is Ok <==> (zlib_decoded(compressed) matches Some(u) && pickle::unpickled_script(u) is Some),
        script_tree(compressed) matches Ok(v) ==> pickle::unpickled_script(zlib_decoded(compressed).unwrap()) == Some(v),
{
}

/// Whether the four bytes at `at` are `x` written little-endian, as
/// `u32::to_le_bytes` writes it.
pub open spec fn holds_le_u32(data: Seq<u8>, at: int, x: u32) -> bool {
    &&& 0 <= at
    &&& at + 4 <= data.len()
    &&& data[at] == (x & 0xff) as u8
    &&& data[at + 1] == ((x >> 8) & 0xff) as u8
    &&& data[at + 2] == ((x >> 16) & 0xff) as u8
    &&& data[at + 3] == ((x >> 24) & 0xff) as u8
}

/// A number written little-endian is read back as itself.
pub proof fn lemma_le_u32_reads_back(data: Seq<u8>, at: int, x: u32)
    requires
        holds_le_u32(data, at, x),
    ensures
        le_u32(data, at) == x,
{
    let b0 = data[at];
    let b1 = data[at + 1];
    let b2 = data[at + 2];
    let b3 = data[at + 3];
    assert(b0 == (x & 0xff) as u8 && b1 == ((x >> 8) & 0xff) as u8 && b2 == ((x >> 16) & 0xff) as u8
        && b3 == ((x >> 24) & 0xff) as u8 ==> b0 as u32 + (b1 as u32) * 256 + (b2 as u32) * 65536
        + (b3 as u32) * 16777216 == x) by (bit_vector);
    assert(b0 as u32 + (b1 as u32) * 256 + (b2 as u32) * 65536 + (b3 as u32) * 16777216 == b0 + b1
        * 256 + b2 * 65536 + b3 * 16777216) by (bit_vector);
}

/// A record at `pos` whose slot number is neither 0 nor 1 is passed over.
pub proof fn lemma_other_slot_skipped(data: Seq<u8>, pos: int, slot: u32)
    requires
        holds_le_u32(data, pos, slot),
        pos + 12 <= data.len(),
        slot != 0,
        slot != 1,
    ensures
        scan_slots(data, pos) == scan_slots(data, pos + 12),
{
    lemma_le_u32_reads_back(data, pos, slot);
}

/// A record at `pos` with slot number 0 ends the search: there is no slot 1.
pub proof fn lemma_slot_zero_ends(data: Seq<u8>, pos: int)
    requires
        holds_le_u32(data, pos, 0),
        pos + 12 <= data.len(),
    ensures
        scan_slots(data, pos) == Err::<Seq<u8>, ReaderError>(ReaderError::SlotNotFound),
{
    lemma_le_u32_reads_back(data, pos, 0);
}

/// A record at `pos` for slot 1, written as `u32::to_le_bytes` writes its
/// start and length, gives the bytes from start, length of them, where they
/// lie within the file, and is refused otherwise.
pub proof fn lemma_slot_one_read(data: Seq<u8>, pos: int, start: u32, length: u32)
    requires
        holds_le_u32(data, pos, 1),
        holds_le_u32(data, pos + 4, start),
        holds_le_u32(data, pos + 8, length),
    ensures
        start + length <= data.len() ==> scan_slots(data, pos) == Ok::<Seq<u8>, ReaderError>(
            data.subrange(start as int, start + length),
        ),
        start + length > data.len() ==> scan_slots(data, pos) == Err::<Seq<u8>, ReaderError>(
            ReaderError::SlotOutOfBounds,
        ),
{
    lemma_le_u32_reads_back(data, pos, 1);
    lemma_le_u32_reads_back(data, pos + 4, start);
    lemma_le_u32_reads_back(data, pos + 8, length);
}

/// A container whose first record, right after the ten-byte header, is slot
/// 1 gives that slot's bytes.
pub proof fn lemma_first_record_slot_one(data: Seq<u8>, start: u32, length: u32)
    requires
        holds_le_u32(data, 10, 1),
        holds_le_u32(data, 14, start),
        holds_le_u32(data, 18, length),
        start + length <= data.len(),
    ensures
        v2_container(data) == Ok::<Seq<u8>, ReaderError>(data.subrange(start as int, start + length)),
{
    lemma_slot_one_read(data, 10, start, length);
}

/// The header of a version-2 container spells `RENPY RPC2`.
pub proof fn lemma_rpyc_magic_spells_header()
    ensures
        rpyc_v2_magic() == "RENPY RPC2"@.map_values(|c: char| c as u8),
{
    reveal_strlit("RENPY RPC2");
    assert(rpyc_v2_magic() =~= "RENPY RPC2"@.map_values(|c: char| c as u8));
}

/// A file that starts with the version-2 header is read as a container;
/// any other file is its own payload, unchanged.
pub proof fn lemma_rpyc_payload(data: Seq<u8>)
    ensures
        data.len() >= 10 && data.subrange(0, 10) == rpyc_v2_magic() ==> rpyc_payload(data) == v2_container(data),
        !(data.len() >= 10 && data.subrange(0, 10) == rpyc_v2_magic()) ==> rpyc_payload(data) == Ok::<Seq<u8>, ReaderError>(data),
{
}

/// What the zlib decoder of `flate2` yields when it reads `data` to its end:
/// the decompressed bytes of the zlib stream at the start of `data`, or
/// `None` where that stream is corrupt or incomplete.
pub uninterp spec fn zlib_decoded(data: Seq<u8>) -> Option<Seq<u8>>;

/// Decompresses the zlib stream at the start of `data` with
/// `flate2::read::ZlibDecoder`, read to its end with `Read::read_to_end`.
/// Trusted: the result is `zlib_decoded` of the input, `None` where the
/// decoder reports an error.
#[verifier::external_body]
fn zlib_decode(data: &[u8]) -> (r: Option<Vec<u8>>)
    ensures
        match r {
            Some(v) => zlib_decoded(data@) == Some(v@),
            None => zlib_decoded(data@) is None,
        },
{
    let mut decoder = flate2::read::ZlibDecoder::new(data);
    let mut out: Vec<u8> = Vec::new();
    match decoder.read_to_end(&mut out) {
        Ok(_) => Some(out),
        Err(_) => None,
    }
}

/// Decompresses a zlib stream.
pub fn decompress_data(data: &[u8]) -> (r: Result<Vec<u8>, ReaderError>)
    ensures
        match r {
            Ok(v) => zlib_decoded(data@) == Some(v@),
            Err(e) => e == ReaderError::Decompress && zlib_decoded(data@) is None,
        },
{
    match zlib_decode(data) {
        Some(v) => Ok(v),
        None => Err(ReaderError::Decompress),
    }
}

/// The syntax tree a compiled script holds: its compressed bytes
/// decompressed, then unpickled with unresolved globals replaced.
pub open spec fn script_tree(compressed: Seq<u8>) -> Result<PickleTerm, ReaderError> {
    match zlib_decoded(compressed) {
        None => Err(ReaderError::Decompress),
        Some(u) => match pickle::unpickled_script(u) {
            None => Err(ReaderError::Unpickle),
            Some(v) => Ok(v),
        },
    }
}

/// Decompresses a compiled script and unpickles its syntax tree.
pub fn decode_script(compressed: &[u8]) -> (r: Result<PickleValue, ReaderError>)
    ensures
        match r {
            Ok(v) => zlib_decoded(compressed@) matches Some(u) && pickle::unpickled_script(u) == Some(v@),
            Err(ReaderError::Decompress) => zlib_decoded(compressed@) is None,
            Err(ReaderError::Unpickle) => zlib_decoded(compressed@) matches Some(u) && pickle::unpickled_script(u) is None,
            Err(_) => false,
        },
        match r {
            Ok(v) => script_tree(compressed@) == Ok::<PickleTerm, ReaderError>(v@),
            Err(e) => script_tree(compressed@) == Err::<PickleTerm, ReaderError>(e),
        },
{
    let data = decompress_data(compressed)?;
    match unpickle_script(data.as_slice()) {
        Some(v) => Ok(v),
        None => Err(ReaderError::Unpickle),
    }
}

} // verus!
