//! Locating `payload.bin` inside a ZIP archive: the end-of-central-directory
//! search, the ZIP64 records, the central directory entries and the local
//! file header, each read through [`ZipIO`] and stated over the archive's
//! bytes.

use vstd::prelude::*;
use crate::bytes::{has_sig_at, le16, le32, le64, read_le16, read_le32, read_le64, sig_at};
use crate::zip_io::{fits_archive, IoError, ZipIO};

verus! {

pub const EOCD_SIGNATURE: [u8; 4] = [0x50, 0x4b, 0x05, 0x06];
pub const ZIP64_EOCD_LOCATOR_SIGNATURE: [u8; 4] = [0x50, 0x4b, 0x06, 0x07];
pub const ZIP64_EOCD_SIGNATURE: [u8; 4] = [0x50, 0x4b, 0x06, 0x06];
pub const CENTRAL_DIR_HEADER_SIGNATURE: [u8; 4] = [0x50, 0x4b, 0x01, 0x02];
pub const LOCAL_FILE_HEADER_SIGNATURE: [u8; 4] = [0x50, 0x4b, 0x03, 0x04];
/// The magic that opens an OTA payload: `CrAU`.
pub const PAYLOAD_MAGIC: [u8; 4] = [0x43, 0x72, 0x41, 0x55];

/// How far from the end of the archive the end-of-central-directory record
/// is looked for: the longest comment plus the record itself.
pub const EOCD_MAX_SEARCH: u64 = 65557;
/// Bytes read per step of the backward search.
pub const EOCD_CHUNK_SIZE: u64 = 8192;

/// Why a ZIP archive could not be read.
#[derive(Debug, Clone)]
pub enum ZipError {
    Io(IoError),
    EocdNotFound,
    InvalidZip64Structure,
    Zip64LocatorNotFound,
    InvalidZip64Signature,
    InvalidCentralDirectorySignature,
    PayloadNotFound,
    InvalidLocalHeaderSignature,
    CompressedPayload,
    InvalidPayloadMagic,
}

/// The message the command line reports for a ZIP error; a failed read
/// is reported in the reader's own words.
pub open spec fn zip_error_message(e: ZipError) -> Seq<char> {
    match e {
        ZipError::Io(e) => e.message@,
        ZipError::EocdNotFound => "Could not find End of Central Directory record"@,
        ZipError::InvalidZip64Structure => "Invalid ZIP64 structure"@,
        ZipError::Zip64LocatorNotFound => "ZIP64 format indicated but ZIP64 EOCD locator not found"@,
        ZipError::InvalidZip64Signature => "Invalid ZIP64 EOCD signature"@,
        ZipError::InvalidCentralDirectorySignature => "Invalid central directory header signature"@,
        ZipError::PayloadNotFound => "Could not find uncompressed payload.bin in ZIP file"@,
        ZipError::InvalidLocalHeaderSignature => "Invalid local file header signature"@,
        ZipError::CompressedPayload => "payload.bin is compressed, expected uncompressed (STORED)"@,
        ZipError::InvalidPayloadMagic => "Invalid payload file: magic 'CrAU' not found at calculated offset"@,
    }
}

impl ZipError {
    /// The message the command line reports for this error.
    pub fn message(&self) -> (r: String)
        ensures
            r@ == zip_error_message(*self),
    {
        match self {
            ZipError::Io(e) => e.message.clone(),
            ZipError::EocdNotFound => "Could not find End of Central Directory record".to_string(),
            ZipError::InvalidZip64Structure => "Invalid ZIP64 structure".to_string(),
            ZipError::Zip64LocatorNotFound => "ZIP64 format indicated but ZIP64 EOCD locator not found".to_string(),
            ZipError::InvalidZip64Signature => "Invalid ZIP64 EOCD signature".to_string(),
            ZipError::InvalidCentralDirectorySignature => "Invalid central directory header signature".to_string(),
            ZipError::PayloadNotFound => "Could not find uncompressed payload.bin in ZIP file".to_string(),
            ZipError::InvalidLocalHeaderSignature => "Invalid local file header signature".to_string(),
            ZipError::CompressedPayload => "payload.bin is compressed, expected uncompressed (STORED)".to_string(),
            ZipError::InvalidPayloadMagic => "Invalid payload file: magic 'CrAU' not found at calculated offset".to_string(),
        }
    }
}

/// A read through [`ZipIO`] agrees with what the archive's bytes decide:
/// a value is the expected one, and an error other than a failed read is
/// the expected error. `None` stands for a read that leaves the archive,
/// which only a failed read can answer. Where the reader's reads succeed
/// (`reads_ok`) and the bytes decide, no read fails: the result is exactly
/// the expected one.
pub open spec fn agrees<T>(r: Result<T, ZipError>, expected: Option<Result<T, ZipError>>, reads_ok: bool) -> bool {
    &&& r matches Ok(v) ==> expected == Some(Ok::<T, ZipError>(v))
    &&& r matches Err(e) ==> (e is Io || expected == Some(Err::<T, ZipError>(e)))
    &&& reads_ok && expected is Some ==> !(r matches Err(ZipError::Io(_)))
}

pub open spec fn min_int(a: int, b: int) -> int {
    if a < b { a } else { b }
}

/// The last place `p` with `lo <= p` and `p + 4 <= end` where `sig` starts.
pub open spec fn last_sig_in(s: Seq<u8>, lo: int, end: int, sig: Seq<u8>) -> Option<int>
    decreases end - lo,
{
    if end - lo < 4 {
        None
    } else if has_sig_at(s, end - 4, sig) {
        Some(end - 4)
    } else {
        last_sig_in(s, lo, end - 1, sig)
    }
}

/// The lowest offset at which the end-of-central-directory record is
/// looked for: the record and the longest comment reach back
/// [`EOCD_MAX_SEARCH`] bytes from the end.
pub open spec fn eocd_floor(s: Seq<u8>) -> int {
    s.len() - min_int(s.len() as int, EOCD_MAX_SEARCH as int)
}

/// Where the end-of-central-directory record of `s` is found: the last
/// place in the searched tail where its signature starts.
pub open spec fn spec_find_eocd(s: Seq<u8>) -> Option<int> {
    last_sig_in(s, eocd_floor(s), s.len() as int, EOCD_SIGNATURE@)
}

/// The offset of the end-of-central-directory record and its entry count.
pub open spec fn spec_eocd(s: Seq<u8>) -> Option<Result<(u64, u16), ZipError>> {
    match spec_find_eocd(s) {
        None => Some(Err(ZipError::EocdNotFound)),
        Some(p) => if p + 12 <= s.len() {
            Some(Ok((p as u64, le16(s, p + 10) as u16)))
        } else {
            None
        },
    }
}

proof fn lemma_last_sig_bounds(s: Seq<u8>, lo: int, end: int, sig: Seq<u8>)
    ensures
        last_sig_in(s, lo, end, sig) matches Some(p) ==> lo <= p && p + 4 <= end && has_sig_at(s, p, sig),
    decreases end - lo,
{
    if end - lo >= 4 && !has_sig_at(s, end - 4, sig) {
        lemma_last_sig_bounds(s, lo, end - 1, sig);
    }
}

/// A search from `lo` finds what a search from `mid` finds; where that
/// finds nothing, it finds what a search ending three bytes past `mid`
/// finds (a signature starting below `mid` ends before `mid + 4`).
proof fn lemma_last_sig_split(s: Seq<u8>, lo: int, mid: int, end: int, sig: Seq<u8>)
    requires
        lo <= mid <= end,
    ensures
        last_sig_in(s, lo, end, sig) == match last_sig_in(s, mid, end, sig) {
            Some(p) => Some(p),
            None => last_sig_in(s, lo, min_int(end, mid + 3), sig),
        },
    decreases end - mid,
{
    if end - mid >= 4 && !has_sig_at(s, end - 4, sig) {
        lemma_last_sig_split(s, lo, mid, end - 1, sig);
    }
}

/// The place found is the last one: no signature starts after it.
proof fn lemma_last_sig_is_last(s: Seq<u8>, lo: int, end: int, sig: Seq<u8>)
    ensures
        match last_sig_in(s, lo, end, sig) {
            Some(p) => forall|q: int| p < q && q + 4 <= end ==> !has_sig_at(s, q, sig),
            None => forall|q: int| lo <= q && q + 4 <= end ==> !has_sig_at(s, q, sig),
        },
    decreases end - lo,
{
    if end - lo >= 4 && !has_sig_at(s, end - 4, sig) {
        lemma_last_sig_is_last(s, lo, end - 1, sig);
        assert forall|q: int| lo <= q && q + 4 <= end && q + 4 > end - 1 implies !has_sig_at(s, q, sig) by {
            assert(q == end - 4);
        }
    }
}

proof fn lemma_last_sig_shift(s: Seq<u8>, a: int, n: int, e: int, sig: Seq<u8>)
    requires
        0 <= a,
        a + n <= s.len(),
        0 <= e <= n,
    ensures
        match last_sig_in(s.subrange(a, a + n), 0, e, sig) {
            Some(p) => last_sig_in(s, a, a + e, sig) == Some(p + a),
            None => last_sig_in(s, a, a + e, sig) is None,
        },
    decreases e,
{
    if e >= 4 {
        lemma_last_sig_shift(s, a, n, e - 1, sig);
    }
}

/// The last index of `buf` where `sig` starts.
pub fn last_sig_index(buf: &[u8], sig: &[u8; 4]) -> (r: Option<usize>)
    ensures
        match r {
            Some(i) => last_sig_in(buf@, 0, buf@.len() as int, sig@) == Some(i as int),
            None => last_sig_in(buf@, 0, buf@.len() as int, sig@) is None,
        },
{
    let n = buf.len();
    let mut end = n;
    while end >= 4
        invariant
            end <= n,
            n == buf@.len(),
            last_sig_in(buf@, 0, n as int, sig@) == last_sig_in(buf@, 0, end as int, sig@),
        decreases end,
    {
        if sig_at(buf, end - 4, sig) {
            return Some(end - 4);
        }
        end = end - 1;
    }
    None
}

fn read_or_fail<I: ZipIO>(io: &I, offset: u64, len: usize) -> (r: Result<Vec<u8>, ZipError>)
    ensures
        r matches Ok(v) ==> {
            &&& offset + len <= io.contents().len()
            &&& v@ == io.contents().subrange(offset as int, offset + len)
        },
        r matches Err(e) ==> e is Io,
        io.reads_succeed() && offset + len <= io.contents().len() ==> r is Ok,
{
    match io.read_at(offset, len) {
        Ok(v) => Ok(v),
        Err(e) => Err(ZipError::Io(e)),
    }
}

/// Unit type that holds the ZIP reading operations.
pub struct ZipParser;

impl ZipParser {
    /// Finds the End of Central Directory record: its offset and the number
    /// of entries it declares.
    pub fn find_eocd<I: ZipIO>(io: &I) -> (r: Result<(u64, u16), ZipError>)
        requires
            fits_archive(io.contents().len()),
        ensures
            agrees(r, spec_eocd(io.contents()), io.reads_succeed()),
    {
        let ghost s = io.contents();
        let file_size = match io.size() {
            Ok(n) => n,
            Err(e) => return Err(ZipError::Io(e)),
        };
        let max_search = if file_size < EOCD_MAX_SEARCH { file_size } else { EOCD_MAX_SEARCH };
        let floor = file_size - max_search;
        let mut current = file_size;
        let mut found: Option<u64> = None;
        // Chunks overlap by three bytes, so that a signature across the
        // boundary of two chunks is seen whole in the lower one.
        while current > floor && found.is_none()
            invariant
                file_size == s.len(),
                s == io.contents(),
                fits_archive(s.len()),
                floor == eocd_floor(s),
                floor <= current <= file_size,
                found matches Some(p) ==> spec_find_eocd(s) == Some(p as int) && p + 4 <= s.len(),
                found is None ==> last_sig_in(s, floor as int, current as int, EOCD_SIGNATURE@) == spec_find_eocd(s),
            decreases current,
        {
            let read_size: u64 = if current - floor < EOCD_CHUNK_SIZE { current - floor } else { EOCD_CHUNK_SIZE };
            let read_pos = current - read_size;
            let buf = read_or_fail(io, read_pos, read_size as usize)?;
            proof {
                lemma_last_sig_shift(s, read_pos as int, read_size as int, read_size as int, EOCD_SIGNATURE@);
                lemma_last_sig_bounds(s, read_pos as int, current as int, EOCD_SIGNATURE@);
                lemma_last_sig_bounds(buf@, 0, read_size as int, EOCD_SIGNATURE@);
                lemma_last_sig_split(s, floor as int, read_pos as int, current as int, EOCD_SIGNATURE@);
                assert(buf@ == s.subrange(read_pos as int, read_pos + read_size));
            }
            if read_size >= 4 {
                match last_sig_index(buf.as_slice(), &EOCD_SIGNATURE) {
                    Some(i) => {
                        found = Some(read_pos + i as u64);
                    },
                    None => {},
                }
            }
            if read_pos == floor {
                current = floor;
            } else {
                current = read_pos + 3;
            }
        }
        let eocd_offset = match found {
            Some(p) => p,
            None => return Err(ZipError::EocdNotFound),
        };
        let nb = read_or_fail(io, eocd_offset + 10, 2)?;
        let num_entries = read_le16(nb.as_slice(), 0);
        proof {
            assert(nb@ =~= s.subrange(eocd_offset + 10, eocd_offset + 12));
        }
        Ok((eocd_offset, num_entries))
    }
}


/// An entry of the central directory.
#[derive(Debug, Clone)]
pub struct ZipEntry {
    pub name: String,
    pub uncompressed_size: u64,
    pub compressed_size: u64,
    pub offset: u64,
    pub compression_method: u16,
}

/// What a central directory entry says, with its name as characters.
pub struct SpecZipEntry {
    pub name: Seq<char>,
    pub uncompressed_size: u64,
    pub compressed_size: u64,
    pub offset: u64,
    pub compression_method: u16,
}

impl View for ZipEntry {
    type V = SpecZipEntry;

    open spec fn view(&self) -> SpecZipEntry {
        SpecZipEntry {
            name: self.name@,
            uncompressed_size: self.uncompressed_size,
            compressed_size: self.compressed_size,
            offset: self.offset,
            compression_method: self.compression_method,
        }
    }
}

/// What the archive says of `payload.bin`.
#[derive(Debug, Clone)]
pub struct ZipMetadataInfo {
    pub entry_name: String,
    pub header_offset: u64,
    pub payload_data_offset: u64,
    pub uncompressed_size: u64,
    pub compressed_size: u64,
    pub compression_method: u16,
    pub total_entries: usize,
    pub central_directory_offset: u64,
    pub archive_size: u64,
}

pub struct SpecZipMetadataInfo {
    pub entry_name: Seq<char>,
    pub header_offset: u64,
    pub payload_data_offset: u64,
    pub uncompressed_size: u64,
    pub compressed_size: u64,
    pub compression_method: u16,
    pub total_entries: usize,
    pub central_directory_offset: u64,
    pub archive_size: u64,
}

impl View for ZipMetadataInfo {
    type V = SpecZipMetadataInfo;

    open spec fn view(&self) -> SpecZipMetadataInfo {
        SpecZipMetadataInfo {
            entry_name: self.entry_name@,
            header_offset: self.header_offset,
            payload_data_offset: self.payload_data_offset,
            uncompressed_size: self.uncompressed_size,
            compressed_size: self.compressed_size,
            compression_method: self.compression_method,
            total_entries: self.total_entries,
            central_directory_offset: self.central_directory_offset,
            archive_size: self.archive_size,
        }
    }
}

/// What `String::from_utf8_lossy` makes of a sequence of bytes.
pub uninterp spec fn utf8_lossy(bytes: Seq<u8>) -> Seq<char>;

/// Calls `String::from_utf8_lossy`. Trusted: the result is the name
/// `utf8_lossy` of the bytes, and bytes that are all ASCII come back as the
/// same characters (std documents that valid UTF-8 is returned unchanged);
/// nothing is said here of how invalid sequences are replaced.
#[verifier::external_body]
fn string_from_utf8_lossy(bytes: &[u8]) -> (r: String)
    ensures
        r@ == utf8_lossy(bytes@),
        (forall|i: int| 0 <= i < bytes@.len() ==> bytes@[i] < 0x80) ==> r@ == bytes@.map_values(
            |b: u8| b as char,
        ),
{
    String::from_utf8_lossy(bytes).into_owned()
}

/// The ZIP64 end-of-central-directory values: the central directory's
/// offset and its entry count.
pub open spec fn spec_zip64_eocd(s: Seq<u8>, eocd: int) -> Option<Result<(u64, u64), ZipError>> {
    if eocd < 20 {
        Some(Err(ZipError::InvalidZip64Structure))
    } else if eocd > s.len() {
        None
    } else {
        match last_sig_in(s, eocd - 20, eocd, ZIP64_EOCD_LOCATOR_SIGNATURE@) {
            None => Some(Err(ZipError::Zip64LocatorNotFound)),
            Some(p) => {
                let z = if p + 16 <= eocd { le64(s, p + 8) } else { 0 };
                if z + 56 > s.len() {
                    None
                } else if !has_sig_at(s, z, ZIP64_EOCD_SIGNATURE@) {
                    Some(Err(ZipError::InvalidZip64Signature))
                } else {
                    Some(Ok((le64(s, z + 48) as u64, le64(s, z + 32) as u64)))
                }
            },
        }
    }
}

/// The central directory's offset and entry count, from the ZIP64 record
/// when the classic record holds `0xFFFFFFFF`.
pub open spec fn spec_central_directory_info(s: Seq<u8>) -> Option<Result<(u64, usize), ZipError>> {
    match spec_eocd(s) {
        None => None,
        Some(Err(e)) => Some(Err(e)),
        Some(Ok((p, n))) => if p + 20 > s.len() {
            None
        } else if le32(s, p + 16) == 0xFFFF_FFFF {
            match spec_zip64_eocd(s, p as int) {
                None => None,
                Some(Err(e)) => Some(Err(e)),
                Some(Ok((c, m))) => Some(Ok((c, m as usize))),
            }
        } else {
            Some(Ok((le32(s, p + 16) as u64, n as usize)))
        },
    }
}

/// The ZIP64 extended-information record (header id 1) replaces, in this
/// order, the uncompressed size, the compressed size and the local header
/// offset that hold `0xFFFFFFFF`, as far as the record's data reaches.
pub open spec fn zip64_apply(e: Seq<u8>, fp: int, end: int, us: u64, cs: u64, lho: u64) -> (u64, u64, u64) {
    let (us2, fp2) = if us == 0xFFFF_FFFF && fp + 8 <= end { (le64(e, fp) as u64, fp + 8) } else { (us, fp) };
    let (cs2, fp3) = if cs == 0xFFFF_FFFF && fp2 + 8 <= end { (le64(e, fp2) as u64, fp2 + 8) } else { (cs, fp2) };
    let lho2 = if lho == 0xFFFF_FFFF && fp3 + 8 <= end { le64(e, fp3) as u64 } else { lho };
    (us2, cs2, lho2)
}

/// Walks the extra field from `pos` to the first complete ZIP64 record.
pub open spec fn zip64_scan(e: Seq<u8>, pos: int, us: u64, cs: u64, lho: u64) -> (u64, u64, u64)
    decreases e.len() - pos,
{
    if pos < 0 || pos + 4 > e.len() {
        (us, cs, lho)
    } else {
        let id = le16(e, pos);
        let ds = le16(e, pos + 2);
        if id == 1 && pos + 4 + ds <= e.len() {
            zip64_apply(e, pos + 4, pos + 4 + ds, us, cs, lho)
        } else if pos + 4 + ds > e.len() {
            (us, cs, lho)
        } else {
            zip64_scan(e, pos + 4 + ds, us, cs, lho)
        }
    }
}

pub open spec fn zip64_fields(e: Seq<u8>, us: u64, cs: u64, lho: u64) -> (u64, u64, u64) {
    if lho == 0xFFFF_FFFF || us == 0xFFFF_FFFF || cs == 0xFFFF_FFFF {
        zip64_scan(e, 0, us, cs, lho)
    } else {
        (us, cs, lho)
    }
}

/// The central directory entry at `off` and the offset of the next one.
pub open spec fn spec_cd_entry(s: Seq<u8>, off: int) -> Option<Result<(SpecZipEntry, u64), ZipError>> {
    if off + 46 > s.len() {
        None
    } else if !has_sig_at(s, off, CENTRAL_DIR_HEADER_SIGNATURE@) {
        Some(Err(ZipError::InvalidCentralDirectorySignature))
    } else {
        let fl = le16(s, off + 28);
        let el = le16(s, off + 30);
        let cl = le16(s, off + 32);
        if off + 46 + fl + el > s.len() {
            None
        } else {
            let (us, cs, lho) = zip64_fields(
                s.subrange(off + 46 + fl, off + 46 + fl + el),
                le32(s, off + 24) as u64,
                le32(s, off + 20) as u64,
                le32(s, off + 42) as u64,
            );
            Some(Ok((SpecZipEntry {
                name: utf8_lossy(s.subrange(off + 46, off + 46 + fl)),
                uncompressed_size: us,
                compressed_size: cs,
                offset: lho,
                compression_method: le16(s, off + 10) as u16,
            }, (off + 46 + fl + el + cl) as u64)))
        }
    }
}

/// A name stored in ASCII reads as the same characters: where the name
/// bytes of the central directory entry at `off` are all below `0x80`,
/// `name` is those bytes taken as characters.
pub open spec fn ascii_name_kept(s: Seq<u8>, off: int, name: Seq<char>) -> bool {
    let fl = le16(s, off + 28);
    let bytes = s.subrange(off + 46, off + 46 + fl);
    (forall|i: int| 0 <= i < bytes.len() ==> bytes[i] < 0x80) ==> name == bytes.map_values(|b: u8| b as char)
}

pub open spec fn payload_bin_name() -> Seq<char> {
    seq!['p', 'a', 'y', 'l', 'o', 'a', 'd', '.', 'b', 'i', 'n']
}

/// `payload.bin` at the root of the archive or in any directory.
pub open spec fn is_payload_name(name: Seq<char>) -> bool {
    ||| name == payload_bin_name()
    ||| (name.len() >= 12 && name[name.len() - 12] == '/' && name.subrange(name.len() - 11, name.len() as int)
        == payload_bin_name())
}

/// The first stored (method 0) `payload.bin` among `remaining` entries
/// starting at `off`.
pub open spec fn scan_entries(s: Seq<u8>, off: int, remaining: nat) -> Option<Result<SpecZipEntry, ZipError>>
    decreases remaining,
{
    if remaining == 0 {
        Some(Err(ZipError::PayloadNotFound))
    } else {
        match spec_cd_entry(s, off) {
            None => None,
            Some(Err(e)) => Some(Err(e)),
            Some(Ok((e, next))) => if e.compression_method == 0 && is_payload_name(e.name) {
                Some(Ok(e))
            } else {
                scan_entries(s, next as int, (remaining - 1) as nat)
            },
        }
    }
}

pub open spec fn spec_find_payload_entry(s: Seq<u8>) -> Option<Result<SpecZipEntry, ZipError>> {
    match spec_central_directory_info(s) {
        None => None,
        Some(Err(e)) => Some(Err(e)),
        Some(Ok((cd, n))) => scan_entries(s, cd as int, n as nat),
    }
}

/// Where the data of `entry` starts, past its local file header.
pub open spec fn spec_data_offset(s: Seq<u8>, entry: SpecZipEntry) -> Option<Result<u64, ZipError>> {
    let off = entry.offset as int;
    if off + 30 > s.len() {
        None
    } else if !has_sig_at(s, off, LOCAL_FILE_HEADER_SIGNATURE@) {
        Some(Err(ZipError::InvalidLocalHeaderSignature))
    } else if le16(s, off + 8) != 0 {
        Some(Err(ZipError::CompressedPayload))
    } else {
        Some(Ok((off + 30 + le16(s, off + 26) + le16(s, off + 28)) as u64))
    }
}

pub open spec fn spec_payload_magic(s: Seq<u8>, offset: int) -> Option<Result<(), ZipError>> {
    if offset + 4 > s.len() {
        None
    } else if has_sig_at(s, offset, PAYLOAD_MAGIC@) {
        Some(Ok(()))
    } else {
        Some(Err(ZipError::InvalidPayloadMagic))
    }
}

/// Everything the archive says of its `payload.bin`.
pub open spec fn spec_zip_info(s: Seq<u8>) -> Option<Result<SpecZipMetadataInfo, ZipError>> {
    match spec_central_directory_info(s) {
        None => None,
        Some(Err(e)) => Some(Err(e)),
        Some(Ok((cd, n))) => match scan_entries(s, cd as int, n as nat) {
            None => None,
            Some(Err(e)) => Some(Err(e)),
            Some(Ok(entry)) => match spec_data_offset(s, entry) {
                None => None,
                Some(Err(e)) => Some(Err(e)),
                Some(Ok(d)) => Some(Ok(SpecZipMetadataInfo {
                    entry_name: entry.name,
                    header_offset: entry.offset,
                    payload_data_offset: d,
                    uncompressed_size: entry.uncompressed_size,
                    compressed_size: entry.compressed_size,
                    compression_method: entry.compression_method,
                    total_entries: n,
                    central_directory_offset: cd,
                    archive_size: s.len() as u64,
                })),
            },
        },
    }
}


/// [`agrees`] for results that carry a [`ZipEntry`], by its view.
pub open spec fn entry_agrees(
    r: Result<(ZipEntry, u64), ZipError>,
    expected: Option<Result<(SpecZipEntry, u64), ZipError>>,
    reads_ok: bool,
) -> bool {
    &&& r matches Ok((v, next)) ==> expected == Some(Ok::<(SpecZipEntry, u64), ZipError>((v@, next)))
    &&& r matches Err(e) ==> (e is Io || expected == Some(Err::<(SpecZipEntry, u64), ZipError>(e)))
    &&& reads_ok && expected is Some ==> !(r matches Err(ZipError::Io(_)))
}

fn zip64_apply_exec(e: &[u8], fp: usize, end: usize, us: u64, cs: u64, lho: u64) -> (r: (u64, u64, u64))
    requires
        end <= e@.len(),
        e@.len() <= 0xFFFF,
        fp <= end,
    ensures
        r == zip64_apply(e@, fp as int, end as int, us, cs, lho),
{
    let mut fp = fp;
    let mut us = us;
    let mut cs = cs;
    let mut lho = lho;
    if us == 0xFFFF_FFFF && fp + 8 <= end {
        us = read_le64(e, fp);
        fp = fp + 8;
    }
    if cs == 0xFFFF_FFFF && fp + 8 <= end {
        cs = read_le64(e, fp);
        fp = fp + 8;
    }
    if lho == 0xFFFF_FFFF && fp + 8 <= end {
        lho = read_le64(e, fp);
    }
    (us, cs, lho)
}

/// Applies the ZIP64 extended information of an extra field.
pub fn zip64_extra_fields(e: &[u8], us: u64, cs: u64, lho: u64) -> (r: (u64, u64, u64))
    requires
        e@.len() <= 0xFFFF,
    ensures
        r == zip64_fields(e@, us, cs, lho),
{
    if !(lho == 0xFFFF_FFFF || us == 0xFFFF_FFFF || cs == 0xFFFF_FFFF) {
        return (us, cs, lho);
    }
    let n = e.len();
    let mut pos: usize = 0;
    while pos + 4 <= n
        invariant
            n == e@.len(),
            n <= 0xFFFF,
            pos <= n + 0x1_0003,
            zip64_scan(e@, pos as int, us, cs, lho) == zip64_scan(e@, 0, us, cs, lho),
        decreases n + 0x1_0004 - pos,
    {
        let id = read_le16(e, pos);
        let ds = read_le16(e, pos + 2) as usize;
        if id == 1 && pos + 4 + ds <= n {
            return zip64_apply_exec(e, pos + 4, pos + 4 + ds, us, cs, lho);
        }
        pos = pos + 4 + ds;
    }
    (us, cs, lho)
}

/// Whether `name` is `payload.bin` or ends in `/payload.bin`.
pub fn is_payload_entry_name(name: &str) -> (r: bool)
    ensures
        r == is_payload_name(name@),
{
    let target: [char; 11] = ['p', 'a', 'y', 'l', 'o', 'a', 'd', '.', 'b', 'i', 'n'];
    assert(target@ =~= payload_bin_name());
    let n = name.unicode_len();
    if n < 11 {
        return false;
    }
    let start = n - 11;
    let mut k: usize = 0;
    while k < 11
        invariant
            n == name@.len(),
            start + 11 == n,
            k <= 11,
            target@ == payload_bin_name(),
            forall|j: int| 0 <= j < k ==> name@[start + j] == payload_bin_name()[j],
        decreases 11 - k,
    {
        if name.get_char(start + k) != target[k] {
            proof {
                assert(name@.subrange(start as int, n as int)[k as int] != payload_bin_name()[k as int]);
            }
            return false;
        }
        k = k + 1;
    }
    assert(name@.subrange(start as int, n as int) =~= payload_bin_name());
    if n == 11 {
        assert(name@ =~= payload_bin_name());
        return true;
    }
    name.get_char(start - 1) == '/'
}

impl ZipParser {
    /// Reads the ZIP64 end-of-central-directory record through the locator
    /// that precedes the classic record at `eocd_offset`.
    pub fn read_zip64_eocd<I: ZipIO>(io: &I, eocd_offset: u64) -> (r: Result<(u64, u64), ZipError>)
        ensures
            agrees(r, spec_zip64_eocd(io.contents(), eocd_offset as int), io.reads_succeed()),
            eocd_offset < 20 ==> r matches Err(ZipError::InvalidZip64Structure),
    {
        let ghost s = io.contents();
        if eocd_offset < 20 {
            return Err(ZipError::InvalidZip64Structure);
        }
        let search_start = eocd_offset - 20;
        let buffer = read_or_fail(io, search_start, 20)?;
        proof {
            lemma_last_sig_shift(s, search_start as int, 20, 20, ZIP64_EOCD_LOCATOR_SIGNATURE@);
            lemma_last_sig_bounds(buffer@, 0, 20, ZIP64_EOCD_LOCATOR_SIGNATURE@);
        }
        let mut zip64_offset: u64 = 0;
        match last_sig_index(buffer.as_slice(), &ZIP64_EOCD_LOCATOR_SIGNATURE) {
            None => return Err(ZipError::Zip64LocatorNotFound),
            Some(i) => {
                if i + 16 <= buffer.len() {
                    zip64_offset = read_le64(buffer.as_slice(), i + 8);
                    proof {
                        assert(le64(buffer@, i + 8) == le64(s, search_start + i + 8));
                    }
                }
            },
        }
        let z = read_or_fail(io, zip64_offset, 56)?;
        if !sig_at(z.as_slice(), 0, &ZIP64_EOCD_SIGNATURE) {
            return Err(ZipError::InvalidZip64Signature);
        }
        let cd_offset = read_le64(z.as_slice(), 48);
        let num_entries = read_le64(z.as_slice(), 32);
        proof {
            assert(le64(z@, 48) == le64(s, zip64_offset + 48));
            assert(le64(z@, 32) == le64(s, zip64_offset + 32));
        }
        Ok((cd_offset, num_entries))
    }

    /// The central directory's offset and number of entries.
    pub fn get_central_directory_info<I: ZipIO>(io: &I) -> (r: Result<(u64, usize), ZipError>)
        requires
            fits_archive(io.contents().len()),
        ensures
            agrees(r, spec_central_directory_info(io.contents()), io.reads_succeed()),
    {
        let ghost s = io.contents();
        let (eocd_offset, num_entries) = Self::find_eocd(io)?;
        proof {
            assert(spec_eocd(s) == Some(Ok::<(u64, u16), ZipError>((eocd_offset, num_entries))));
            lemma_last_sig_bounds(s, eocd_floor(s), s.len() as int, EOCD_SIGNATURE@);
            assert(eocd_offset + 12 <= s.len());
        }
        let b = read_or_fail(io, eocd_offset + 16, 4)?;
        let cd_offset = read_le32(b.as_slice(), 0) as u64;
        proof {
            assert(le32(b@, 0) == le32(s, eocd_offset + 16));
        }
        if cd_offset == 0xFFFF_FFFF {
            let (real_cd_offset, real_num_entries) = Self::read_zip64_eocd(io, eocd_offset)?;
            Ok((real_cd_offset, #[verifier::truncate] (real_num_entries as usize)))
        } else {
            Ok((cd_offset, num_entries as usize))
        }
    }

    /// Reads the central directory entry at `offset`; returns it with the
    /// offset of the entry that follows.
    pub fn read_central_directory_entry<I: ZipIO>(io: &I, offset: u64) -> (r: Result<(ZipEntry, u64), ZipError>)
        requires
            fits_archive(io.contents().len()),
        ensures
            entry_agrees(r, spec_cd_entry(io.contents(), offset as int), io.reads_succeed()),
            r matches Ok((v, _)) ==> ascii_name_kept(io.contents(), offset as int, v.name@),
    {
        let ghost s = io.contents();
        let h = read_or_fail(io, offset, 46)?;
        if !sig_at(h.as_slice(), 0, &CENTRAL_DIR_HEADER_SIGNATURE) {
            return Err(ZipError::InvalidCentralDirectorySignature);
        }
        let compression_method = read_le16(h.as_slice(), 10);
        let filename_len = read_le16(h.as_slice(), 28) as usize;
        let extra_len = read_le16(h.as_slice(), 30) as usize;
        let comment_len = read_le16(h.as_slice(), 32) as usize;
        let local_header_offset = read_le32(h.as_slice(), 42) as u64;
        let compressed_size = read_le32(h.as_slice(), 20) as u64;
        let uncompressed_size = read_le32(h.as_slice(), 24) as u64;
        proof {
            assert(le16(h@, 10) == le16(s, offset + 10));
            assert(le16(h@, 28) == le16(s, offset + 28));
            assert(le16(h@, 30) == le16(s, offset + 30));
            assert(le16(h@, 32) == le16(s, offset + 32));
            assert(le32(h@, 42) == le32(s, offset + 42));
            assert(le32(h@, 20) == le32(s, offset + 20));
            assert(le32(h@, 24) == le32(s, offset + 24));
        }
        let filename = read_or_fail(io, offset + 46, filename_len)?;
        let extra = read_or_fail(io, offset + 46 + filename_len as u64, extra_len)?;
        let (us, cs, lho) = zip64_extra_fields(extra.as_slice(), uncompressed_size, compressed_size, local_header_offset);
        let next_offset = offset + 46 + filename_len as u64 + extra_len as u64 + comment_len as u64;
        let name = string_from_utf8_lossy(filename.as_slice());
        let entry = ZipEntry {
            name,
            uncompressed_size: us,
            compressed_size: cs,
            offset: lho,
            compression_method,
        };
        Ok((entry, next_offset))
    }

    /// Finds the stored (uncompressed) `payload.bin` entry, at the root or
    /// in any directory, walking the central directory in order.
    pub fn find_payload_entry<I: ZipIO>(io: &I) -> (r: Result<ZipEntry, ZipError>)
        requires
            fits_archive(io.contents().len()),
        ensures
            r matches Ok(v) ==> spec_find_payload_entry(io.contents()) == Some(Ok::<SpecZipEntry, ZipError>(v@)),
            r matches Err(e) ==> (e is Io || spec_find_payload_entry(io.contents()) == Some(
                Err::<SpecZipEntry, ZipError>(e),
            )),
            io.reads_succeed() && spec_find_payload_entry(io.contents()) is Some ==> !(r matches Err(
                ZipError::Io(_),
            )),
    {
        let ghost s = io.contents();
        let (cd_offset, num_entries) = Self::get_central_directory_info(io)?;
        let mut current_offset = cd_offset;
        let mut i: usize = 0;
        while i < num_entries
            invariant
                s == io.contents(),
                fits_archive(s.len()),
                i <= num_entries,
                spec_find_payload_entry(s) == scan_entries(s, current_offset as int, (num_entries - i) as nat),
            decreases num_entries - i,
        {
            let (entry, next_offset) = Self::read_central_directory_entry(io, current_offset)?;
            current_offset = next_offset;
            i = i + 1;
            if entry.compression_method != 0 {
                continue;
            }
            if is_payload_entry_name(entry.name.as_str()) {
                return Ok(entry);
            }
        }
        Err(ZipError::PayloadNotFound)
    }

    /// The offset at which the data of `entry` starts, after its local
    /// file header; the entry must be stored, not compressed.
    pub fn get_data_offset<I: ZipIO>(io: &I, entry: &ZipEntry) -> (r: Result<u64, ZipError>)
        requires
            fits_archive(io.contents().len()),
        ensures
            agrees(r, spec_data_offset(io.contents(), entry@), io.reads_succeed()),
    {
        let ghost s = io.contents();
        let h = read_or_fail(io, entry.offset, 30)?;
        if !sig_at(h.as_slice(), 0, &LOCAL_FILE_HEADER_SIGNATURE) {
            return Err(ZipError::InvalidLocalHeaderSignature);
        }
        let local_compression = read_le16(h.as_slice(), 8);
        proof {
            assert(le16(h@, 8) == le16(s, entry.offset + 8));
            assert(le16(h@, 26) == le16(s, entry.offset + 26));
            assert(le16(h@, 28) == le16(s, entry.offset + 28));
        }
        if local_compression != 0 {
            return Err(ZipError::CompressedPayload);
        }
        let local_filename_len = read_le16(h.as_slice(), 26) as u64;
        let local_extra_len = read_le16(h.as_slice(), 28) as u64;
        Ok(entry.offset + 30 + local_filename_len + local_extra_len)
    }

    /// Checks that the payload magic `CrAU` stands at `offset`.
    pub fn verify_payload_magic<I: ZipIO>(io: &I, offset: u64) -> (r: Result<(), ZipError>)
        ensures
            agrees(r, spec_payload_magic(io.contents(), offset as int), io.reads_succeed()),
    {
        let m = read_or_fail(io, offset, 4)?;
        if !sig_at(m.as_slice(), 0, &PAYLOAD_MAGIC) {
            return Err(ZipError::InvalidPayloadMagic);
        }
        Ok(())
    }

    /// Everything the archive says of its `payload.bin`.
    pub fn get_zip_info<I: ZipIO>(io: &I) -> (r: Result<ZipMetadataInfo, ZipError>)
        requires
            fits_archive(io.contents().len()),
        ensures
            r matches Ok(v) ==> spec_zip_info(io.contents()) == Some(Ok::<SpecZipMetadataInfo, ZipError>(v@)),
            r matches Err(e) ==> (e is Io || spec_zip_info(io.contents()) == Some(
                Err::<SpecZipMetadataInfo, ZipError>(e),
            )),
            io.reads_succeed() && spec_zip_info(io.contents()) is Some ==> !(r matches Err(ZipError::Io(_))),
    {
        let archive_size = match io.size() {
            Ok(n) => n,
            Err(e) => return Err(ZipError::Io(e)),
        };
        let (cd_offset, num_entries) = Self::get_central_directory_info(io)?;
        let entry = Self::find_payload_entry(io)?;
        let payload_data_offset = Self::get_data_offset(io, &entry)?;
        Ok(ZipMetadataInfo {
            entry_name: entry.name,
            header_offset: entry.offset,
            payload_data_offset,
            uncompressed_size: entry.uncompressed_size,
            compressed_size: entry.compressed_size,
            compression_method: entry.compression_method,
            total_entries: num_entries,
            central_directory_offset: cd_offset,
            archive_size,
        })
    }
}


/// The record the search finds starts with the end-of-central-directory
/// signature, lies within the archive and within the searched tail, and
/// is the last such signature there; where none is found, the tail holds
/// no signature at all.
pub proof fn lemma_eocd_signature(s: Seq<u8>)
    ensures
        match spec_find_eocd(s) {
            Some(p) => {
                &&& has_sig_at(s, p, EOCD_SIGNATURE@)
                &&& eocd_floor(s) <= p
                &&& p + 4 <= s.len()
                &&& forall|q: int| p < q && q + 4 <= s.len() ==> !has_sig_at(s, q, EOCD_SIGNATURE@)
            },
            None => forall|q: int| eocd_floor(s) <= q && q + 4 <= s.len() ==> !has_sig_at(s, q, EOCD_SIGNATURE@),
        },
{
    lemma_last_sig_bounds(s, eocd_floor(s), s.len() as int, EOCD_SIGNATURE@);
    lemma_last_sig_is_last(s, eocd_floor(s), s.len() as int, EOCD_SIGNATURE@);
}

/// The last chunk of the archive is searched first: the last signature in
/// its final [`EOCD_CHUNK_SIZE`] bytes is the record found.
pub proof fn lemma_eocd_last_in_tail(s: Seq<u8>)
    ensures
        last_sig_in(s, s.len() - min_int(s.len() as int, EOCD_CHUNK_SIZE as int), s.len() as int, EOCD_SIGNATURE@) matches Some(
            p,
        ) ==> spec_find_eocd(s) == Some(p),
{
    lemma_last_sig_split(
        s,
        eocd_floor(s),
        s.len() - min_int(s.len() as int, EOCD_CHUNK_SIZE as int),
        s.len() as int,
        EOCD_SIGNATURE@,
    );
}

/// The entry the walk of the central directory returns is stored
/// (compression method 0) and named `payload.bin`, at the root or in a
/// directory.
pub proof fn lemma_payload_entry_found(s: Seq<u8>, off: int, n: nat)
    ensures
        scan_entries(s, off, n) matches Some(Ok(e)) ==> e.compression_method == 0 && is_payload_name(e.name),
    decreases n,
{
    if n > 0 {
        if let Some(Ok((e, next))) = spec_cd_entry(s, off) {
            lemma_payload_entry_found(s, next as int, (n - 1) as nat);
        }
    }
}

/// What the archive says of `payload.bin`: a stored entry so named,
/// whose data starts after its local header, which carries the local
/// header signature; the archive size is the archive's length.
pub proof fn lemma_zip_info_layout(s: Seq<u8>)
    requires
        fits_archive(s.len()),
    ensures
        spec_zip_info(s) matches Some(Ok(i)) ==> {
            &&& i.compression_method == 0
            &&& is_payload_name(i.entry_name)
            &&& i.payload_data_offset >= i.header_offset + 30
            &&& has_sig_at(s, i.header_offset as int, LOCAL_FILE_HEADER_SIGNATURE@)
            &&& i.archive_size == s.len()
        },
{
    if let Some(Ok((cd, n))) = spec_central_directory_info(s) {
        lemma_payload_entry_found(s, cd as int, n as nat);
    }
}

} // verus!
