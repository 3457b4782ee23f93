//! The OTA payload header: `CrAU`, the format version, the manifest's
//! size, the metadata signature's size, then the manifest; the data blobs
//! of the operations start after the signature. Also the window over a
//! `payload.bin` stored inside a ZIP archive.

use vstd::prelude::*;
use crate::bytes::{be32, be64, has_sig_at, read_be32, read_be64, sig_at};
use crate::text::{decimal, push_decimal};
use crate::zip::{
    agrees, min_int, zip_error_message, spec_payload_magic, spec_zip_info, SpecZipMetadataInfo, ZipError, ZipMetadataInfo,
    ZipParser, PAYLOAD_MAGIC,
};
use crate::zip_io::{fits_archive, IoError, ZipIO};

verus! {

/// The only payload format version this library reads.
pub const SUPPORTED_PAYLOAD_VERSION: u64 = 2;
/// Bytes before the manifest: magic, version, manifest size, signature size.
pub const PAYLOAD_HEADER_SIZE: u64 = 24;

/// Why a payload could not be read.
#[derive(Debug, Clone)]
pub enum PayloadError {
    Io(IoError),
    Zip(ZipError),
    InvalidMagic,
    UnsupportedVersion(u64),
    SeekBeyondEnd,
}

pub open spec fn unsupported_version_message(v: u64) -> Seq<char> {
    "Unsupported payload version: "@ + decimal(v as nat)
}

/// The message the command line reports for a payload error.
pub open spec fn payload_error_message(e: PayloadError) -> Seq<char> {
    match e {
        PayloadError::Io(io) => io.message@,
        PayloadError::Zip(z) => zip_error_message(z),
        PayloadError::InvalidMagic => "Invalid payload file: magic 'CrAU' not found"@,
        PayloadError::UnsupportedVersion(v) => unsupported_version_message(v),
        PayloadError::SeekBeyondEnd => "Seek beyond payload end"@,
    }
}

impl PayloadError {
    /// The message the command line reports for this error.
    pub fn message(&self) -> (r: String)
        ensures
            r@ == payload_error_message(*self),
    {
        match self {
            PayloadError::Io(e) => e.message.clone(),
            PayloadError::Zip(z) => z.message(),
            PayloadError::InvalidMagic => "Invalid payload file: magic 'CrAU' not found".to_string(),
            PayloadError::UnsupportedVersion(v) => {
                let mut s = String::new();
                s.append("Unsupported payload version: ");
                push_decimal(&mut s, *v);
                s
            },
            PayloadError::SeekBeyondEnd => "Seek beyond payload end".to_string(),
        }
    }
}

/// What the payload header at `b` says: the manifest's bytes and the
/// offset of the data blobs, counted from `b`.
pub open spec fn spec_payload_at(s: Seq<u8>, b: int) -> Option<Result<(Seq<u8>, u64), PayloadError>> {
    if b + 4 > s.len() {
        None
    } else if !has_sig_at(s, b, PAYLOAD_MAGIC@) {
        Some(Err(PayloadError::InvalidMagic))
    } else if b + 12 > s.len() {
        None
    } else if be64(s, b + 4) != SUPPORTED_PAYLOAD_VERSION {
        Some(Err(PayloadError::UnsupportedVersion(be64(s, b + 4) as u64)))
    } else if b + 24 > s.len() {
        None
    } else {
        let m = be64(s, b + 12);
        let g = be32(s, b + 20);
        if b + 24 + (m as usize) > s.len() {
            None
        } else {
            Some(Ok((s.subrange(b + 24, b + 24 + (m as usize)), (24 + (m as usize) + g) as u64)))
        }
    }
}

/// Agreement of a payload read with what the bytes decide, as [`agrees`]:
/// where the reader's reads succeed and the bytes decide, no read fails.
pub open spec fn payload_agrees(
    r: Result<(Vec<u8>, u64), PayloadError>,
    expected: Option<Result<(Seq<u8>, u64), PayloadError>>,
    reads_ok: bool,
) -> bool {
    &&& r matches Ok((m, d)) ==> expected == Some(Ok::<(Seq<u8>, u64), PayloadError>((m@, d)))
    &&& r matches Err(e) ==> (e is Io || expected == Some(Err::<(Seq<u8>, u64), PayloadError>(e)))
    &&& reads_ok && expected is Some ==> !(r matches Err(PayloadError::Io(_)))
}

fn read_or_fail<R: ZipIO>(r: &R, offset: u64, len: usize) -> (res: Result<Vec<u8>, PayloadError>)
    ensures
        res matches Ok(v) ==> {
            &&& offset + len <= r.contents().len()
            &&& v@ == r.contents().subrange(offset as int, offset + len)
        },
        res matches Err(e) ==> e is Io,
        r.reads_succeed() && offset + len <= r.contents().len() ==> res is Ok,
{
    match r.read_at(offset, len) {
        Ok(v) => Ok(v),
        Err(e) => Err(PayloadError::Io(e)),
    }
}

/// Reads the payload header at `base` and the manifest after it; returns
/// the manifest's bytes and the offset of the data blobs from `base`.
pub fn parse_payload_at<R: ZipIO>(reader: &R, base: u64) -> (r: Result<(Vec<u8>, u64), PayloadError>)
    requires
        fits_archive(reader.contents().len()),
    ensures
        payload_agrees(r, spec_payload_at(reader.contents(), base as int), reader.reads_succeed()),
{
    let ghost s = reader.contents();
    let magic = read_or_fail(reader, base, 4)?;
    if !sig_at(magic.as_slice(), 0, &PAYLOAD_MAGIC) {
        return Err(PayloadError::InvalidMagic);
    }
    let vb = read_or_fail(reader, base + 4, 8)?;
    let version = read_be64(vb.as_slice(), 0);
    proof {
        assert(be64(vb@, 0) == be64(s, base + 4));
    }
    if version != SUPPORTED_PAYLOAD_VERSION {
        return Err(PayloadError::UnsupportedVersion(version));
    }
    let sizes = read_or_fail(reader, base + 12, 12)?;
    let manifest_size = read_be64(sizes.as_slice(), 0);
    let metadata_signature_size = read_be32(sizes.as_slice(), 8);
    proof {
        assert(be64(sizes@, 0) == be64(s, base + 12));
        assert(be32(sizes@, 8) == be32(s, base + 20));
    }
    let manifest = read_or_fail(reader, base + 24, #[verifier::truncate] (manifest_size as usize))?;
    let data_offset = PAYLOAD_HEADER_SIZE + manifest.len() as u64 + metadata_signature_size as u64;
    Ok((manifest, data_offset))
}

/// Reads a payload from its first byte: the manifest's bytes and the
/// offset of the data blobs.
pub fn parse_payload<R: ZipIO>(reader: &R) -> (r: Result<(Vec<u8>, u64), PayloadError>)
    requires
        fits_archive(reader.contents().len()),
    ensures
        payload_agrees(r, spec_payload_at(reader.contents(), 0), reader.reads_succeed()),
{
    parse_payload_at(reader, 0)
}


/// The bytes of a stored entry as a reader sees them: from `off`, at most
/// `size` bytes, and no further than the archive reaches.
pub open spec fn window(s: Seq<u8>, off: int, size: int) -> Seq<u8> {
    if off >= s.len() {
        Seq::empty()
    } else if off + size <= s.len() {
        s.subrange(off, off + size)
    } else {
        s.subrange(off, s.len() as int)
    }
}

/// Whether the archive's bytes decide what locating `payload.bin` and
/// checking its magic gives: no read they call for leaves the archive.
pub open spec fn zip_payload_decided(s: Seq<u8>) -> bool {
    match spec_zip_info(s) {
        None => false,
        Some(Err(_)) => true,
        Some(Ok(i)) => spec_payload_magic(s, i.payload_data_offset as int) is Some,
    }
}

/// Whether the archive's bytes decide what reading its payload gives:
/// locating it, checking its magic and reading its header, within the
/// entry's bytes (`in_window`) or within the whole archive.
pub open spec fn zip_payload_parse_decided(s: Seq<u8>, in_window: bool) -> bool {
    &&& zip_payload_decided(s)
    &&& match spec_zip_info(s) {
        Some(Ok(i)) => spec_payload_magic(s, i.payload_data_offset as int) == Some(Ok::<(), ZipError>(())) ==> (
        if in_window {
            spec_payload_at(window(s, i.payload_data_offset as int, i.uncompressed_size as int), 0) is Some
        } else {
            spec_payload_at(s, i.payload_data_offset as int) is Some
        }),
        _ => true,
    }
}

/// How many bytes a read of at most `max` bytes at `pos` gives from a
/// payload of `size` bytes.
pub open spec fn read_count(pos: u64, size: u64, max: usize) -> int {
    if pos >= size { 0 } else if max < size - pos { max as int } else { size - pos }
}

/// A position to seek to, as `std::io::SeekFrom` gives it.
#[derive(Debug, Clone, Copy)]
pub enum SeekFrom {
    Start(u64),
    End(i64),
    Current(i64),
}

/// Where a seek lands before it is checked against the payload's end:
/// offsets from the end or from the current position saturate at 0 and
/// at `u64::MAX`.
pub open spec fn seek_target(size: u64, position: u64, pos: SeekFrom) -> int {
    match pos {
        SeekFrom::Start(o) => o as int,
        SeekFrom::End(o) => if o >= 0 {
            if size + o > u64::MAX { u64::MAX as int } else { size + o }
        } else {
            if size + o < 0 { 0 } else { size + o }
        },
        SeekFrom::Current(o) => if o >= 0 {
            if position + o > u64::MAX { u64::MAX as int } else { position + o }
        } else {
            if position + o < 0 { 0 } else { position + o }
        },
    }
}

/// A seekable reader over `payload.bin` stored inside a ZIP archive.
pub struct ZipPayloadFile<I> {
    io: I,
    payload_offset: u64,
    payload_size: u64,
    position: u64,
}

impl<I: ZipIO> ZipPayloadFile<I> {
    pub closed spec fn archive(&self) -> Seq<u8> {
        self.io.contents()
    }

    /// Whether the reads of the archive succeed.
    pub closed spec fn archive_reads_succeed(&self) -> bool {
        self.io.reads_succeed()
    }

    pub closed spec fn spec_payload_offset(&self) -> u64 {
        self.payload_offset
    }

    pub closed spec fn spec_payload_size(&self) -> u64 {
        self.payload_size
    }

    pub closed spec fn spec_position(&self) -> u64 {
        self.position
    }

    /// The reader's bytes are the entry's window in the archive.
    pub proof fn lemma_contents(&self)
        ensures
            self.contents() == window(self.archive(), self.spec_payload_offset() as int, self.spec_payload_size() as int),
            self.contents().len() <= self.archive().len(),
            self.reads_succeed() == (self.archive_reads_succeed() && fits_archive(self.archive().len())),
    {
    }

    /// Locates `payload.bin` in the archive and checks its magic.
    pub fn new(io: I) -> (r: Result<(Self, ZipMetadataInfo), PayloadError>)
        requires
            fits_archive(io.contents().len()),
        ensures
            r matches Ok((f, info)) ==> {
                &&& spec_zip_info(io.contents()) == Some(Ok::<SpecZipMetadataInfo, ZipError>(info@))
                &&& spec_payload_magic(io.contents(), info.payload_data_offset as int) == Some(Ok::<(), ZipError>(()))
                &&& f.archive() == io.contents()
                &&& f.spec_payload_offset() == info.payload_data_offset
                &&& f.spec_payload_size() == info.uncompressed_size
                &&& f.spec_position() == 0
                &&& f.archive_reads_succeed() == io.reads_succeed()
            },
            io.reads_succeed() && zip_payload_decided(io.contents()) ==> !(r matches Err(PayloadError::Zip(ZipError::Io(_)))),
            r matches Err(e) ==> match e {
                PayloadError::Zip(z) => z is Io || spec_zip_info(io.contents()) == Some(Err::<SpecZipMetadataInfo, ZipError>(z))
                    || (spec_zip_info(io.contents()) matches Some(Ok(i)) && (spec_payload_magic(io.contents(), i.payload_data_offset as int)
                    == Some(Err::<(), ZipError>(z)))),
                _ => false,
            },
    {
        let info = match ZipParser::get_zip_info(&io) {
            Ok(i) => i,
            Err(e) => return Err(PayloadError::Zip(e)),
        };
        match ZipParser::verify_payload_magic(&io, info.payload_data_offset) {
            Ok(()) => {},
            Err(e) => return Err(PayloadError::Zip(e)),
        }
        let f = ZipPayloadFile {
            io,
            payload_offset: info.payload_data_offset,
            payload_size: info.uncompressed_size,
            position: 0,
        };
        Ok((f, info))
    }

    /// The current position, from the start of the payload.
    pub fn position(&self) -> (r: u64)
        ensures
            r == self.spec_position(),
    {
        self.position
    }

    /// Reads up to `max` bytes at the current position, never past the
    /// payload's end, and moves past them.
    pub fn read(&mut self, max: usize) -> (r: Result<Vec<u8>, PayloadError>)
        ensures
            final(self).archive() == old(self).archive(),
            final(self).spec_payload_offset() == old(self).spec_payload_offset(),
            final(self).spec_payload_size() == old(self).spec_payload_size(),
            old(self).spec_position() >= old(self).spec_payload_size() ==> (r matches Ok(v) && v@.len() == 0),
            old(self).reads_succeed() && old(self).spec_position() + read_count(
                old(self).spec_position(),
                old(self).spec_payload_size(),
                max,
            ) <= old(self).contents().len() ==> r is Ok,
            r matches Ok(v) ==> {
                let pos = old(self).spec_position();
                let size = old(self).spec_payload_size();
                let n = read_count(pos, size, max);
                &&& v@.len() == n
                &&& n > 0 ==> v@ == old(self).contents().subrange(pos as int, pos + n)
                &&& final(self).spec_position() == pos + n
            },
            r is Err ==> final(self).spec_position() == old(self).spec_position(),
            r matches Err(e) ==> e is Io,
    {
        let remaining = self.payload_size.saturating_sub(self.position);
        if remaining == 0 {
            return Ok(Vec::new());
        }
        let n: u64 = if (max as u64) < remaining { max as u64 } else { remaining };
        let data = match self.read_at(self.position, n as usize) {
            Ok(v) => v,
            Err(e) => return Err(PayloadError::Io(e)),
        };
        self.position = self.position + n;
        Ok(data)
    }

    /// Moves the position; a target past the payload's end is refused and
    /// leaves the position where it was.
    pub fn seek(&mut self, pos: SeekFrom) -> (r: Result<u64, PayloadError>)
        requires
            !(pos matches SeekFrom::End(o) && o == i64::MIN),
            !(pos matches SeekFrom::Current(o) && o == i64::MIN),
            old(self).spec_payload_offset() + seek_target(
                old(self).spec_payload_size(),
                old(self).spec_position(),
                pos,
            ) <= u64::MAX,
        ensures
            final(self).archive() == old(self).archive(),
            final(self).spec_payload_offset() == old(self).spec_payload_offset(),
            final(self).spec_payload_size() == old(self).spec_payload_size(),
            ({
                let t = seek_target(old(self).spec_payload_size(), old(self).spec_position(), pos);
                &&& t <= old(self).spec_payload_size() ==> r == Ok::<u64, PayloadError>(t as u64)
                    && final(self).spec_position() == t
                &&& t > old(self).spec_payload_size() ==> (r matches Err(PayloadError::SeekBeyondEnd))
                    && final(self).spec_position() == old(self).spec_position()
            }),
    {
        let new_pos = match pos {
            SeekFrom::Start(o) => o,
            SeekFrom::End(o) => if o >= 0 {
                self.payload_size.saturating_add(o as u64)
            } else {
                self.payload_size.saturating_sub((-o) as u64)
            },
            SeekFrom::Current(o) => if o >= 0 {
                self.position.saturating_add(o as u64)
            } else {
                self.position.saturating_sub((-o) as u64)
            },
        };
        if new_pos > self.payload_size {
            return Err(PayloadError::SeekBeyondEnd);
        }
        self.position = new_pos;
        Ok(new_pos)
    }
}

impl<I: ZipIO> ZipIO for ZipPayloadFile<I> {
    closed spec fn contents(&self) -> Seq<u8> {
        window(self.io.contents(), self.payload_offset as int, self.payload_size as int)
    }

    closed spec fn reads_succeed(&self) -> bool {
        self.io.reads_succeed() && fits_archive(self.io.contents().len())
    }

    fn size(&self) -> (r: Result<u64, IoError>) {
        let n = self.io.size()?;
        if self.payload_offset >= n {
            Ok(0)
        } else if self.payload_size <= n - self.payload_offset {
            Ok(self.payload_size)
        } else {
            Ok(n - self.payload_offset)
        }
    }

    fn read_at(&self, offset: u64, len: usize) -> (r: Result<Vec<u8>, IoError>) {
        if offset > self.payload_size || (len as u64) > self.payload_size - offset {
            return Err(IoError { message: "Seek beyond payload end".to_string() });
        }
        if len == 0 && offset == 0 {
            // Nothing to read: the payload's start is always a place to read
            // nothing at, even where the entry lies past the archive's end.
            proof {
                assert(Seq::<u8>::empty() =~= self.contents().subrange(0, 0));
            }
            return Ok(Vec::new());
        }
        let abs = match self.payload_offset.checked_add(offset) {
            Some(a) => a,
            None => return Err(IoError { message: "Seek beyond payload end".to_string() }),
        };
        let v = self.io.read_at(abs, len)?;
        proof {
            assert(v@ =~= self.contents().subrange(offset as int, offset + len));
        }
        Ok(v)
    }
}

/// Reads the payload stored as `payload.bin` in a ZIP archive: the
/// manifest's bytes, the data offset from the payload's start, and what
/// the archive says of the entry.
pub fn parse_local_zip_payload<I: ZipIO>(io: I) -> (r: Result<(Vec<u8>, u64, ZipMetadataInfo), PayloadError>)
    requires
        fits_archive(io.contents().len()),
    ensures
        r matches Ok((m, d, info)) ==> {
            &&& spec_zip_info(io.contents()) == Some(Ok::<SpecZipMetadataInfo, ZipError>(info@))
            &&& spec_payload_at(
                window(io.contents(), info.payload_data_offset as int, info.uncompressed_size as int),
                0,
            ) == Some(Ok::<(Seq<u8>, u64), PayloadError>((m@, d)))
            &&& d <= info.uncompressed_size
        },
        r matches Err(e) ==> match e {
            PayloadError::Io(_) => true,
            PayloadError::Zip(z) => z is Io || spec_zip_info(io.contents()) == Some(Err::<SpecZipMetadataInfo, ZipError>(z))
                || (spec_zip_info(io.contents()) matches Some(Ok(i)) && (spec_payload_magic(io.contents(), i.payload_data_offset as int)
                == Some(Err::<(), ZipError>(z)))),
            PayloadError::SeekBeyondEnd => spec_zip_info(io.contents()) matches Some(Ok(i)) && (spec_payload_at(
                window(io.contents(), i.payload_data_offset as int, i.uncompressed_size as int),
                0,
            ) matches Some(Ok((_, d))) && d > i.uncompressed_size),
            _ => spec_zip_info(io.contents()) matches Some(Ok(i)) && (spec_payload_at(
                window(io.contents(), i.payload_data_offset as int, i.uncompressed_size as int),
                0,
            ) == Some(Err::<(Seq<u8>, u64), PayloadError>(e))),
        },
        io.reads_succeed() && zip_payload_parse_decided(io.contents(), true) ==> {
            &&& !(r matches Err(PayloadError::Io(_)))
            &&& !(r matches Err(PayloadError::Zip(ZipError::Io(_))))
        },
{
    let ghost s = io.contents();
    let (file, info) = ZipPayloadFile::new(io)?;
    proof {
        file.lemma_contents();
    }
    let (manifest, data_offset) = parse_payload(&file)?;
    // Skipping the metadata signature is a seek inside the entry: it may
    // not pass the entry's end.
    if data_offset > info.uncompressed_size {
        return Err(PayloadError::SeekBeyondEnd);
    }
    Ok((manifest, data_offset, info))
}

/// Reads the payload stored in a ZIP archive reached by range reads: the
/// header is read from the entry's data offset onwards.
pub fn parse_remote_payload<I: ZipIO>(io: &I) -> (r: Result<(Vec<u8>, u64, ZipMetadataInfo), PayloadError>)
    requires
        fits_archive(io.contents().len()),
    ensures
        r matches Ok((m, d, info)) ==> {
            &&& spec_zip_info(io.contents()) == Some(Ok::<SpecZipMetadataInfo, ZipError>(info@))
            &&& spec_payload_at(io.contents(), info.payload_data_offset as int) == Some(
                Ok::<(Seq<u8>, u64), PayloadError>((m@, d)),
            )
        },
        r matches Err(e) ==> match e {
            PayloadError::Io(_) => true,
            PayloadError::Zip(z) => z is Io || spec_zip_info(io.contents()) == Some(Err::<SpecZipMetadataInfo, ZipError>(z))
                || (spec_zip_info(io.contents()) matches Some(Ok(i)) && (spec_payload_magic(io.contents(), i.payload_data_offset as int)
                == Some(Err::<(), ZipError>(z)))),
            _ => spec_zip_info(io.contents()) matches Some(Ok(i)) && (spec_payload_at(io.contents(), i.payload_data_offset as int)
                == Some(Err::<(Seq<u8>, u64), PayloadError>(e))),
        },
        io.reads_succeed() && zip_payload_parse_decided(io.contents(), false) ==> {
            &&& !(r matches Err(PayloadError::Io(_)))
            &&& !(r matches Err(PayloadError::Zip(ZipError::Io(_))))
        },
{
    let zip_info = match ZipParser::get_zip_info(io) {
        Ok(i) => i,
        Err(e) => return Err(PayloadError::Zip(e)),
    };
    match ZipParser::verify_payload_magic(io, zip_info.payload_data_offset) {
        Ok(()) => {},
        Err(e) => return Err(PayloadError::Zip(e)),
    }
    let (manifest, data_offset) = parse_payload_at(io, zip_info.payload_data_offset)?;
    Ok((manifest, data_offset, zip_info))
}

/// Reads a payload file reached by range reads: the manifest's bytes, the
/// data offset and the file's length.
pub fn parse_remote_bin_payload<I: ZipIO>(io: &I) -> (r: Result<(Vec<u8>, u64, u64), PayloadError>)
    requires
        fits_archive(io.contents().len()),
    ensures
        r matches Ok((m, d, n)) ==> {
            &&& n == io.contents().len()
            &&& spec_payload_at(io.contents(), 0) == Some(Ok::<(Seq<u8>, u64), PayloadError>((m@, d)))
        },
        r matches Err(e) ==> (e is Io || spec_payload_at(io.contents(), 0) == Some(
            Err::<(Seq<u8>, u64), PayloadError>(e),
        )),
        io.reads_succeed() && spec_payload_at(io.contents(), 0) is Some ==> !(r matches Err(PayloadError::Io(_))),
        payload_agrees(
            match r {
                Ok((m, d, _)) => Ok::<(Vec<u8>, u64), PayloadError>((m, d)),
                Err(e) => Err::<(Vec<u8>, u64), PayloadError>(e),
            },
            spec_payload_at(io.contents(), 0),
            io.reads_succeed(),
        ),
{
    let content_length = match io.size() {
        Ok(n) => n,
        Err(e) => return Err(PayloadError::Io(e)),
    };
    let (manifest, data_offset) = parse_payload(io)?;
    Ok((manifest, data_offset, content_length))
}


/// A payload read at `b` gives the manifest found right after the header
/// and a data offset that skips the header, the manifest and the metadata
/// signature; the magic and the version were those expected.
pub proof fn lemma_payload_layout(s: Seq<u8>, b: int)
    requires
        fits_archive(s.len()),
        0 <= b,
    ensures
        spec_payload_at(s, b) matches Some(Ok((m, d))) ==> {
            &&& has_sig_at(s, b, PAYLOAD_MAGIC@)
            &&& be64(s, b + 4) == SUPPORTED_PAYLOAD_VERSION
            &&& m == s.subrange(b + 24, b + 24 + m.len())
            &&& d == PAYLOAD_HEADER_SIZE + m.len() + be32(s, b + 20)
        },
{
}

/// Reading the window of a stored entry reads the archive at the entry's
/// data offset.
pub proof fn lemma_window_read(s: Seq<u8>, off: int, size: int, o: int, n: int)
    requires
        0 <= off,
        0 <= size,
        0 <= o,
        0 < n,
        o + n <= window(s, off, size).len(),
    ensures
        window(s, off, size).subrange(o, o + n) == s.subrange(off + o, off + o + n),
        off + o + n <= s.len(),
        o + n <= size,
{
    assert(window(s, off, size).subrange(o, o + n) =~= s.subrange(off + o, off + o + n));
}

/// A payload read through the entry's window decides as a read of the
/// whole archive at the entry's data offset does: where the header and
/// manifest lie within the entry, the manifest and data offset are the
/// same (the data offset counted from the payload's start in both).
pub proof fn lemma_window_parse_matches_archive(s: Seq<u8>, off: int, size: int)
    requires
        0 <= off,
        0 <= size,
    ensures
        spec_payload_at(window(s, off, size), 0) is Some ==> spec_payload_at(window(s, off, size), 0)
            == spec_payload_at(s, off),
{
    let w = window(s, off, size);
    if w.len() >= 4 {
        assert forall|k: int| 0 <= k < w.len() implies w[k] == s[off + k] by {}
        assert(w.subrange(0, 4) =~= s.subrange(off, off + 4));
        if w.len() >= 12 {
            assert(be64(w, 4) == be64(s, off + 4));
        }
        if w.len() >= 24 {
            assert(be64(w, 12) == be64(s, off + 12));
            assert(be32(w, 20) == be32(s, off + 20));
            let m = be64(w, 12);
            if 24 + (m as usize) <= w.len() {
                assert(w.subrange(24, 24 + (m as usize)) =~= s.subrange(off + 24, off + 24 + (m as usize)));
            }
        }
    }
}

/// Once `ZipPayloadFile::new` has checked the magic, the payload's first
/// four bytes, read through the reader, are `CrAU` (where the entry holds
/// at least four bytes).
pub proof fn lemma_payload_starts_with_magic(s: Seq<u8>, off: int, size: int)
    requires
        0 <= off,
        size >= 4,
        spec_payload_magic(s, off) == Some(Ok::<(), ZipError>(())),
    ensures
        window(s, off, size).len() >= 4,
        window(s, off, size).subrange(0, 4) == PAYLOAD_MAGIC@,
{
    let w = window(s, off, size);
    assert(w.subrange(0, 4) =~= s.subrange(off, off + 4));
}

/// A payload read at `off` of an archive decides as a read, from its
/// first byte, of the archive's bytes from `off` on: reading the payload
/// of a ZIP archive by range requests at the entry's data offset gives
/// what `parse_payload` gives on the payload's own bytes.
pub proof fn lemma_payload_at_offset(s: Seq<u8>, off: int)
    requires
        0 <= off <= s.len(),
    ensures
        spec_payload_at(s, off) == spec_payload_at(s.subrange(off, s.len() as int), 0),
{
    let t = s.subrange(off, s.len() as int);
    if t.len() >= 4 {
        assert(t.subrange(0, 4) =~= s.subrange(off, off + 4));
        if t.len() >= 12 {
            assert(be64(t, 4) == be64(s, off + 4));
        }
        if t.len() >= 24 {
            assert(be64(t, 12) == be64(s, off + 12));
            assert(be32(t, 20) == be32(s, off + 20));
            let m = be64(t, 12);
            if 24 + (m as usize) <= t.len() {
                assert(t.subrange(24, 24 + (m as usize)) =~= s.subrange(off + 24, off + 24 + (m as usize)));
            }
        }
    }
}

/// The payload read through a ZIP entry's window is the payload read
/// from the entry's bytes alone: `parse_local_zip_payload` gives what
/// `parse_payload` gives on the bytes of the entry (as far as the
/// archive holds them).
pub proof fn lemma_window_is_entry_bytes(s: Seq<u8>, off: int, size: int)
    requires
        0 <= off <= s.len(),
        0 <= size,
    ensures
        window(s, off, size) == s.subrange(off, min_int(off + size, s.len() as int)),
        spec_payload_at(window(s, off, size), 0) == spec_payload_at(
            s.subrange(off, min_int(off + size, s.len() as int)),
            0,
        ),
{
    assert(window(s, off, size) =~= s.subrange(off, min_int(off + size, s.len() as int)));
}

} // verus!
