//! Random access to the bytes of an archive or a payload.

use vstd::prelude::*;

verus! {

/// A failed read, with the reader's own description of what went wrong.
#[derive(Debug, Clone)]
pub struct IoError {
    pub message: String,
}

/// Largest archive this library addresses: offsets stay signed 64-bit
/// seek positions, as file and HTTP range offsets are.
pub open spec fn fits_archive(len: nat) -> bool {
    len <= i64::MAX
}

/// A source of bytes that can be read at any offset: a local file, a
/// remote object fetched by range requests, a window inside a ZIP file,
/// or a buffer in memory.
///
/// Implementations promise that a successful read hands back exactly the
/// bytes of `contents` at the requested place; a read may fail for
/// reasons of their own, and must fail when the range leaves `contents`.
/// A source whose reads inside `contents` never fail says so through
/// `reads_succeed`.
pub trait ZipIO {
    /// The bytes this source stands for.
    spec fn contents(&self) -> Seq<u8>;

    /// Whether every read that stays inside `contents`, and asking the
    /// size, succeed. A buffer in memory promises this; a file or a
    /// network reader, whose reads can fail for reasons of their own,
    /// need not.
    spec fn reads_succeed(&self) -> bool;

    /// The number of bytes of the source.
    fn size(&self) -> (r: Result<u64, IoError>)
        ensures
            r matches Ok(n) ==> n == self.contents().len(),
            self.reads_succeed() ==> r is Ok,
    ;

    /// Reads `len` bytes starting at `offset`.
    fn read_at(&self, offset: u64, len: usize) -> (r: Result<Vec<u8>, IoError>)
        ensures
            r matches Ok(v) ==> {
                &&& offset + len <= self.contents().len()
                &&& v@ == self.contents().subrange(offset as int, offset + len)
            },
            self.reads_succeed() && offset + len <= self.contents().len() ==> r is Ok,
    ;
}

/// Copies `len` bytes of `data` starting at `start`.
pub fn copy_range(data: &[u8], start: usize, len: usize) -> (r: Vec<u8>)
    requires
        start + len <= data@.len(),
    ensures
        r@ == data@.subrange(start as int, start + len),
{
    let mut out: Vec<u8> = Vec::with_capacity(len);
    let dl = data.len();
    let mut k: usize = 0;
    while k < len
        invariant
            k <= len,
            dl == data@.len(),
            start + len <= data@.len(),
            out@ == data@.subrange(start as int, start + k),
        decreases len - k,
    {
        out.push(data[start + k]);
        k = k + 1;
        assert(out@ =~= data@.subrange(start as int, start + k));
    }
    out
}

/// An archive or payload held in memory.
pub struct MemoryIO {
    data: Vec<u8>,
}

impl MemoryIO {
    pub fn new(data: Vec<u8>) -> (r: MemoryIO)
        ensures
            r.contents() == data@,
            r.reads_succeed(),
    {
        MemoryIO { data }
    }
}

impl ZipIO for MemoryIO {
    closed spec fn contents(&self) -> Seq<u8> {
        self.data@
    }

    closed spec fn reads_succeed(&self) -> bool {
        true
    }

    /// The buffer's length; never fails.
    fn size(&self) -> (r: Result<u64, IoError>)
        ensures
            r matches Ok(n) && n == self.contents().len(),
    {
        Ok(self.data.len() as u64)
    }

    /// Succeeds exactly on ranges inside the buffer.
    fn read_at(&self, offset: u64, len: usize) -> (r: Result<Vec<u8>, IoError>)
        ensures
            r is Ok <==> offset + len <= self.contents().len(),
    {
        let n = self.data.len();
        if offset as u128 + len as u128 <= n as u128 {
            Ok(copy_range(self.data.as_slice(), offset as usize, len))
        } else {
            Err(IoError { message: "failed to fill whole buffer".to_string() })
        }
    }
}

} // verus!
