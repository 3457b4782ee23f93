//! Differential operations: where the source blocks are read, where the
//! target blocks are written, and how the target bytes are made from the
//! source bytes and the patch.

use vstd::prelude::*;
use crate::manifest::{
    lemma_op_name_injective, lemma_op_table_matches_proto, spec_op_code, spec_op_debug_name, spec_op_name, Extent,
    OpType,
};
use crate::text::{decimal, push_decimal};

verus! {

#[verifier::external_type_specification]
#[verifier::external_body]
pub struct ExPathBuf(std::path::PathBuf);

/// The largest source read or patch one operation may take: 512 MiB.
pub const MAX_OPERATION_SIZE: u64 = 536870912;

/// Why a differential operation failed.
#[derive(Debug, Clone)]
pub enum DiffError {
    SourceTooLarge(u64),
    OffsetOverflow(usize),
    LengthOverflow(usize),
    DstOffsetOverflow(usize),
    DataSizeMismatch { expected: u64, got: usize },
    PatchTooLarge(u64),
    Lz4PatchTooLarge(u64),
    PatchFailed { op_type: OpType, message: String },
    PatchedSizeMismatch { expected: u64, got: usize },
    ZucchiniUnsupported,
    NotDiffOperation(OpType),
}

/// Where the blocks of a partition image live for a differential update.
pub struct DiffContext {
    pub source_dir: std::path::PathBuf,
    pub block_size: u64,
}

/// The number of blocks of an extent; a missing count is 0.
pub open spec fn blocks(e: Extent) -> u64 {
    match e.num_blocks {
        Some(n) => n,
        None => 0,
    }
}

/// The first block of an extent; a missing start is 0.
pub open spec fn start(e: Extent) -> u64 {
    match e.start_block {
        Some(n) => n,
        None => 0,
    }
}

/// Bytes covered by extents of blocks of `bs` bytes.
pub open spec fn extents_bytes(ex: Seq<Extent>, bs: u64) -> int
    decreases ex.len(),
{
    if ex.len() == 0 {
        0
    } else {
        extents_bytes(ex.drop_last(), bs) + blocks(ex.last()) * bs
    }
}

/// One read or write: `length` bytes at `offset` in the image, taken from
/// or put at `data_start` in the operation's buffer.
#[derive(Debug, Clone, Copy, PartialEq, Eq, Structural)]
pub struct ExtentStep {
    pub offset: u64,
    pub length: u64,
    pub data_start: u64,
}

/// Reads or writes to perform in order; if `error` is set, the operation
/// fails with it once the steps are done.
#[derive(Debug, Clone)]
pub struct ExtentPlan {
    pub steps: Vec<ExtentStep>,
    pub error: Option<DiffError>,
}

/// The steps for extents `i..`, with the buffer position at `pos`:
/// extents of no blocks are skipped; an extent whose byte offset (or, for
/// reads, byte length) leaves `u64` stops the plan with an error.
pub open spec fn spec_plan(ex: Seq<Extent>, bs: u64, i: int, pos: int, dst: bool) -> (Seq<ExtentStep>, Option<DiffError>)
    decreases ex.len() - i,
{
    if i < 0 || i >= ex.len() {
        (Seq::empty(), None)
    } else {
        let nb = blocks(ex[i]);
        let sb = start(ex[i]);
        if nb == 0 {
            spec_plan(ex, bs, i + 1, pos, dst)
        } else if sb * bs > u64::MAX {
            (Seq::empty(), Some(if dst { DiffError::DstOffsetOverflow(i as usize) } else { DiffError::OffsetOverflow(i as usize) }))
        } else if !dst && nb * bs > u64::MAX {
            (Seq::empty(), Some(DiffError::LengthOverflow(i as usize)))
        } else {
            let rest = spec_plan(ex, bs, i + 1, pos + nb * bs, dst);
            (seq![ExtentStep { offset: (sb * bs) as u64, length: (nb * bs) as u64, data_start: pos as u64 }] + rest.0, rest.1)
        }
    }
}

pub proof fn lemma_mul_nonneg(a: u64, b: u64)
    ensures
        0 <= a * b,
        a >= 1 ==> b <= a * b,
{
    assert(0 <= a * b) by (nonlinear_arith);
    assert(a >= 1 ==> b <= a * b) by (nonlinear_arith);
}

/// Prefix sums of extent sizes never decrease.
pub proof fn lemma_extents_bytes_prefix(ex: Seq<Extent>, bs: u64, i: int, j: int)
    requires
        0 <= i <= j <= ex.len(),
    ensures
        0 <= extents_bytes(ex.take(i), bs) <= extents_bytes(ex.take(j), bs),
    decreases j - i,
{
    if i < j {
        lemma_extents_bytes_prefix(ex, bs, i, j - 1);
        assert(ex.take(j).drop_last() =~= ex.take(j - 1));
        lemma_mul_nonneg(blocks(ex.take(j).last()), bs);
    } else {
        lemma_extents_bytes_nonneg(ex.take(i), bs);
    }
}

pub proof fn lemma_extents_bytes_nonneg(ex: Seq<Extent>, bs: u64)
    ensures
        0 <= extents_bytes(ex, bs),
    decreases ex.len(),
{
    if ex.len() > 0 {
        lemma_extents_bytes_nonneg(ex.drop_last(), bs);
        lemma_mul_nonneg(blocks(ex.last()), bs);
    }
}

/// The bytes covered by `extents`, or `None` where the sum or a product
/// leaves `u64`.
pub fn extents_total(extents: &[Extent], block_size: u64) -> (r: Option<u64>)
    ensures
        match r {
            Some(t) => t == extents_bytes(extents@, block_size),
            None => extents_bytes(extents@, block_size) > u64::MAX,
        },
{
    let n = extents.len();
    let mut total: u64 = 0;
    let mut i: usize = 0;
    while i < n
        invariant
            i <= n,
            n == extents@.len(),
            total == extents_bytes(extents@.take(i as int), block_size),
        decreases n - i,
    {
        let nb = match extents[i].num_blocks {
            Some(v) => v,
            None => 0,
        };
        proof {
            assert(extents@.take(i + 1).drop_last() =~= extents@.take(i as int));
            lemma_extents_bytes_prefix(extents@, block_size, i + 1, n as int);
            assert(extents@.take(n as int) =~= extents@);
            lemma_mul_nonneg(nb, block_size);
        }
        let prod = match nb.checked_mul(block_size) {
            Some(p) => p,
            None => {
                return None;
            },
        };
        total = match total.checked_add(prod) {
            Some(t) => t,
            None => {
                return None;
            },
        };
        i = i + 1;
    }
    assert(extents@.take(n as int) =~= extents@);
    Some(total)
}


/// Where the steps of a plan leave the buffer position.
pub open spec fn plan_end(steps: Seq<ExtentStep>, pos: int) -> int {
    if steps.len() == 0 {
        pos
    } else {
        steps.last().data_start + steps.last().length
    }
}

/// The steps of a plan lie one after the other in the buffer, from `pos`,
/// within the extents' total size; a plan that ends without error fills
/// the buffer up to that size.
pub proof fn lemma_plan_layout(ex: Seq<Extent>, bs: u64, i: int, pos: int, dst: bool)
    requires
        0 <= i <= ex.len(),
        pos == extents_bytes(ex.take(i), bs),
        extents_bytes(ex, bs) <= u64::MAX,
    ensures
        ({
            let (st, err) = spec_plan(ex, bs, i, pos, dst);
            &&& st.len() > 0 ==> st[0].data_start == pos
            &&& forall|k: int| 0 <= k < st.len() - 1 ==> (#[trigger] st[k]).data_start + st[k].length == st[k + 1].data_start
            &&& plan_end(st, pos) <= extents_bytes(ex, bs)
            &&& err is None ==> plan_end(st, pos) == extents_bytes(ex, bs)
        }),
    decreases ex.len() - i,
{
    assert(ex.take(ex.len() as int) =~= ex);
    if i < ex.len() {
        let nb = blocks(ex[i]);
        let sb = start(ex[i]);
        assert(ex.take(i + 1).drop_last() =~= ex.take(i));
        lemma_extents_bytes_prefix(ex, bs, i + 1, ex.len() as int);
        lemma_mul_nonneg(nb, bs);
        let next = pos + nb * bs;
        assert(next == extents_bytes(ex.take(i + 1), bs));
        lemma_extents_bytes_prefix(ex, bs, i, i + 1);
        lemma_plan_layout(ex, bs, i + 1, next, dst);
        if nb != 0 && !(sb * bs > u64::MAX) && !(!dst && nb * bs > u64::MAX) {
            let rest = spec_plan(ex, bs, i + 1, next, dst);
            let st = seq![ExtentStep { offset: (sb * bs) as u64, length: (nb * bs) as u64, data_start: pos as u64 }] + rest.0;
            assert(st == spec_plan(ex, bs, i, pos, dst).0);
            assert forall|k: int| 0 <= k < st.len() - 1 implies (#[trigger] st[k]).data_start + st[k].length == st[k + 1].data_start by {
                if k > 0 {
                    assert(st[k] == rest.0[k - 1]);
                    assert(st[k + 1] == rest.0[k]);
                }
            }
            if rest.0.len() > 0 {
                assert(st.last() == rest.0.last());
            }
        }
    } else {
        assert(ex.take(i) =~= ex);
    }
}

fn plan_extents(extents: &[Extent], block_size: u64, dst: bool) -> (r: ExtentPlan)
    requires
        extents_bytes(extents@, block_size) <= u64::MAX,
    ensures
        (r.steps@, r.error) == spec_plan(extents@, block_size, 0, 0, dst),
{
    let n = extents.len();
    let mut steps: Vec<ExtentStep> = Vec::new();
    let mut pos: u64 = 0;
    let mut i: usize = 0;
    assert(extents@.take(0) =~= Seq::<Extent>::empty());
    while i < n
        invariant
            i <= n,
            n == extents@.len(),
            extents_bytes(extents@, block_size) <= u64::MAX,
            pos == extents_bytes(extents@.take(i as int), block_size),
            spec_plan(extents@, block_size, 0, 0, dst) == (
                steps@ + spec_plan(extents@, block_size, i as int, pos as int, dst).0,
                spec_plan(extents@, block_size, i as int, pos as int, dst).1,
            ),
        decreases n - i,
    {
        let e = extents[i];
        let nb = match e.num_blocks {
            Some(v) => v,
            None => 0,
        };
        let sb = match e.start_block {
            Some(v) => v,
            None => 0,
        };
        proof {
            assert(extents@.take(i + 1).drop_last() =~= extents@.take(i as int));
            lemma_extents_bytes_prefix(extents@, block_size, i + 1, n as int);
            assert(extents@.take(n as int) =~= extents@);
            lemma_mul_nonneg(nb, block_size);
        }
        if nb == 0 {
            i = i + 1;
            continue;
        }
        let offset = match sb.checked_mul(block_size) {
            Some(o) => o,
            None => {
                let err = if dst { DiffError::DstOffsetOverflow(i) } else { DiffError::OffsetOverflow(i) };
                assert(steps@ + Seq::<ExtentStep>::empty() =~= steps@);
                return ExtentPlan { steps, error: Some(err) };
            },
        };
        let length = match nb.checked_mul(block_size) {
            Some(l) => l,
            None => {
                assert(steps@ + Seq::<ExtentStep>::empty() =~= steps@);
                return ExtentPlan { steps, error: Some(DiffError::LengthOverflow(i)) };
            },
        };
        let ghost old_steps = steps@;
        let ghost rest = spec_plan(extents@, block_size, i + 1, pos + length, dst);
        steps.push(ExtentStep { offset, length, data_start: pos });
        proof {
            assert(steps@ + rest.0 =~= old_steps + (seq![ExtentStep { offset, length, data_start: pos }] + rest.0));
        }
        pos = pos + length;
        i = i + 1;
    }
    assert(steps@ + Seq::<ExtentStep>::empty() =~= steps@);
    ExtentPlan { steps, error: None }
}

impl DiffContext {
    pub fn new(source_dir: std::path::PathBuf, block_size: u64) -> (r: Self)
        ensures
            r.source_dir == source_dir,
            r.block_size == block_size,
    {
        DiffContext { source_dir, block_size }
    }

    /// The reads that gather the source blocks of an operation, in order,
    /// each appended to the buffer; sources above [`MAX_OPERATION_SIZE`]
    /// are refused before anything is read.
    pub fn plan_source_reads(&self, extents: &[Extent]) -> (r: Result<ExtentPlan, DiffError>)
        requires
            extents_bytes(extents@, self.block_size) <= u64::MAX,
        ensures
            extents_bytes(extents@, self.block_size) > MAX_OPERATION_SIZE ==> (r matches Err(
                DiffError::SourceTooLarge(t),
            ) && t == extents_bytes(extents@, self.block_size)),
            extents_bytes(extents@, self.block_size) <= MAX_OPERATION_SIZE ==> (r matches Ok(p) && (
            p.steps@, p.error) == spec_plan(extents@, self.block_size, 0, 0, false)),
    {
        let total = match extents_total(extents, self.block_size) {
            Some(t) => t,
            None => 0,
        };
        if total > MAX_OPERATION_SIZE {
            return Err(DiffError::SourceTooLarge(total));
        }
        Ok(plan_extents(extents, self.block_size, false))
    }

    /// The writes that put `data_len` bytes of target data into the
    /// target blocks, in order; data of another size than the blocks
    /// is refused.
    pub fn plan_dst_writes(&self, extents: &[Extent], data_len: usize) -> (r: Result<ExtentPlan, DiffError>)
        requires
            extents_bytes(extents@, self.block_size) <= u64::MAX,
        ensures
            data_len != extents_bytes(extents@, self.block_size) ==> (r matches Err(
                DiffError::DataSizeMismatch { expected, got },
            ) && expected == extents_bytes(extents@, self.block_size) && got == data_len),
            data_len == extents_bytes(extents@, self.block_size) ==> (r matches Ok(p) && (p.steps@, p.error)
                == spec_plan(extents@, self.block_size, 0, 0, true)),
    {
        let expected = match extents_total(extents, self.block_size) {
            Some(t) => t,
            None => 0,
        };
        if data_len as u64 != expected {
            return Err(DiffError::DataSizeMismatch { expected, got: data_len });
        }
        Ok(plan_extents(extents, self.block_size, true))
    }
}


/// What `bsdiff_android::patch_bsdf2` makes of a source and a BSDF2 patch;
/// `None` where it reports an error.
pub uninterp spec fn bsdf2_patched(old: Seq<u8>, patch: Seq<u8>) -> Option<Seq<u8>>;

/// Calls `bsdiff_android::patch_bsdf2` into a fresh buffer. Trusted: the
/// bytes produced, or the failure, are the name `bsdf2_patched` of the
/// source and the patch. Not excluded here: a patch whose header declares
/// a target too large to allocate, on which the allocation aborts.
#[verifier::external_body]
fn bsdf2_patch(old: &[u8], patch: &[u8]) -> (r: Result<Vec<u8>, String>)
    ensures
        match r {
            Ok(v) => bsdf2_patched(old@, patch@) == Some(v@),
            Err(_) => bsdf2_patched(old@, patch@) is None,
        },
{
    let mut out = Vec::new();
    match bsdiff_android::patch_bsdf2(old, patch, &mut out) {
        Ok(()) => Ok(out),
        Err(e) => Err(e.to_string()),
    }
}

/// How the target of a differential operation is made.
#[derive(Debug, Clone, Copy, PartialEq, Eq, Structural)]
pub enum DiffKind {
    /// The source blocks are copied as they are.
    SourceCopy,
    /// A BSDF2 patch (`SOURCE_BSDIFF`, `BROTLI_BSDIFF`).
    Bsdf2,
    /// An lz4diff patch (`LZ4DIFF_BSDIFF`, `LZ4DIFF_PUFFDIFF`).
    Lz4diff,
    /// A puffdiff patch (`PUFFDIFF`).
    Puffdiff,
}

pub open spec fn spec_diff_kind(t: OpType) -> Result<DiffKind, DiffError> {
    match t {
        OpType::SourceCopy => Ok(DiffKind::SourceCopy),
        OpType::SourceBsdiff => Ok(DiffKind::Bsdf2),
        OpType::BrotliBsdiff => Ok(DiffKind::Bsdf2),
        OpType::Lz4diffBsdiff => Ok(DiffKind::Lz4diff),
        OpType::Lz4diffPuffdiff => Ok(DiffKind::Lz4diff),
        OpType::Puffdiff => Ok(DiffKind::Puffdiff),
        OpType::Zucchini => Err(DiffError::ZucchiniUnsupported),
        _ => Err(DiffError::NotDiffOperation(t)),
    }
}

/// How an operation of kind `t` is applied; `ZUCCHINI` is not supported
/// and the full-image kinds are no differential operations.
pub fn classify_diff_operation(t: OpType) -> (r: Result<DiffKind, DiffError>)
    ensures
        r == spec_diff_kind(t),
{
    match t {
        OpType::SourceCopy => Ok(DiffKind::SourceCopy),
        OpType::SourceBsdiff => Ok(DiffKind::Bsdf2),
        OpType::BrotliBsdiff => Ok(DiffKind::Bsdf2),
        OpType::Lz4diffBsdiff => Ok(DiffKind::Lz4diff),
        OpType::Lz4diffPuffdiff => Ok(DiffKind::Lz4diff),
        OpType::Puffdiff => Ok(DiffKind::Puffdiff),
        OpType::Zucchini => Err(DiffError::ZucchiniUnsupported),
        _ => Err(DiffError::NotDiffOperation(t)),
    }
}

pub open spec fn opt_or_zero(o: Option<u64>) -> u64 {
    match o {
        Some(v) => v,
        None => 0,
    }
}

/// Where the patch of an operation lies in the payload: its offset (the
/// payload's data offset plus the operation's) and its length; patches
/// above [`MAX_OPERATION_SIZE`] are refused.
pub fn plan_patch_read(kind: DiffKind, data_offset: u64, op_data_offset: Option<u64>, op_data_length: Option<u64>) -> (r: Result<(u64, u64), DiffError>)
    requires
        data_offset + opt_or_zero(op_data_offset) <= u64::MAX,
    ensures
        opt_or_zero(op_data_length) > MAX_OPERATION_SIZE ==> r == Err::<(u64, u64), DiffError>(
            if kind == DiffKind::Lz4diff {
                DiffError::Lz4PatchTooLarge(opt_or_zero(op_data_length))
            } else {
                DiffError::PatchTooLarge(opt_or_zero(op_data_length))
            },
        ),
        opt_or_zero(op_data_length) <= MAX_OPERATION_SIZE ==> r == Ok::<(u64, u64), DiffError>(
            ((data_offset + opt_or_zero(op_data_offset)) as u64, opt_or_zero(op_data_length)),
        ),
{
    let off = match op_data_offset {
        Some(v) => v,
        None => 0,
    };
    let patch_offset = data_offset + off;
    let patch_length = match op_data_length {
        Some(v) => v,
        None => 0,
    };
    if patch_length > MAX_OPERATION_SIZE {
        if kind == DiffKind::Lz4diff {
            return Err(DiffError::Lz4PatchTooLarge(patch_length));
        } else {
            return Err(DiffError::PatchTooLarge(patch_length));
        }
    }
    Ok((patch_offset, patch_length))
}

/// What a patcher that runs outside the library returned: the patched
/// bytes, or `None` where it failed.
pub open spec fn outside_view(o: Option<Result<Vec<u8>, String>>) -> Option<Seq<u8>> {
    match o {
        Some(Ok(v)) => Some(v@),
        _ => None,
    }
}

/// The target bytes an operation of kind `kind` makes of `src` and
/// `patch`, `outside` being what the lz4diff or puffdiff patcher returned
/// for them; `None` where the patch is refused.
pub open spec fn spec_target(kind: DiffKind, src: Seq<u8>, patch: Seq<u8>, outside: Option<Seq<u8>>) -> Option<Seq<u8>> {
    match kind {
        DiffKind::SourceCopy => Some(src),
        DiffKind::Bsdf2 => bsdf2_patched(src, patch),
        DiffKind::Lz4diff => outside,
        DiffKind::Puffdiff => outside,
    }
}

/// Whether an operation of kind `kind` is patched outside the library:
/// the lz4diff and puffdiff crates panic on some malformed patches, so
/// their calls are made by the caller, who catches such a panic, and what
/// they returned is handed in.
pub open spec fn patched_outside(kind: DiffKind) -> bool {
    kind == DiffKind::Lz4diff || kind == DiffKind::Puffdiff
}

impl DiffContext {
    /// Makes the target bytes of an operation of type `op_type` from its
    /// source bytes and patch. A copy hands the source back as it is (the
    /// write plan checks its size); a BSDF2 patch is applied here; for
    /// lz4diff and puffdiff patches, `outside` is what the patcher returned
    /// on the same source and patch (its error message is passed on). A
    /// patched target must fill the target extents exactly.
    pub fn build_target(
        &self,
        op_type: OpType,
        source: Vec<u8>,
        patch: &[u8],
        outside: Option<Result<Vec<u8>, String>>,
        dst_extents: &[Extent],
    ) -> (r: Result<Vec<u8>, DiffError>)
        requires
            spec_diff_kind(op_type) is Ok,
            patched_outside(spec_diff_kind(op_type)->Ok_0) ==> outside is Some,
            extents_bytes(dst_extents@, self.block_size) <= u64::MAX,
        ensures
            ({
                let kind = spec_diff_kind(op_type)->Ok_0;
                let expected = extents_bytes(dst_extents@, self.block_size);
                match spec_target(kind, source@, patch@, outside_view(outside)) {
                    None => r matches Err(DiffError::PatchFailed { op_type: t, message: m }) && t == op_type
                        && (patched_outside(kind) ==> outside == Some(Err::<Vec<u8>, String>(m))),
                    Some(out) => if kind == DiffKind::SourceCopy || out.len() == expected {
                        r matches Ok(v) && v@ == out
                    } else {
                        r == Err::<Vec<u8>, DiffError>(DiffError::PatchedSizeMismatch { expected: expected as u64, got: out.len() as usize })
                    },
                }
            }),
    {
        let kind = classify_diff_operation(op_type);
        let patched = match kind {
            Ok(DiffKind::SourceCopy) => return Ok(source),
            Ok(DiffKind::Bsdf2) => bsdf2_patch(source.as_slice(), patch),
            Ok(_) => outside.unwrap(),
            Err(e) => return Err(e),
        };
        let patched = match patched {
            Ok(v) => v,
            Err(message) => return Err(DiffError::PatchFailed { op_type, message }),
        };
        let expected = match extents_total(dst_extents, self.block_size) {
            Some(t) => t,
            None => 0,
        };
        if patched.len() as u64 != expected {
            return Err(DiffError::PatchedSizeMismatch { expected, got: patched.len() });
        }
        Ok(patched)
    }
}

/// The message the command line reports for a failed operation.
pub open spec fn spec_diff_message(e: DiffError) -> Seq<char> {
    match e {
        DiffError::SourceTooLarge(t) => "Source extents total size "@ + decimal(t as nat) + " exceeds safety limit"@,
        DiffError::OffsetOverflow(i) => "Offset overflow in extent "@ + decimal(i as nat),
        DiffError::LengthOverflow(i) => "Length overflow in extent "@ + decimal(i as nat),
        DiffError::DstOffsetOverflow(i) => "Offset overflow in dst extent "@ + decimal(i as nat),
        DiffError::DataSizeMismatch { expected, got } => "Data size mismatch: expected "@ + decimal(expected as nat)
            + " bytes, got "@ + decimal(got as nat) + " bytes"@,
        DiffError::PatchTooLarge(l) => "Patch size "@ + decimal(l as nat) + " exceeds safety limit"@,
        DiffError::Lz4PatchTooLarge(l) => "LZ4DIFF patch size "@ + decimal(l as nat) + " exceeds safety limit"@,
        DiffError::PatchFailed { op_type, message } => (match op_type {
            OpType::Lz4diffBsdiff => spec_op_debug_name(op_type),
            OpType::Lz4diffPuffdiff => spec_op_debug_name(op_type),
            OpType::Puffdiff => "PUFFDIFF"@,
            _ => "BSDF2"@,
        }) + " patch failed: "@ + message@,
        DiffError::PatchedSizeMismatch { expected, got } => "Patched data size mismatch: expected "@ + decimal(
            expected as nat,
        ) + " bytes, got "@ + decimal(got as nat) + " bytes"@,
        DiffError::ZucchiniUnsupported => "ZUCCHINI operation not supported"@,
        DiffError::NotDiffOperation(t) => "Operation type "@ + spec_op_debug_name(t) + " is not a differential operation"@,
    }
}

impl DiffError {
    /// The message the command line reports for this error.
    pub fn message(&self) -> (r: String)
        ensures
            r@ == spec_diff_message(*self),
    {
        let mut s = String::new();
        match self {
            DiffError::SourceTooLarge(t) => {
                s.append("Source extents total size ");
                push_decimal(&mut s, *t);
                s.append(" exceeds safety limit");
            },
            DiffError::OffsetOverflow(i) => {
                s.append("Offset overflow in extent ");
                push_decimal(&mut s, *i as u64);
            },
            DiffError::LengthOverflow(i) => {
                s.append("Length overflow in extent ");
                push_decimal(&mut s, *i as u64);
            },
            DiffError::DstOffsetOverflow(i) => {
                s.append("Offset overflow in dst extent ");
                push_decimal(&mut s, *i as u64);
            },
            DiffError::DataSizeMismatch { expected, got } => {
                s.append("Data size mismatch: expected ");
                push_decimal(&mut s, *expected);
                s.append(" bytes, got ");
                push_decimal(&mut s, *got as u64);
                s.append(" bytes");
            },
            DiffError::PatchTooLarge(l) => {
                s.append("Patch size ");
                push_decimal(&mut s, *l);
                s.append(" exceeds safety limit");
            },
            DiffError::Lz4PatchTooLarge(l) => {
                s.append("LZ4DIFF patch size ");
                push_decimal(&mut s, *l);
                s.append(" exceeds safety limit");
            },
            DiffError::PatchFailed { op_type, message } => {
                match op_type {
                    OpType::Lz4diffBsdiff => s.append(op_type.debug_name()),
                    OpType::Lz4diffPuffdiff => s.append(op_type.debug_name()),
                    OpType::Puffdiff => s.append("PUFFDIFF"),
                    _ => s.append("BSDF2"),
                }
                s.append(" patch failed: ");
                s.append(message.as_str());
            },
            DiffError::PatchedSizeMismatch { expected, got } => {
                s.append("Patched data size mismatch: expected ");
                push_decimal(&mut s, *expected);
                s.append(" bytes, got ");
                push_decimal(&mut s, *got as u64);
                s.append(" bytes");
            },
            DiffError::ZucchiniUnsupported => {
                s.append("ZUCCHINI operation not supported");
            },
            DiffError::NotDiffOperation(t) => {
                s.append("Operation type ");
                s.append(t.debug_name());
                s.append(" is not a differential operation");
            },
        }
        assert(s@ =~= spec_diff_message(*self));
        s
    }
}

/// The plan that reads the source extents and the plan that writes the
/// target extents address the same ranges of the partition, in the same
/// order and at the same places of the buffer, whenever the read plan
/// meets no error: data written by the one is read back whole by the
/// other.
pub proof fn lemma_read_write_plans_agree(ex: Seq<Extent>, bs: u64, i: int, pos: int)
    ensures
        spec_plan(ex, bs, i, pos, false).1 is None ==> {
            &&& spec_plan(ex, bs, i, pos, true).0 == spec_plan(ex, bs, i, pos, false).0
            &&& spec_plan(ex, bs, i, pos, true).1 is None
        },
    decreases ex.len() - i,
{
    if 0 <= i < ex.len() {
        let nb = blocks(ex[i]);
        if nb == 0 {
            lemma_read_write_plans_agree(ex, bs, i + 1, pos);
        } else {
            lemma_read_write_plans_agree(ex, bs, i + 1, pos + nb * bs);
        }
    }
}

/// `img` with the bytes `bytes` written at `off`.
pub open spec fn write_range(img: Seq<u8>, off: int, bytes: Seq<u8>) -> Seq<u8> {
    img.subrange(0, off) + bytes + img.subrange(off + bytes.len(), img.len() as int)
}

/// The image `img` after the writes of `steps`, in order: each puts the
/// bytes of `data` from its `data_start` at its `offset`.
pub open spec fn apply_writes(img: Seq<u8>, steps: Seq<ExtentStep>, data: Seq<u8>) -> Seq<u8>
    decreases steps.len(),
{
    if steps.len() == 0 {
        img
    } else {
        let st = steps[0];
        apply_writes(
            write_range(img, st.offset as int, data.subrange(st.data_start as int, st.data_start + st.length)),
            steps.drop_first(),
            data,
        )
    }
}

/// The bytes the reads of `steps` gather from `img`, in order.
pub open spec fn read_steps(img: Seq<u8>, steps: Seq<ExtentStep>) -> Seq<u8>
    decreases steps.len(),
{
    if steps.len() == 0 {
        Seq::empty()
    } else {
        img.subrange(steps[0].offset as int, steps[0].offset + steps[0].length) + read_steps(img, steps.drop_first())
    }
}

/// The steps address places inside an image of `n` bytes, no two of them
/// overlapping.
pub open spec fn steps_disjoint_within(steps: Seq<ExtentStep>, n: int) -> bool {
    &&& forall|k: int| 0 <= k < steps.len() ==> (#[trigger] steps[k]).offset + steps[k].length <= n
    &&& forall|i: int, j: int| 0 <= i < j < steps.len() ==> ((#[trigger] steps[i]).offset + steps[i].length
        <= (#[trigger] steps[j]).offset || steps[j].offset + steps[j].length <= steps[i].offset)
}

/// The steps take the buffer's bytes one after the other, from `pos` to
/// `end`.
pub open spec fn steps_fill(steps: Seq<ExtentStep>, pos: int, end: int) -> bool {
    &&& steps.len() == 0 ==> pos == end
    &&& steps.len() > 0 ==> steps[0].data_start == pos
    &&& steps.len() > 0 ==> steps.last().data_start + steps.last().length == end
    &&& forall|k: int| 0 <= k < steps.len() - 1 ==> (#[trigger] steps[k]).data_start + steps[k].length
        == steps[k + 1].data_start
}

proof fn lemma_writes_keep(img: Seq<u8>, steps: Seq<ExtentStep>, data: Seq<u8>, x: int)
    requires
        steps_disjoint_within(steps, img.len() as int),
        forall|k: int| 0 <= k < steps.len() ==> (#[trigger] steps[k]).data_start + steps[k].length <= data.len(),
        0 <= x < img.len(),
        forall|k: int| 0 <= k < steps.len() ==> !((#[trigger] steps[k]).offset <= x < steps[k].offset + steps[k].length),
    ensures
        apply_writes(img, steps, data).len() == img.len(),
        apply_writes(img, steps, data)[x] == img[x],
    decreases steps.len(),
{
    if steps.len() > 0 {
        let st = steps[0];
        let img2 = write_range(img, st.offset as int, data.subrange(st.data_start as int, st.data_start + st.length));
        assert(img2.len() == img.len());
        assert(img2[x] == img[x]);
        let rest = steps.drop_first();
        assert forall|k: int| 0 <= k < rest.len() implies (#[trigger] rest[k]).offset + rest[k].length <= img2.len() by {
            assert(rest[k] == steps[k + 1]);
        }
        assert forall|i: int, j: int| 0 <= i < j < rest.len() implies ((#[trigger] rest[i]).offset + rest[i].length
            <= (#[trigger] rest[j]).offset || rest[j].offset + rest[j].length <= rest[i].offset) by {
            assert(rest[i] == steps[i + 1] && rest[j] == steps[j + 1]);
        }
        assert forall|k: int| 0 <= k < rest.len() implies (#[trigger] rest[k]).data_start + rest[k].length <= data.len() by {
            assert(rest[k] == steps[k + 1]);
        }
        assert forall|k: int| 0 <= k < rest.len() implies !((#[trigger] rest[k]).offset <= x < rest[k].offset + rest[k].length) by {
            assert(rest[k] == steps[k + 1]);
        }
        lemma_writes_keep(img2, rest, data, x);
    }
}

proof fn lemma_writes_place(img: Seq<u8>, steps: Seq<ExtentStep>, data: Seq<u8>, k: int, x: int)
    requires
        steps_disjoint_within(steps, img.len() as int),
        forall|m: int| 0 <= m < steps.len() ==> (#[trigger] steps[m]).data_start + steps[m].length <= data.len(),
        0 <= k < steps.len(),
        steps[k].offset <= x < steps[k].offset + steps[k].length,
    ensures
        apply_writes(img, steps, data)[x] == data[steps[k].data_start + (x - steps[k].offset)],
    decreases steps.len(),
{
    let st = steps[0];
    let img2 = write_range(img, st.offset as int, data.subrange(st.data_start as int, st.data_start + st.length));
    let rest = steps.drop_first();
    assert(img2.len() == img.len());
    assert forall|m: int| 0 <= m < rest.len() implies (#[trigger] rest[m]).offset + rest[m].length <= img2.len() by {
        assert(rest[m] == steps[m + 1]);
    }
    assert forall|i: int, j: int| 0 <= i < j < rest.len() implies ((#[trigger] rest[i]).offset + rest[i].length
        <= (#[trigger] rest[j]).offset || rest[j].offset + rest[j].length <= rest[i].offset) by {
        assert(rest[i] == steps[i + 1] && rest[j] == steps[j + 1]);
    }
    assert forall|m: int| 0 <= m < rest.len() implies (#[trigger] rest[m]).data_start + rest[m].length <= data.len() by {
        assert(rest[m] == steps[m + 1]);
    }
    if k == 0 {
        assert forall|m: int| 0 <= m < rest.len() implies !((#[trigger] rest[m]).offset <= x < rest[m].offset + rest[m].length) by {
            assert(rest[m] == steps[m + 1]);
            assert(steps[0].offset + steps[0].length <= steps[m + 1].offset || steps[m + 1].offset + steps[m + 1].length
                <= steps[0].offset);
        }
        lemma_writes_keep(img2, rest, data, x);
        assert(img2[x] == data[steps[0].data_start + (x - steps[0].offset)]);
    } else {
        assert(rest[k - 1] == steps[k]);
        lemma_writes_place(img2, rest, data, k - 1, x);
    }
}

/// The place of `st` in `img` holds the bytes of `data` it takes.
pub open spec fn step_placed(img: Seq<u8>, st: ExtentStep, data: Seq<u8>) -> bool {
    forall|x: int| st.offset <= x < st.offset + st.length ==> #[trigger] img[x] == data[st.data_start + (x - st.offset)]
}

proof fn lemma_read_gathers(img: Seq<u8>, steps: Seq<ExtentStep>, data: Seq<u8>, pos: int)
    requires
        forall|k: int| 0 <= k < steps.len() ==> (#[trigger] steps[k]).offset + steps[k].length <= img.len(),
        steps_fill(steps, pos, data.len() as int),
        0 <= pos <= data.len(),
        forall|k: int| 0 <= k < steps.len() ==> step_placed(img, #[trigger] steps[k], data),
    ensures
        read_steps(img, steps) == data.subrange(pos, data.len() as int),
    decreases steps.len(),
{
    if steps.len() == 0 {
        assert(data.subrange(pos, data.len() as int) =~= Seq::<u8>::empty());
    } else {
        let st = steps[0];
        let rest = steps.drop_first();
        let next = st.data_start + st.length;
        if rest.len() > 0 {
            assert(rest[0] == steps[1]);
            assert(steps[0].data_start + steps[0].length == steps[1].data_start);
            assert(rest.last() == steps.last());
        } else {
            assert(steps.last() == st);
        }
        assert forall|k: int| 0 <= k < rest.len() - 1 implies (#[trigger] rest[k]).data_start + rest[k].length
            == rest[k + 1].data_start by {
            assert(rest[k] == steps[k + 1] && rest[k + 1] == steps[k + 2]);
        }
        assert forall|k: int| 0 <= k < rest.len() implies (#[trigger] rest[k]).offset + rest[k].length <= img.len() by {
            assert(rest[k] == steps[k + 1]);
        }
        assert forall|k: int| 0 <= k < rest.len() implies step_placed(img, #[trigger] rest[k], data) by {
            assert(rest[k] == steps[k + 1]);
        }
        lemma_steps_fill_bound(steps, pos, data.len() as int);
        lemma_read_gathers(img, rest, data, next);
        let head = img.subrange(st.offset as int, st.offset + st.length);
        assert(step_placed(img, steps[0], data));
        assert forall|y: int| 0 <= y < head.len() implies head[y] == data[pos + y] by {
            assert(img[st.offset + y] == data[st.data_start + ((st.offset + y) - st.offset)]);
        }
        assert(head + data.subrange(next, data.len() as int) =~= data.subrange(pos, data.len() as int));
    }
}

proof fn lemma_steps_fill_bound(steps: Seq<ExtentStep>, pos: int, end: int)
    requires
        steps_fill(steps, pos, end),
        steps.len() > 0,
    ensures
        forall|k: int| 0 <= k < steps.len() ==> pos <= (#[trigger] steps[k]).data_start && steps[k].data_start
            + steps[k].length <= end,
    decreases steps.len(),
{
    let rest = steps.drop_first();
    if rest.len() > 0 {
        assert(rest[0] == steps[1]);
        assert(rest.last() == steps.last());
        assert forall|k: int| 0 <= k < rest.len() - 1 implies (#[trigger] rest[k]).data_start + rest[k].length
            == rest[k + 1].data_start by {
            assert(rest[k] == steps[k + 1] && rest[k + 1] == steps[k + 2]);
        }
        lemma_steps_fill_bound(rest, steps[1].data_start as int, end);
        assert forall|k: int| 0 <= k < steps.len() implies pos <= (#[trigger] steps[k]).data_start && steps[k].data_start
            + steps[k].length <= end by {
            if k > 0 {
                assert(rest[k - 1] == steps[k]);
            }
        }
    } else {
        assert(steps.last() == steps[0]);
    }
}

/// Reading back what was just written: where the steps of a plan address
/// places of an image that do not overlap and take the buffer's bytes one
/// after the other, writing `data` with them and then reading with them
/// gives `data` back.
pub proof fn lemma_write_then_read(img: Seq<u8>, steps: Seq<ExtentStep>, data: Seq<u8>)
    requires
        steps_disjoint_within(steps, img.len() as int),
        steps_fill(steps, 0, data.len() as int),
    ensures
        read_steps(apply_writes(img, steps, data), steps) == data,
{
    if steps.len() > 0 {
        lemma_steps_fill_bound(steps, 0, data.len() as int);
    }
    let w = apply_writes(img, steps, data);
    assert forall|k: int| 0 <= k < steps.len() implies step_placed(w, #[trigger] steps[k], data) by {
        assert forall|x: int| steps[k].offset <= x < steps[k].offset + steps[k].length implies #[trigger] w[x]
            == data[steps[k].data_start + (x - steps[k].offset)] by {
            lemma_writes_place(img, steps, data, k, x);
        }
    }
    if steps.len() > 0 {
        lemma_writes_keep_len(img, steps, data);
    }
    lemma_read_gathers(w, steps, data, 0);
    assert(data.subrange(0, data.len() as int) =~= data);
}

proof fn lemma_writes_keep_len(img: Seq<u8>, steps: Seq<ExtentStep>, data: Seq<u8>)
    requires
        forall|k: int| 0 <= k < steps.len() ==> (#[trigger] steps[k]).offset + steps[k].length <= img.len(),
        forall|k: int| 0 <= k < steps.len() ==> (#[trigger] steps[k]).data_start + steps[k].length <= data.len(),
    ensures
        apply_writes(img, steps, data).len() == img.len(),
    decreases steps.len(),
{
    if steps.len() > 0 {
        let st = steps[0];
        let img2 = write_range(img, st.offset as int, data.subrange(st.data_start as int, st.data_start + st.length));
        let rest = steps.drop_first();
        assert forall|k: int| 0 <= k < rest.len() implies (#[trigger] rest[k]).offset + rest[k].length <= img2.len() by {
            assert(rest[k] == steps[k + 1]);
        }
        assert forall|k: int| 0 <= k < rest.len() implies (#[trigger] rest[k]).data_start + rest[k].length <= data.len() by {
            assert(rest[k] == steps[k + 1]);
        }
        lemma_writes_keep_len(img2, rest, data);
    }
}

/// The round trip of an operation's target blocks: where the source-read
/// plan of extents meets no error and their blocks do not overlap inside
/// the image, writing target data of the extents' size with the write plan
/// and reading the same extents back with the read plan gives that data.
pub proof fn lemma_plan_round_trip(ex: Seq<Extent>, bs: u64, img: Seq<u8>, data: Seq<u8>)
    requires
        extents_bytes(ex, bs) <= u64::MAX,
        data.len() == extents_bytes(ex, bs),
        spec_plan(ex, bs, 0, 0, false).1 is None,
        steps_disjoint_within(spec_plan(ex, bs, 0, 0, true).0, img.len() as int),
    ensures
        read_steps(apply_writes(img, spec_plan(ex, bs, 0, 0, true).0, data), spec_plan(ex, bs, 0, 0, false).0) == data,
{
    lemma_read_write_plans_agree(ex, bs, 0, 0);
    assert(ex.take(0) =~= Seq::<Extent>::empty());
    lemma_plan_layout(ex, bs, 0, 0, true);
    let st = spec_plan(ex, bs, 0, 0, true).0;
    assert(steps_fill(st, 0, data.len() as int));
    lemma_write_then_read(img, st, data);
}

/// How an operation is applied follows from its protobuf number, as
/// `update_metadata.proto` numbers the kinds: 4 (`SOURCE_COPY`) is a
/// plain copy; 5 (`SOURCE_BSDIFF`) and 10 (`BROTLI_BSDIFF`) are BSDF2
/// patches; 12 and 13 (`LZ4DIFF_*`) are lz4diff patches; 9 (`PUFFDIFF`) is
/// a puffdiff patch; 11 (`ZUCCHINI`) is refused as unsupported; every
/// other number is no differential operation.
pub proof fn lemma_diff_kind_by_proto_number(t: OpType)
    ensures
        (spec_diff_kind(t) == Ok::<DiffKind, DiffError>(DiffKind::SourceCopy)) <==> spec_op_code(t) == 4,
        (spec_diff_kind(t) == Ok::<DiffKind, DiffError>(DiffKind::Bsdf2)) <==> (spec_op_code(t) == 5 || spec_op_code(t) == 10),
        (spec_diff_kind(t) == Ok::<DiffKind, DiffError>(DiffKind::Lz4diff)) <==> (spec_op_code(t) == 12 || spec_op_code(t) == 13),
        (spec_diff_kind(t) == Ok::<DiffKind, DiffError>(DiffKind::Puffdiff)) <==> spec_op_code(t) == 9,
        (spec_diff_kind(t) == Err::<DiffKind, DiffError>(DiffError::ZucchiniUnsupported)) <==> spec_op_code(t) == 11,
        spec_diff_kind(t) is Err && spec_op_code(t) != 11 ==> spec_diff_kind(t) == Err::<DiffKind, DiffError>(
            DiffError::NotDiffOperation(t),
        ),
{
}

/// How an operation is applied follows from its name in
/// `update_metadata.proto`: the kind named `SOURCE_COPY` is the plain copy,
/// and those named `SOURCE_BSDIFF` and `BROTLI_BSDIFF` are BSDF2 patches.
pub proof fn lemma_diff_kind_by_proto_name(t: OpType)
    ensures
        (spec_diff_kind(t) == Ok::<DiffKind, DiffError>(DiffKind::SourceCopy)) <==> spec_op_name(t) == "SOURCE_COPY"@,
        (spec_diff_kind(t) == Ok::<DiffKind, DiffError>(DiffKind::Bsdf2)) <==> (spec_op_name(t) == "SOURCE_BSDIFF"@
            || spec_op_name(t) == "BROTLI_BSDIFF"@),
        (spec_diff_kind(t) == Ok::<DiffKind, DiffError>(DiffKind::Puffdiff)) <==> spec_op_name(t) == "PUFFDIFF"@,
{
    lemma_op_table_matches_proto(t);
    if spec_op_name(t) == "SOURCE_COPY"@ {
        lemma_op_name_injective(t, OpType::SourceCopy);
    }
    if spec_op_name(t) == "SOURCE_BSDIFF"@ {
        lemma_op_name_injective(t, OpType::SourceBsdiff);
    }
    if spec_op_name(t) == "BROTLI_BSDIFF"@ {
        lemma_op_name_injective(t, OpType::BrotliBsdiff);
    }
    if spec_op_name(t) == "PUFFDIFF"@ {
        lemma_op_name_injective(t, OpType::Puffdiff);
    }
}

} // verus!
