//! The metadata summary of a payload: per partition its sizes, offsets,
//! hashes, operations and operation statistics, and totals over all
//! partitions, stated over the manifest's model.

use vstd::prelude::*;
use ahash::AHashSet;
use crate::diff::{blocks, opt_or_zero, start};
use crate::manifest::{
    lemma_op_name_injective, spec_op_code, spec_op_name, ApexInfo, CowMergeOperation, DeltaArchiveManifest,
    DynamicPartitionGroup, DynamicPartitionMetadata, Extent, InstallOperation, OpType,
    PartitionInfo, PartitionUpdate, Signature, VabcFeatureSet,
};
use crate::stats::{
    filter_contains, filter_contents, stats_contents, stats_get, stats_insert, stats_into_vec,
    stats_new, StatsMap,
};
use crate::text::{hex_lower, to_hex};

verus! {

/// A run of blocks, with missing numbers read as 0.
#[derive(Debug, Clone, Copy, PartialEq, Eq, Structural)]
pub struct ExtentInfo {
    pub start_block: u64,
    pub num_blocks: u64,
}

pub open spec fn ext_info(e: Extent) -> ExtentInfo {
    ExtentInfo { start_block: start(e), num_blocks: blocks(e) }
}

pub open spec fn opt_ext_info(o: Option<Extent>) -> Option<ExtentInfo> {
    match o {
        Some(e) => Some(ext_info(e)),
        None => None,
    }
}

/// A hash rendered as lower-case hex, when there is one.
pub open spec fn opt_hex_of(r: Option<String>, b: Option<Vec<u8>>) -> bool {
    match b {
        None => r is None,
        Some(v) => r matches Some(s) && s@ == hex_lower(v@),
    }
}

pub fn extent_info(e: &Extent) -> (r: ExtentInfo)
    ensures
        r == ext_info(*e),
{
    ExtentInfo {
        start_block: match e.start_block {
            Some(v) => v,
            None => 0,
        },
        num_blocks: match e.num_blocks {
            Some(v) => v,
            None => 0,
        },
    }
}

fn opt_extent_info(o: &Option<Extent>) -> (r: Option<ExtentInfo>)
    ensures
        r == opt_ext_info(*o),
{
    match o {
        Some(e) => Some(extent_info(e)),
        None => None,
    }
}

fn extent_infos(v: &Vec<Extent>) -> (r: Vec<ExtentInfo>)
    ensures
        r@ == v@.map_values(|e: Extent| ext_info(e)),
{
    let mut out: Vec<ExtentInfo> = Vec::new();
    let n = v.len();
    let mut i: usize = 0;
    while i < n
        invariant
            i <= n,
            n == v@.len(),
            out@ == v@.take(i as int).map_values(|e: Extent| ext_info(e)),
        decreases n - i,
    {
        out.push(extent_info(&v[i]));
        i = i + 1;
        assert(out@ =~= v@.take(i as int).map_values(|e: Extent| ext_info(e)));
    }
    assert(v@.take(n as int) =~= v@);
    out
}

fn opt_hex(b: &Option<Vec<u8>>) -> (r: Option<String>)
    ensures
        opt_hex_of(r, *b),
{
    match b {
        Some(v) => Some(to_hex(v.as_slice())),
        None => None,
    }
}

fn clone_opt_string(o: &Option<String>) -> (r: Option<String>)
    ensures
        r == *o,
{
    match o {
        Some(s) => Some(s.clone()),
        None => None,
    }
}

fn clone_strings(v: &Vec<String>) -> (r: Vec<String>)
    ensures
        r@ == v@,
{
    let mut out: Vec<String> = Vec::new();
    let n = v.len();
    let mut i: usize = 0;
    while i < n
        invariant
            i <= n,
            n == v@.len(),
            out@ == v@.take(i as int),
        decreases n - i,
    {
        out.push(v[i].clone());
        i = i + 1;
        assert(out@ =~= v@.take(i as int));
    }
    assert(v@.take(n as int) =~= v@);
    out
}

/// One install operation, in full.
#[derive(Debug, Clone)]
pub struct InstallOperationInfo {
    pub operation_type: String,
    pub operation_index: usize,
    pub data_offset: Option<u64>,
    pub data_length: Option<u64>,
    pub src_extents: Vec<ExtentInfo>,
    pub src_length: Option<u64>,
    pub dst_extents: Vec<ExtentInfo>,
    pub dst_length: Option<u64>,
    pub data_sha256_hash: Option<String>,
    pub src_sha256_hash: Option<String>,
}

pub open spec fn op_info_of(r: InstallOperationInfo, idx: int, op: InstallOperation) -> bool {
    &&& r.operation_type@ == spec_op_name(op.op_type)
    &&& r.operation_index == idx
    &&& r.data_offset == op.data_offset
    &&& r.data_length == op.data_length
    &&& r.src_extents@ == op.src_extents@.map_values(|e: Extent| ext_info(e))
    &&& r.src_length == op.src_length
    &&& r.dst_extents@ == op.dst_extents@.map_values(|e: Extent| ext_info(e))
    &&& r.dst_length == op.dst_length
    &&& opt_hex_of(r.data_sha256_hash, op.data_sha256_hash)
    &&& opt_hex_of(r.src_sha256_hash, op.src_sha256_hash)
}

pub fn operation_info(idx: usize, op: &InstallOperation) -> (r: InstallOperationInfo)
    ensures
        op_info_of(r, idx as int, *op),
{
    let name = op.op_type.as_str_name();
    InstallOperationInfo {
        operation_type: name.to_string(),
        operation_index: idx,
        data_offset: op.data_offset,
        data_length: op.data_length,
        src_extents: extent_infos(&op.src_extents),
        src_length: op.src_length,
        dst_extents: extent_infos(&op.dst_extents),
        dst_length: op.dst_length,
        data_sha256_hash: opt_hex(&op.data_sha256_hash),
        src_sha256_hash: opt_hex(&op.src_sha256_hash),
    }
}

/// The name of a copy-on-write merge kind; a missing or unknown number
/// reads `UNKNOWN`.
pub open spec fn merge_type_name(t: Option<i32>) -> Seq<char> {
    match t {
        Some(v) => if v == 0 {
            "COW_COPY"@
        } else if v == 1 {
            "COW_XOR"@
        } else if v == 2 {
            "COW_REPLACE"@
        } else {
            "UNKNOWN"@
        },
        None => "UNKNOWN"@,
    }
}

#[derive(Debug, Clone)]
pub struct MergeOperationInfo {
    pub operation_type: String,
    pub src_extent: Option<ExtentInfo>,
    pub dst_extent: Option<ExtentInfo>,
    pub src_offset: Option<u32>,
}

pub open spec fn merge_info_of(r: MergeOperationInfo, m: CowMergeOperation) -> bool {
    &&& r.operation_type@ == merge_type_name(m.op_type)
    &&& r.src_extent == opt_ext_info(m.src_extent)
    &&& r.dst_extent == opt_ext_info(m.dst_extent)
    &&& r.src_offset == m.src_offset
}

fn merge_operation_info(m: &CowMergeOperation) -> (r: MergeOperationInfo)
    ensures
        merge_info_of(r, *m),
{
    let name: &str = match m.op_type {
        Some(v) => if v == 0 {
            "COW_COPY"
        } else if v == 1 {
            "COW_XOR"
        } else if v == 2 {
            "COW_REPLACE"
        } else {
            "UNKNOWN"
        },
        None => "UNKNOWN",
    };
    MergeOperationInfo {
        operation_type: name.to_string(),
        src_extent: opt_extent_info(&m.src_extent),
        dst_extent: opt_extent_info(&m.dst_extent),
        src_offset: m.src_offset,
    }
}

#[derive(Debug, Clone)]
pub struct SignatureInfo {
    pub data: Option<String>,
    pub unpadded_signature_size: Option<u32>,
}

pub open spec fn sig_info_of(r: SignatureInfo, s: Signature) -> bool {
    &&& opt_hex_of(r.data, s.data)
    &&& r.unpadded_signature_size == s.unpadded_signature_size
}

#[derive(Debug, Clone)]
pub struct PartitionInfoDetails {
    pub size: u64,
    pub hash: Option<String>,
}

pub open spec fn old_info_of(r: Option<PartitionInfoDetails>, o: Option<PartitionInfo>) -> bool {
    match o {
        None => r is None,
        Some(i) => r matches Some(d) && d.size == opt_or_zero(i.size) && opt_hex_of(d.hash, i.hash),
    }
}

fn old_partition_info(o: &Option<PartitionInfo>) -> (r: Option<PartitionInfoDetails>)
    ensures
        old_info_of(r, *o),
{
    match o {
        Some(i) => Some(PartitionInfoDetails {
            size: match i.size {
                Some(v) => v,
                None => 0,
            },
            hash: opt_hex(&i.hash),
        }),
        None => None,
    }
}

fn merge_operation_infos(v: &Vec<CowMergeOperation>) -> (r: Vec<MergeOperationInfo>)
    ensures
        r@.len() == v@.len(),
        forall|k: int| 0 <= k < v@.len() ==> merge_info_of(#[trigger] r@[k], v@[k]),
{
    let mut out: Vec<MergeOperationInfo> = Vec::new();
    let n = v.len();
    let mut i: usize = 0;
    while i < n
        invariant
            i <= n,
            n == v@.len(),
            out@.len() == i,
            forall|k: int| 0 <= k < i ==> merge_info_of(#[trigger] out@[k], v@[k]),
        decreases n - i,
    {
        out.push(merge_operation_info(&v[i]));
        i = i + 1;
    }
    out
}

fn signature_infos(v: &Vec<Signature>) -> (r: Vec<SignatureInfo>)
    ensures
        r@.len() == v@.len(),
        forall|k: int| 0 <= k < v@.len() ==> sig_info_of(#[trigger] r@[k], v@[k]),
{
    let mut out: Vec<SignatureInfo> = Vec::new();
    let n = v.len();
    let mut i: usize = 0;
    while i < n
        invariant
            i <= n,
            n == v@.len(),
            out@.len() == i,
            forall|k: int| 0 <= k < i ==> sig_info_of(#[trigger] out@[k], v@[k]),
        decreases n - i,
    {
        let s = &v[i];
        out.push(SignatureInfo { data: opt_hex(&s.data), unpadded_signature_size: s.unpadded_signature_size });
        i = i + 1;
    }
    out
}

/// The compression of the first operation that names one: `xz`, `bz2` or
/// `zstd`; `none` when no operation does.
pub open spec fn spec_compression_from(ops: Seq<InstallOperation>, i: int) -> Seq<char>
    decreases ops.len() - i,
{
    if i < 0 || i >= ops.len() {
        "none"@
    } else {
        match ops[i].op_type {
            OpType::ReplaceXz => "xz"@,
            OpType::ReplaceBz => "bz2"@,
            OpType::Zstd => "zstd"@,
            _ => spec_compression_from(ops, i + 1),
        }
    }
}

fn compression_type(ops: &Vec<InstallOperation>) -> (r: String)
    ensures
        r@ == spec_compression_from(ops@, 0),
{
    let n = ops.len();
    let mut i: usize = 0;
    while i < n
        invariant
            i <= n,
            n == ops@.len(),
            spec_compression_from(ops@, 0) == spec_compression_from(ops@, i as int),
        decreases n - i,
    {
        match ops[i].op_type {
            OpType::ReplaceXz => return "xz".to_string(),
            OpType::ReplaceBz => return "bz2".to_string(),
            OpType::Zstd => return "zstd".to_string(),
            _ => {},
        }
        i = i + 1;
    }
    "none".to_string()
}

pub open spec fn userdata_chars() -> Seq<char> {
    seq!['u', 's', 'e', 'r', 'd', 'a', 't', 'a']
}

/// Whether `name` contains `userdata`.
pub open spec fn has_userdata(name: Seq<char>) -> bool {
    exists|i: int| 0 <= i && i + 8 <= name.len() && #[trigger] name.subrange(i, i + 8) == userdata_chars()
}

fn contains_userdata(name: &str) -> (r: bool)
    ensures
        r == has_userdata(name@),
{
    let target: [char; 8] = ['u', 's', 'e', 'r', 'd', 'a', 't', 'a'];
    assert(target@ =~= userdata_chars());
    let n = name.unicode_len();
    if n < 8 {
        return false;
    }
    let mut i: usize = 0;
    while i <= n - 8
        invariant
            n == name@.len(),
            n >= 8,
            target@ == userdata_chars(),
            i <= n - 7,
            forall|j: int| 0 <= j < i ==> #[trigger] name@.subrange(j, j + 8) != userdata_chars(),
        decreases n - i,
    {
        let mut k: usize = 0;
        let mut same = true;
        while k < 8
            invariant
                n == name@.len(),
                i + 8 <= n,
                k <= 8,
                target@ == userdata_chars(),
                same <==> (forall|q: int| 0 <= q < k ==> name@[i + q] == userdata_chars()[q]),
            decreases 8 - k,
        {
            if name.get_char(i + k) != target[k] {
                same = false;
            }
            k = k + 1;
        }
        if same {
            assert(name@.subrange(i as int, i + 8) =~= userdata_chars());
            return true;
        }
        proof {
            let q = choose|q: int| 0 <= q < 8 && name@[i + q] != userdata_chars()[q];
            assert(name@.subrange(i as int, i + 8)[q] != userdata_chars()[q]);
        }
        i = i + 1;
    }
    proof {
        assert forall|j: int| 0 <= j && j + 8 <= name@.len() implies #[trigger] name@.subrange(j, j + 8) != userdata_chars() by {
            assert(j < i);
        }
    }
    false
}


/// The data length of an operation; a missing one is 0.
pub open spec fn data_len(op: InstallOperation) -> u64 {
    opt_or_zero(op.data_length)
}

/// The sum of the data lengths of `ops`.
pub open spec fn ops_data_sum(ops: Seq<InstallOperation>) -> int
    decreases ops.len(),
{
    if ops.len() == 0 {
        0
    } else {
        ops_data_sum(ops.drop_last()) + data_len(ops.last())
    }
}

/// The number of source extents of `ops`.
pub open spec fn src_extent_count(ops: Seq<InstallOperation>) -> int
    decreases ops.len(),
{
    if ops.len() == 0 {
        0
    } else {
        src_extent_count(ops.drop_last()) + ops.last().src_extents@.len()
    }
}

/// The number of target extents of `ops`.
pub open spec fn dst_extent_count(ops: Seq<InstallOperation>) -> int
    decreases ops.len(),
{
    if ops.len() == 0 {
        0
    } else {
        dst_extent_count(ops.drop_last()) + ops.last().dst_extents@.len()
    }
}

/// One operation more in the statistics: its kind's count grows by one
/// and its kind's data size by the operation's data length.
pub open spec fn stats_step(m: Map<u64, (usize, u64)>, op: InstallOperation) -> Map<u64, (usize, u64)> {
    let k = spec_op_code(op.op_type);
    let prev = if m.dom().contains(k) { m[k] } else { (0usize, 0u64) };
    m.insert(k, ((prev.0 + 1) as usize, (prev.1 + data_len(op)) as u64))
}

/// Count and data size of `ops` per operation kind number.
pub open spec fn op_stats(ops: Seq<InstallOperation>) -> Map<u64, (usize, u64)>
    decreases ops.len(),
{
    if ops.len() == 0 {
        Map::empty()
    } else {
        stats_step(op_stats(ops.drop_last()), ops.last())
    }
}

/// The data offset of the first operation that writes any extent.
pub open spec fn first_dst_offset(ops: Seq<InstallOperation>, i: int) -> Option<u64>
    decreases ops.len() - i,
{
    if i < 0 || i >= ops.len() {
        None
    } else if ops[i].dst_extents@.len() > 0 {
        Some(opt_or_zero(ops[i].data_offset))
    } else {
        first_dst_offset(ops, i + 1)
    }
}

/// Where a partition's data starts in the payload: the data offset plus
/// the data offset of its first operation that writes any extent.
pub open spec fn start_offset_of(ops: Seq<InstallOperation>, data_offset: u64) -> int {
    match first_dst_offset(ops, 0) {
        Some(o) => data_offset + o,
        None => data_offset as int,
    }
}

pub proof fn lemma_sums_concat(a: Seq<InstallOperation>, b: Seq<InstallOperation>)
    ensures
        ops_data_sum(a + b) == ops_data_sum(a) + ops_data_sum(b),
        src_extent_count(a + b) == src_extent_count(a) + src_extent_count(b),
        dst_extent_count(a + b) == dst_extent_count(a) + dst_extent_count(b),
        0 <= ops_data_sum(b),
        0 <= src_extent_count(b),
        0 <= dst_extent_count(b),
    decreases b.len(),
{
    if b.len() == 0 {
        assert(a + b =~= a);
    } else {
        assert((a + b).drop_last() =~= a + b.drop_last());
        lemma_sums_concat(a, b.drop_last());
    }
}

/// Every kind in the statistics of `ops` is a known kind number, counts
/// at most `ops.len()` operations and at most their total data length.
pub proof fn lemma_op_stats_bounds(ops: Seq<InstallOperation>)
    requires
        ops.len() <= usize::MAX,
        ops_data_sum(ops) <= u64::MAX,
    ensures
        forall|k: u64| #[trigger] op_stats(ops).dom().contains(k) ==> k <= 14 && op_stats(ops)[k].0 <= ops.len()
            && op_stats(ops)[k].1 <= ops_data_sum(ops),
    decreases ops.len(),
{
    if ops.len() > 0 {
        let d = ops.drop_last();
        assert(d + seq![ops.last()] =~= ops);
        lemma_sums_concat(d, seq![ops.last()]);
        assert(seq![ops.last()].drop_last() =~= Seq::<InstallOperation>::empty());
        lemma_op_stats_bounds(d);
        lemma_sums_concat(Seq::<InstallOperation>::empty(), d);
        lemma_code_bound(ops.last().op_type);
        let m = op_stats(d);
        let k0 = spec_op_code(ops.last().op_type);
        assert(op_stats(ops) == stats_step(m, ops.last()));
        assert forall|k: u64| #[trigger] op_stats(ops).dom().contains(k) implies k <= 14 && op_stats(ops)[k].0 <= ops.len()
            && op_stats(ops)[k].1 <= ops_data_sum(ops) by {
            if k != k0 {
                assert(m.dom().contains(k));
            } else {
                let prev = if m.dom().contains(k0) { m[k0] } else { (0usize, 0u64) };
                assert(prev.0 <= d.len());
                assert(prev.1 <= ops_data_sum(d));
                assert(ops_data_sum(ops) == ops_data_sum(d) + data_len(ops.last()));
                assert(op_stats(ops)[k] == ((prev.0 + 1) as usize, (prev.1 + data_len(ops.last())) as u64));
            }
        }
    }
}

pub proof fn lemma_code_bound(t: OpType)
    ensures
        spec_op_code(t) <= 14,
{
}

/// A kind's statistics: the kind's name, how many operations and how
/// much data.
#[derive(Debug, Clone)]
pub struct OperationTypeStats {
    pub operation_type: String,
    pub count: usize,
    pub total_data_size: u64,
}

/// The operation kind whose name an entry of statistics carries.
pub open spec fn stat_kind(e: OperationTypeStats) -> OpType {
    choose|t: OpType| spec_op_name(t) == e.operation_type@
}

/// `v` lists each kind of `m` once, under the kind's name, with its count
/// and data size, in any order.
pub open spec fn stats_listed(v: Seq<OperationTypeStats>, m: Map<u64, (usize, u64)>) -> bool {
    &&& forall|i: int| 0 <= i < v.len() ==> {
        &&& spec_op_name(stat_kind(#[trigger] v[i])) == v[i].operation_type@
        &&& m.dom().contains(spec_op_code(stat_kind(v[i])))
        &&& m[spec_op_code(stat_kind(v[i]))] == (v[i].count, v[i].total_data_size)
    }
    &&& forall|i: int, j: int| 0 <= i < j < v.len() ==> (#[trigger] v[i]).operation_type@ != (#[trigger] v[j]).operation_type@
    &&& forall|k: u64| m.dom().contains(k) ==> exists|i: int| 0 <= i < v.len() && spec_op_code(stat_kind(#[trigger] v[i])) == k
}

/// An entry named after the kind `t` stands for `t`.
proof fn lemma_stat_kind(e: OperationTypeStats, t: OpType)
    requires
        e.operation_type@ == spec_op_name(t),
    ensures
        stat_kind(e) == t,
        spec_op_name(stat_kind(e)) == e.operation_type@,
{
    let u = stat_kind(e);
    assert(spec_op_name(u) == e.operation_type@);
    lemma_op_name_injective(u, t);
}

fn stats_list(m: StatsMap) -> (r: Vec<OperationTypeStats>)
    requires
        forall|k: u64| #[trigger] stats_contents(m).dom().contains(k) ==> k <= 14,
    ensures
        stats_listed(r@, stats_contents(m)),
{
    let ghost c = stats_contents(m);
    let pairs = stats_into_vec(m);
    let n = pairs.len();
    let mut out: Vec<OperationTypeStats> = Vec::new();
    let mut i: usize = 0;
    while i < n
        invariant
            i <= n,
            n == pairs@.len(),
            out@.len() == i,
            forall|j: int| 0 <= j < i ==> spec_op_code(stat_kind(#[trigger] out@[j])) == pairs@[j].0
                && spec_op_name(stat_kind(out@[j])) == out@[j].operation_type@
                && out@[j].count == pairs@[j].1.0 && out@[j].total_data_size == pairs@[j].1.1,
            forall|j: int| 0 <= j < pairs@.len() ==> c.dom().contains((#[trigger] pairs@[j]).0) && c[pairs@[j].0] == pairs@[j].1,
            forall|k: u64| #[trigger] c.dom().contains(k) ==> k <= 14,
        decreases n - i,
    {
        let (k, (count, size)) = pairs[i];
        assert(c.dom().contains(pairs@[i as int].0));
        let t = OpType::from_code(k);
        let entry = OperationTypeStats { operation_type: t.as_str_name().to_string(), count, total_data_size: size };
        proof {
            lemma_stat_kind(entry, t);
        }
        out.push(entry);
        i = i + 1;
    }
    assert forall|k: u64| c.dom().contains(k) implies exists|i: int| 0 <= i < out@.len() && spec_op_code(stat_kind(#[trigger] out@[i])) == k by {
        let j = choose|j: int| 0 <= j < pairs@.len() && (#[trigger] pairs@[j]).0 == k;
        assert(spec_op_code(stat_kind(out@[j])) == k);
    }
    assert forall|i: int, j: int| 0 <= i < j < out@.len() implies (#[trigger] out@[i]).operation_type@ != (#[trigger] out@[j]).operation_type@ by {
        assert(pairs@[i].0 != pairs@[j].0);
    }
    out
}

fn stats_add(m: &mut StatsMap, op: &InstallOperation, Ghost(ops): Ghost<Seq<InstallOperation>>)
    requires
        stats_contents(*old(m)) == op_stats(ops),
        ops.len() + 1 <= usize::MAX,
        ops_data_sum(ops.push(*op)) <= u64::MAX,
    ensures
        stats_contents(*final(m)) == op_stats(ops.push(*op)),
{
    proof {
        assert(ops.push(*op).drop_last() =~= ops);
        lemma_sums_concat(ops, seq![*op]);
        assert(ops + seq![*op] =~= ops.push(*op));
        assert(seq![*op].drop_last() =~= Seq::<InstallOperation>::empty());
        lemma_op_stats_bounds(ops);
    }
    let k = op.op_type.code();
    let dl = match op.data_length {
        Some(v) => v,
        None => 0,
    };
    let (count, size) = match stats_get(m, k) {
        Some(v) => v,
        None => (0, 0),
    };
    stats_insert(m, k, (count + 1, size + dl));
}


fn first_dst_data_offset(ops: &Vec<InstallOperation>) -> (r: Option<u64>)
    ensures
        r == first_dst_offset(ops@, 0),
{
    let n = ops.len();
    let mut q: usize = 0;
    while q < n
        invariant
            q <= n,
            n == ops@.len(),
            first_dst_offset(ops@, 0) == first_dst_offset(ops@, q as int),
        decreases n - q,
    {
        if ops[q].dst_extents.len() > 0 {
            return Some(match ops[q].data_offset {
                Some(v) => v,
                None => 0,
            });
        }
        q = q + 1;
    }
    None
}

/// What the summary says of one partition.
#[derive(Debug, Clone)]
pub struct PartitionMetadata {
    pub partition_name: String,
    pub size_in_blocks: u64,
    pub size_in_bytes: u64,
    pub hash: Option<String>,
    pub start_offset: u64,
    pub end_offset: u64,
    pub data_offset: u64,
    pub partition_type: String,
    pub operations_count: usize,
    pub compression_type: String,
    pub encryption: String,
    pub block_size: u64,
    pub total_blocks: u64,
    pub run_postinstall: Option<bool>,
    pub postinstall_path: Option<String>,
    pub filesystem_type: Option<String>,
    pub postinstall_optional: Option<bool>,
    pub hash_tree_algorithm: Option<String>,
    pub version: Option<String>,
    pub old_partition_info: Option<PartitionInfoDetails>,
    pub hash_tree_salt: Option<String>,
    pub hash_tree_data_extent: Option<ExtentInfo>,
    pub hash_tree_extent: Option<ExtentInfo>,
    pub fec_data_extent: Option<ExtentInfo>,
    pub fec_extent: Option<ExtentInfo>,
    pub fec_roots: Option<u32>,
    pub estimate_cow_size: Option<u64>,
    pub estimate_op_count_max: Option<u64>,
    pub operations: Vec<InstallOperationInfo>,
    pub merge_operations: Vec<MergeOperationInfo>,
    pub merge_operations_count: usize,
    pub new_partition_signatures: Vec<SignatureInfo>,
    pub signature_count: usize,
    pub operation_type_stats: Vec<OperationTypeStats>,
    pub total_data_size: u64,
    pub num_src_extents: usize,
    pub num_dst_extents: usize,
}

/// The size of a partition's new image; a missing size is 0.
pub open spec fn new_size(p: PartitionUpdate) -> u64 {
    match p.new_partition_info {
        Some(i) => opt_or_zero(i.size),
        None => 0,
    }
}

/// The partition's start and end offsets stay within `u64`.
pub open spec fn partition_offsets_fit(p: PartitionUpdate, data_offset: u64) -> bool {
    start_offset_of(p.operations@, data_offset) + new_size(p) <= u64::MAX
}

/// `pm` summarizes partition `p` with blocks of `bs` bytes and data blobs
/// from `data_offset`; operations are listed in full mode only.
pub open spec fn partition_matches(pm: PartitionMetadata, p: PartitionUpdate, bs: u64, data_offset: u64, full: bool) -> bool {
    let ops = p.operations@;
    let size = new_size(p);
    &&& pm.partition_name@ == p.partition_name@
    &&& pm.size_in_bytes == size
    &&& pm.size_in_blocks == size / bs
    &&& pm.total_blocks == size / bs
    &&& opt_hex_of(pm.hash, p.new_partition_info->Some_0.hash)
    &&& pm.start_offset == start_offset_of(ops, data_offset)
    &&& pm.end_offset == start_offset_of(ops, data_offset) + size
    &&& pm.data_offset == data_offset
    &&& pm.partition_type@ == p.partition_name@
    &&& pm.operations_count == ops.len()
    &&& pm.compression_type@ == spec_compression_from(ops, 0)
    &&& pm.encryption@ == (if has_userdata(p.partition_name@) { "AES"@ } else { "none"@ })
    &&& pm.block_size == bs
    &&& pm.run_postinstall == p.run_postinstall
    &&& pm.postinstall_path == p.postinstall_path
    &&& pm.filesystem_type == p.filesystem_type
    &&& pm.postinstall_optional == p.postinstall_optional
    &&& pm.hash_tree_algorithm == p.hash_tree_algorithm
    &&& pm.version == p.version
    &&& old_info_of(pm.old_partition_info, p.old_partition_info)
    &&& opt_hex_of(pm.hash_tree_salt, p.hash_tree_salt)
    &&& pm.hash_tree_data_extent == opt_ext_info(p.hash_tree_data_extent)
    &&& pm.hash_tree_extent == opt_ext_info(p.hash_tree_extent)
    &&& pm.fec_data_extent == opt_ext_info(p.fec_data_extent)
    &&& pm.fec_extent == opt_ext_info(p.fec_extent)
    &&& pm.fec_roots == p.fec_roots
    &&& pm.estimate_cow_size == p.estimate_cow_size
    &&& pm.estimate_op_count_max == p.estimate_op_count_max
    &&& full ==> pm.operations@.len() == ops.len() && forall|k: int| 0 <= k < ops.len() ==> op_info_of(
        #[trigger] pm.operations@[k],
        k,
        ops[k],
    )
    &&& !full ==> pm.operations@.len() == 0
    &&& pm.merge_operations@.len() == p.merge_operations@.len()
    &&& forall|k: int| 0 <= k < p.merge_operations@.len() ==> merge_info_of(#[trigger] pm.merge_operations@[k], p.merge_operations@[k])
    &&& pm.merge_operations_count == p.merge_operations@.len()
    &&& pm.new_partition_signatures@.len() == p.new_partition_signature@.len()
    &&& forall|k: int| 0 <= k < p.new_partition_signature@.len() ==> sig_info_of(
        #[trigger] pm.new_partition_signatures@[k],
        p.new_partition_signature@[k],
    )
    &&& pm.signature_count == p.new_partition_signature@.len()
    &&& stats_listed(pm.operation_type_stats@, op_stats(ops))
    &&& pm.total_data_size == ops_data_sum(ops)
    &&& pm.num_src_extents == src_extent_count(ops)
    &&& pm.num_dst_extents == dst_extent_count(ops)
}

proof fn lemma_take_push(s: Seq<InstallOperation>, j: int)
    requires
        0 <= j < s.len(),
    ensures
        s.take(j + 1) == s.take(j).push(s[j]),
        s.take(j + 1).drop_last() == s.take(j),
        s.take(j + 1).last() == s[j],
{
    assert(s.take(j + 1) =~= s.take(j).push(s[j]));
    assert(s.take(j + 1).drop_last() =~= s.take(j));
}

/// The sums over a prefix of `ops` are at most the sums over `ops`.
proof fn lemma_sums_prefix(pre: Seq<InstallOperation>, ops: Seq<InstallOperation>, j: int)
    requires
        0 <= j <= ops.len(),
    ensures
        ops_data_sum(pre + ops.take(j)) <= ops_data_sum(pre + ops),
        src_extent_count(ops.take(j)) <= src_extent_count(ops),
        dst_extent_count(ops.take(j)) <= dst_extent_count(ops),
        ops_data_sum(ops.take(j)) <= ops_data_sum(ops),
{
    assert(ops.take(j) + ops.skip(j) =~= ops);
    assert((pre + ops.take(j)) + ops.skip(j) =~= pre + ops);
    lemma_sums_concat(ops.take(j), ops.skip(j));
    lemma_sums_concat(pre + ops.take(j), ops.skip(j));
}

#[verifier::rlimit(40)]
fn partition_metadata(
    p: &PartitionUpdate,
    block_size: u64,
    data_offset: u64,
    full_mode: bool,
    global: &mut StatsMap,
    Ghost(prefix): Ghost<Seq<InstallOperation>>,
) -> (r: PartitionMetadata)
    requires
        p.new_partition_info is Some,
        block_size != 0,
        stats_contents(*old(global)) == op_stats(prefix),
        prefix.len() + p.operations@.len() <= usize::MAX,
        ops_data_sum(prefix + p.operations@) <= u64::MAX,
        src_extent_count(p.operations@) <= usize::MAX,
        dst_extent_count(p.operations@) <= usize::MAX,
        partition_offsets_fit(*p, data_offset),
    ensures
        partition_matches(r, *p, block_size, data_offset, full_mode),
        stats_contents(*final(global)) == op_stats(prefix + p.operations@),
{
    let ghost ops = p.operations@;
    let (size_in_bytes, hash) = match &p.new_partition_info {
        Some(info) => (
            match info.size {
                Some(v) => v,
                None => 0,
            },
            opt_hex(&info.hash),
        ),
        None => (0, None),
    };
    let size_in_blocks = size_in_bytes / block_size;
    let total_blocks = size_in_bytes / block_size;
    let start_offset = match first_dst_data_offset(&p.operations) {
        Some(o) => data_offset + o,
        None => data_offset,
    };
    let end_offset = start_offset + size_in_bytes;

    let mut operations_list: Vec<InstallOperationInfo> = Vec::new();
    let mut op_type_stats = stats_new();
    let mut total_data_size: u64 = 0;
    let mut num_src_extents: usize = 0;
    let mut num_dst_extents: usize = 0;
    let n = p.operations.len();
    let mut j: usize = 0;
    proof {
        assert(ops.take(0) =~= Seq::<InstallOperation>::empty());
        assert(prefix + ops.take(0) =~= prefix);
        assert(stats_contents(op_type_stats) =~= op_stats(ops.take(0)));
    }
    while j < n
        invariant
            j <= n,
            n == ops.len(),
            ops == p.operations@,
            prefix.len() + ops.len() <= usize::MAX,
            ops_data_sum(prefix + ops) <= u64::MAX,
            src_extent_count(ops) <= usize::MAX,
            dst_extent_count(ops) <= usize::MAX,
            stats_contents(op_type_stats) == op_stats(ops.take(j as int)),
            stats_contents(*global) == op_stats(prefix + ops.take(j as int)),
            total_data_size == ops_data_sum(ops.take(j as int)),
            num_src_extents == src_extent_count(ops.take(j as int)),
            num_dst_extents == dst_extent_count(ops.take(j as int)),
            full_mode ==> operations_list@.len() == j && forall|k: int| 0 <= k < j ==> op_info_of(
                #[trigger] operations_list@[k],
                k,
                ops[k],
            ),
            !full_mode ==> operations_list@.len() == 0,
        decreases n - j,
    {
        let op = &p.operations[j];
        proof {
            lemma_take_push(ops, j as int);
            assert((prefix + ops.take(j + 1)) =~= (prefix + ops.take(j as int)).push(ops[j as int]));
            lemma_sums_prefix(prefix, ops, j + 1);
            lemma_sums_concat(prefix, ops.take(j + 1));
            lemma_sums_concat(Seq::<InstallOperation>::empty(), prefix);
        }
        let data_len = match op.data_length {
            Some(v) => v,
            None => 0,
        };
        if full_mode {
            operations_list.push(operation_info(j, op));
        }
        num_src_extents = num_src_extents + op.src_extents.len();
        num_dst_extents = num_dst_extents + op.dst_extents.len();
        stats_add(&mut op_type_stats, op, Ghost(ops.take(j as int)));
        stats_add(global, op, Ghost(prefix + ops.take(j as int)));
        total_data_size = total_data_size + data_len;
        j = j + 1;
    }
    proof {
        assert(ops.take(n as int) =~= ops);
        lemma_sums_concat(Seq::<InstallOperation>::empty(), ops);
        lemma_sums_prefix(prefix, ops, n as int);
        assert(Seq::<InstallOperation>::empty() + ops =~= ops);
        lemma_op_stats_bounds(ops);
    }
    let operation_type_stats = stats_list(op_type_stats);
    let compression = compression_type(&p.operations);
    let encryption: &str = if contains_userdata(p.partition_name.as_str()) { "AES" } else { "none" };
    let merge_operations = merge_operation_infos(&p.merge_operations);
    let new_partition_signatures = signature_infos(&p.new_partition_signature);
    PartitionMetadata {
        partition_name: p.partition_name.clone(),
        size_in_blocks,
        size_in_bytes,
        hash,
        start_offset,
        end_offset,
        data_offset,
        partition_type: p.partition_name.clone(),
        operations_count: p.operations.len(),
        compression_type: compression,
        encryption: encryption.to_string(),
        block_size,
        total_blocks,
        run_postinstall: p.run_postinstall,
        postinstall_path: clone_opt_string(&p.postinstall_path),
        filesystem_type: clone_opt_string(&p.filesystem_type),
        postinstall_optional: p.postinstall_optional,
        hash_tree_algorithm: clone_opt_string(&p.hash_tree_algorithm),
        version: clone_opt_string(&p.version),
        old_partition_info: old_partition_info(&p.old_partition_info),
        hash_tree_salt: opt_hex(&p.hash_tree_salt),
        hash_tree_data_extent: opt_extent_info(&p.hash_tree_data_extent),
        hash_tree_extent: opt_extent_info(&p.hash_tree_extent),
        fec_data_extent: opt_extent_info(&p.fec_data_extent),
        fec_extent: opt_extent_info(&p.fec_extent),
        fec_roots: p.fec_roots,
        estimate_cow_size: p.estimate_cow_size,
        estimate_op_count_max: p.estimate_op_count_max,
        operations: operations_list,
        merge_operations_count: p.merge_operations.len(),
        merge_operations,
        signature_count: p.new_partition_signature.len(),
        new_partition_signatures,
        operation_type_stats,
        total_data_size,
        num_src_extents,
        num_dst_extents,
    }
}


#[derive(Debug, Clone)]
pub struct DynamicPartitionGroupInfo {
    pub name: String,
    pub size: Option<u64>,
    pub partition_names: Vec<String>,
    pub partition_count: usize,
}

#[derive(Debug, Clone, Copy)]
pub struct VabcFeatureSetInfo {
    pub threaded: Option<bool>,
    pub batch_writes: Option<bool>,
}

#[derive(Debug, Clone)]
pub struct DynamicPartitionInfo {
    pub groups_count: usize,
    pub groups: Vec<DynamicPartitionGroupInfo>,
    pub snapshot_enabled: Option<bool>,
    pub vabc_enabled: Option<bool>,
    pub vabc_compression_param: Option<String>,
    pub cow_version: Option<u32>,
    pub vabc_feature_set: Option<VabcFeatureSetInfo>,
    pub compression_factor: Option<u64>,
}

#[derive(Debug, Clone)]
pub struct ApexInfoMetadata {
    pub package_name: Option<String>,
    pub version: Option<i64>,
    pub is_compressed: Option<bool>,
    pub decompressed_size: Option<i64>,
}

/// What the archive says of the ZIP entry holding the payload, with its
/// sizes also written for people.
#[derive(Debug, Clone)]
pub struct ZipDetails {
    pub entry_name: String,
    pub header_offset: u64,
    pub payload_data_offset: u64,
    pub uncompressed_size: u64,
    pub uncompressed_size_readable: String,
    pub compressed_size: u64,
    pub compressed_size_readable: String,
    pub compression_method: String,
    pub total_entries: usize,
    pub central_directory_offset: u64,
}

/// Where the payload was read from.
#[derive(Debug, Clone)]
pub struct SourceInfo {
    pub source_type: String,
    pub file_name: String,
    pub file_path_or_url: String,
    pub archive_size: Option<u64>,
    pub archive_size_readable: Option<String>,
    pub zip_details: Option<ZipDetails>,
}

/// The summary of a payload.
#[derive(Debug, Clone)]
pub struct PayloadMetadata {
    pub source_info: Option<SourceInfo>,
    pub security_patch_level: Option<String>,
    pub block_size: u32,
    pub minor_version: u32,
    pub max_timestamp: Option<i64>,
    pub dynamic_partition_metadata: Option<DynamicPartitionInfo>,
    pub partial_update: Option<bool>,
    pub apex_info_count: usize,
    pub apex_info: Vec<ApexInfoMetadata>,
    pub partitions_count: usize,
    pub partitions: Vec<PartitionMetadata>,
    pub signatures_offset: Option<u64>,
    pub signatures_size: Option<u64>,
    pub total_payload_size: u64,
    pub total_operations_count: usize,
    pub global_operation_stats: Vec<OperationTypeStats>,
}

pub open spec fn group_matches(r: DynamicPartitionGroupInfo, g: DynamicPartitionGroup) -> bool {
    &&& r.name == g.name
    &&& r.size == g.size
    &&& r.partition_names@ == g.partition_names@
    &&& r.partition_count == g.partition_names@.len()
}

pub open spec fn vabc_of(f: Option<VabcFeatureSet>) -> Option<VabcFeatureSetInfo> {
    match f {
        Some(v) => Some(VabcFeatureSetInfo { threaded: v.threaded, batch_writes: v.batch_writes }),
        None => None,
    }
}

pub open spec fn dynamic_matches(r: Option<DynamicPartitionInfo>, d: Option<DynamicPartitionMetadata>) -> bool {
    match d {
        None => r is None,
        Some(d) => r matches Some(i) && {
            &&& i.groups_count == d.groups@.len()
            &&& i.groups@.len() == d.groups@.len()
            &&& forall|k: int| 0 <= k < d.groups@.len() ==> group_matches(#[trigger] i.groups@[k], d.groups@[k])
            &&& i.snapshot_enabled == d.snapshot_enabled
            &&& i.vabc_enabled == d.vabc_enabled
            &&& i.vabc_compression_param == d.vabc_compression_param
            &&& i.cow_version == d.cow_version
            &&& i.vabc_feature_set == vabc_of(d.vabc_feature_set)
            &&& i.compression_factor == d.compression_factor
        },
    }
}

pub open spec fn apex_matches(r: ApexInfoMetadata, a: ApexInfo) -> bool {
    &&& r.package_name == a.package_name
    &&& r.version == a.version
    &&& r.is_compressed == a.is_compressed
    &&& r.decompressed_size == a.decompressed_size
}

fn dynamic_partition_info(d: &Option<DynamicPartitionMetadata>) -> (r: Option<DynamicPartitionInfo>)
    ensures
        dynamic_matches(r, *d),
{
    match d {
        None => None,
        Some(dpm) => {
            let mut groups: Vec<DynamicPartitionGroupInfo> = Vec::new();
            let n = dpm.groups.len();
            let mut i: usize = 0;
            while i < n
                invariant
                    i <= n,
                    n == dpm.groups@.len(),
                    groups@.len() == i,
                    forall|k: int| 0 <= k < i ==> group_matches(#[trigger] groups@[k], dpm.groups@[k]),
                decreases n - i,
            {
                let g = &dpm.groups[i];
                groups.push(DynamicPartitionGroupInfo {
                    name: g.name.clone(),
                    size: g.size,
                    partition_names: clone_strings(&g.partition_names),
                    partition_count: g.partition_names.len(),
                });
                i = i + 1;
            }
            let vabc_feature_set = match &dpm.vabc_feature_set {
                Some(fs) => Some(VabcFeatureSetInfo { threaded: fs.threaded, batch_writes: fs.batch_writes }),
                None => None,
            };
            Some(DynamicPartitionInfo {
                groups_count: dpm.groups.len(),
                groups,
                snapshot_enabled: dpm.snapshot_enabled,
                vabc_enabled: dpm.vabc_enabled,
                vabc_compression_param: clone_opt_string(&dpm.vabc_compression_param),
                cow_version: dpm.cow_version,
                vabc_feature_set,
                compression_factor: dpm.compression_factor,
            })
        },
    }
}

fn apex_infos(v: &Vec<ApexInfo>) -> (r: Vec<ApexInfoMetadata>)
    ensures
        r@.len() == v@.len(),
        forall|k: int| 0 <= k < v@.len() ==> apex_matches(#[trigger] r@[k], v@[k]),
{
    let mut out: Vec<ApexInfoMetadata> = Vec::new();
    let n = v.len();
    let mut i: usize = 0;
    while i < n
        invariant
            i <= n,
            n == v@.len(),
            out@.len() == i,
            forall|k: int| 0 <= k < i ==> apex_matches(#[trigger] out@[k], v@[k]),
        decreases n - i,
    {
        let a = &v[i];
        out.push(ApexInfoMetadata {
            package_name: clone_opt_string(&a.package_name),
            version: a.version,
            is_compressed: a.is_compressed,
            decompressed_size: a.decompressed_size,
        });
        i = i + 1;
    }
    out
}

/// The names a partition filter admits; no filter admits every name.
pub open spec fn filter_view(f: Option<&AHashSet<&str>>) -> Option<Set<Seq<char>>> {
    match f {
        Some(s) => Some(filter_contents(*s)),
        None => None,
    }
}

/// Whether partition `p` is summarized: the filter admits its name and
/// the manifest describes its new image.
pub open spec fn included(p: PartitionUpdate, f: Option<Set<Seq<char>>>) -> bool {
    &&& match f {
        Some(names) => names.contains(p.partition_name@),
        None => true,
    }
    &&& p.new_partition_info is Some
}

/// The partitions of `ps` that are summarized, in order.
pub open spec fn included_parts(ps: Seq<PartitionUpdate>, f: Option<Set<Seq<char>>>) -> Seq<PartitionUpdate>
    decreases ps.len(),
{
    if ps.len() == 0 {
        Seq::empty()
    } else if included(ps.last(), f) {
        included_parts(ps.drop_last(), f).push(ps.last())
    } else {
        included_parts(ps.drop_last(), f)
    }
}

/// The operations of `ps`, partition after partition.
pub open spec fn all_ops(ps: Seq<PartitionUpdate>) -> Seq<InstallOperation>
    decreases ps.len(),
{
    if ps.len() == 0 {
        Seq::empty()
    } else {
        all_ops(ps.drop_last()) + ps.last().operations@
    }
}

/// The manifest's block size; a missing one is 4096.
pub open spec fn manifest_block_size(m: DeltaArchiveManifest) -> u32 {
    match m.block_size {
        Some(b) => b,
        None => 4096,
    }
}

/// The summary's arithmetic stays within its integer types, and a
/// summarized partition has a nonzero block size to be divided by.
pub open spec fn metadata_fits(m: DeltaArchiveManifest, data_offset: u64, f: Option<Set<Seq<char>>>) -> bool {
    let ops = all_ops(included_parts(m.partitions@, f));
    &&& ops.len() <= usize::MAX
    &&& ops_data_sum(ops) <= u64::MAX
    &&& forall|i: int| 0 <= i < m.partitions@.len() && included(#[trigger] m.partitions@[i], f) ==> {
        &&& manifest_block_size(m) != 0
        &&& src_extent_count(m.partitions@[i].operations@) <= usize::MAX
        &&& dst_extent_count(m.partitions@[i].operations@) <= usize::MAX
        &&& partition_offsets_fit(m.partitions@[i], data_offset)
    }
}

pub proof fn lemma_included_concat(a: Seq<PartitionUpdate>, b: Seq<PartitionUpdate>, f: Option<Set<Seq<char>>>)
    ensures
        included_parts(a + b, f) == included_parts(a, f) + included_parts(b, f),
    decreases b.len(),
{
    if b.len() == 0 {
        assert(a + b =~= a);
        assert(included_parts(a, f) + included_parts(b, f) =~= included_parts(a, f));
    } else {
        assert((a + b).drop_last() =~= a + b.drop_last());
        lemma_included_concat(a, b.drop_last(), f);
        if included(b.last(), f) {
            assert(included_parts(a, f) + included_parts(b.drop_last(), f).push(b.last())
                =~= (included_parts(a, f) + included_parts(b.drop_last(), f)).push(b.last()));
        }
    }
}

pub proof fn lemma_all_ops_concat(a: Seq<PartitionUpdate>, b: Seq<PartitionUpdate>)
    ensures
        all_ops(a + b) == all_ops(a) + all_ops(b),
    decreases b.len(),
{
    if b.len() == 0 {
        assert(a + b =~= a);
        assert(all_ops(a) + all_ops(b) =~= all_ops(a));
    } else {
        assert((a + b).drop_last() =~= a + b.drop_last());
        lemma_all_ops_concat(a, b.drop_last());
        assert(all_ops(a) + (all_ops(b.drop_last()) + b.last().operations@)
            =~= (all_ops(a) + all_ops(b.drop_last())) + b.last().operations@);
    }
}

/// What the summary `r` of a manifest says: the partitions that the filter
/// `f` admits and whose new image the manifest describes, each summarized
/// (with its operations in full mode only), the totals and per-kind
/// statistics over them, and the manifest's own fields.
pub open spec fn metadata_matches(
    r: PayloadMetadata,
    manifest: DeltaArchiveManifest,
    data_offset: u64,
    full: bool,
    f: Option<Set<Seq<char>>>,
    source_info: Option<SourceInfo>,
) -> bool {
    let inc = included_parts(manifest.partitions@, f);
    let bs = manifest_block_size(manifest);
    &&& r.partitions@.len() == inc.len()
    &&& r.partitions_count == inc.len()
    &&& forall|k: int| 0 <= k < inc.len() ==> partition_matches(#[trigger] r.partitions@[k], inc[k], bs as u64, data_offset, full)
    &&& r.total_payload_size == ops_data_sum(all_ops(inc))
    &&& r.total_operations_count == all_ops(inc).len()
    &&& stats_listed(r.global_operation_stats@, op_stats(all_ops(inc)))
    &&& r.source_info == source_info
    &&& r.security_patch_level == manifest.security_patch_level
    &&& r.block_size == bs
    &&& r.minor_version == (match manifest.minor_version { Some(v) => v, None => 0 })
    &&& r.max_timestamp == manifest.max_timestamp
    &&& dynamic_matches(r.dynamic_partition_metadata, manifest.dynamic_partition_metadata)
    &&& r.partial_update == manifest.partial_update
    &&& r.apex_info_count == manifest.apex_info@.len()
    &&& r.apex_info@.len() == manifest.apex_info@.len()
    &&& forall|k: int| 0 <= k < manifest.apex_info@.len() ==> apex_matches(#[trigger] r.apex_info@[k], manifest.apex_info@[k])
    &&& r.signatures_offset == manifest.signatures_offset
    &&& r.signatures_size == manifest.signatures_size
}

/// Summarizes a payload: each partition that the filter admits and whose
/// new image the manifest describes, with its operations listed in full
/// mode only, and totals and per-kind statistics over those partitions.
pub fn get_metadata(
    manifest: &DeltaArchiveManifest,
    data_offset: u64,
    full_mode: bool,
    filter_partitions: Option<&AHashSet<&str>>,
    source_info: Option<SourceInfo>,
) -> (r: PayloadMetadata)
    requires
        metadata_fits(*manifest, data_offset, filter_view(filter_partitions)),
    ensures
        metadata_matches(r, *manifest, data_offset, full_mode, filter_view(filter_partitions), source_info),
{
    let ghost f = filter_view(filter_partitions);
    let ghost ps = manifest.partitions@;
    let ghost inc_all = included_parts(ps, f);
    let bs32 = match manifest.block_size {
        Some(b) => b,
        None => 4096,
    };
    let block_size = bs32 as u64;
    let mut partitions: Vec<PartitionMetadata> = Vec::new();
    let mut total_payload_size: u64 = 0;
    let mut total_operations: usize = 0;
    let mut global_op_stats = stats_new();
    let n = manifest.partitions.len();
    let mut i: usize = 0;
    proof {
        assert(ps.take(0) =~= Seq::<PartitionUpdate>::empty());
        assert(stats_contents(global_op_stats) =~= op_stats(all_ops(included_parts(ps.take(0), f))));
    }
    while i < n
        invariant
            i <= n,
            n == ps.len(),
            ps == manifest.partitions@,
            f == filter_view(filter_partitions),
            inc_all == included_parts(ps, f),
            block_size == manifest_block_size(*manifest),
            metadata_fits(*manifest, data_offset, f),
            partitions@.len() == included_parts(ps.take(i as int), f).len(),
            forall|k: int| 0 <= k < partitions@.len() ==> partition_matches(
                #[trigger] partitions@[k],
                included_parts(ps.take(i as int), f)[k],
                block_size,
                data_offset,
                full_mode,
            ),
            stats_contents(global_op_stats) == op_stats(all_ops(included_parts(ps.take(i as int), f))),
            total_payload_size == ops_data_sum(all_ops(included_parts(ps.take(i as int), f))),
            total_operations == all_ops(included_parts(ps.take(i as int), f)).len(),
        decreases n - i,
    {
        let p = &manifest.partitions[i];
        let ghost inc_i = included_parts(ps.take(i as int), f);
        let ghost inc_next = included_parts(ps.take(i + 1), f);
        proof {
            assert(ps.take(i + 1).drop_last() =~= ps.take(i as int));
            assert(ps.take(i + 1).last() == ps[i as int]);
            assert(ps.take(i + 1) + ps.skip(i + 1) =~= ps);
            lemma_included_concat(ps.take(i + 1), ps.skip(i + 1), f);
            lemma_all_ops_concat(inc_next, included_parts(ps.skip(i + 1), f));
            lemma_sums_concat(all_ops(inc_next), all_ops(included_parts(ps.skip(i + 1), f)));
            if included(ps[i as int], f) {
                assert(inc_next == inc_i.push(ps[i as int]));
                assert(inc_i.push(ps[i as int]) =~= inc_i + seq![ps[i as int]]);
                lemma_all_ops_concat(inc_i, seq![ps[i as int]]);
                assert(seq![ps[i as int]].drop_last() =~= Seq::<PartitionUpdate>::empty());
                assert(all_ops(seq![ps[i as int]]) == all_ops(Seq::<PartitionUpdate>::empty()) + ps[i as int].operations@);
                assert(Seq::<InstallOperation>::empty() + ps[i as int].operations@ =~= ps[i as int].operations@);
                assert(all_ops(seq![ps[i as int]]) =~= ps[i as int].operations@);
            } else {
                assert(inc_next == inc_i);
            }
        }
        let admitted = match filter_partitions {
            Some(filter) => filter_contains(filter, p.partition_name.as_str()),
            None => true,
        };
        if admitted && p.new_partition_info.is_some() {
            let pm = partition_metadata(p, block_size, data_offset, full_mode, &mut global_op_stats, Ghost(all_ops(inc_i)));
            proof {
                lemma_sums_concat(all_ops(inc_i), p.operations@);
            }
            total_payload_size = total_payload_size + pm.total_data_size;
            total_operations = total_operations + p.operations.len();
            partitions.push(pm);
            proof {
                assert forall|k: int| 0 <= k < partitions@.len() implies partition_matches(
                    #[trigger] partitions@[k],
                    inc_next[k],
                    block_size,
                    data_offset,
                    full_mode,
                ) by {
                    if k < partitions@.len() - 1 {
                        assert(inc_next[k] == inc_i[k]);
                    }
                }
            }
        }
        i = i + 1;
    }
    proof {
        assert(ps.take(n as int) =~= ps);
        lemma_op_stats_bounds(all_ops(inc_all));
    }
    let global_operation_stats = stats_list(global_op_stats);
    let minor_version = match manifest.minor_version {
        Some(v) => v,
        None => 0,
    };
    PayloadMetadata {
        source_info,
        security_patch_level: clone_opt_string(&manifest.security_patch_level),
        block_size: bs32,
        minor_version,
        max_timestamp: manifest.max_timestamp,
        dynamic_partition_metadata: dynamic_partition_info(&manifest.dynamic_partition_metadata),
        partial_update: manifest.partial_update,
        apex_info_count: manifest.apex_info.len(),
        apex_info: apex_infos(&manifest.apex_info),
        partitions_count: partitions.len(),
        partitions,
        signatures_offset: manifest.signatures_offset,
        signatures_size: manifest.signatures_size,
        total_payload_size,
        total_operations_count: total_operations,
        global_operation_stats,
    }
}


fn add_data_lengths(acc: u64, ops: &Vec<InstallOperation>) -> (r: Option<u64>)
    ensures
        match r {
            Some(t) => t == acc + ops_data_sum(ops@),
            None => acc + ops_data_sum(ops@) > u64::MAX,
        },
{
    let n = ops.len();
    let mut t = acc;
    let mut j: usize = 0;
    while j < n
        invariant
            j <= n,
            n == ops@.len(),
            t == acc + ops_data_sum(ops@.take(j as int)),
        decreases n - j,
    {
        proof {
            lemma_take_push(ops@, j as int);
            lemma_sums_prefix(Seq::<InstallOperation>::empty(), ops@, j + 1);
        }
        let dl = match ops[j].data_length {
            Some(v) => v,
            None => 0,
        };
        t = match t.checked_add(dl) {
            Some(v) => v,
            None => {
                assert(ops@.take(n as int) =~= ops@);
                return None;
            },
        };
        j = j + 1;
    }
    assert(ops@.take(n as int) =~= ops@);
    Some(t)
}

fn extent_counts(ops: &Vec<InstallOperation>) -> (r: Option<(usize, usize)>)
    ensures
        match r {
            Some((a, b)) => a == src_extent_count(ops@) && b == dst_extent_count(ops@),
            None => src_extent_count(ops@) > usize::MAX || dst_extent_count(ops@) > usize::MAX,
        },
{
    let n = ops.len();
    let mut a: usize = 0;
    let mut b: usize = 0;
    let mut j: usize = 0;
    while j < n
        invariant
            j <= n,
            n == ops@.len(),
            a == src_extent_count(ops@.take(j as int)),
            b == dst_extent_count(ops@.take(j as int)),
        decreases n - j,
    {
        proof {
            lemma_take_push(ops@, j as int);
            lemma_sums_prefix(Seq::<InstallOperation>::empty(), ops@, j + 1);
            assert(ops@.take(n as int) =~= ops@);
        }
        a = match a.checked_add(ops[j].src_extents.len()) {
            Some(v) => v,
            None => return None,
        };
        b = match b.checked_add(ops[j].dst_extents.len()) {
            Some(v) => v,
            None => return None,
        };
        j = j + 1;
    }
    assert(ops@.take(n as int) =~= ops@);
    Some((a, b))
}

/// Whether [`get_metadata`] can summarize the manifest: the test that
/// its precondition asks for.
pub fn metadata_fits_check(manifest: &DeltaArchiveManifest, data_offset: u64, filter_partitions: Option<&AHashSet<&str>>) -> (r: bool)
    ensures
        r == metadata_fits(*manifest, data_offset, filter_view(filter_partitions)),
{
    let ghost f = filter_view(filter_partitions);
    let ghost ps = manifest.partitions@;
    let ghost inc_all = included_parts(ps, f);
    let bs = match manifest.block_size {
        Some(b) => b,
        None => 4096,
    };
    let n = manifest.partitions.len();
    let mut total_ops: usize = 0;
    let mut total_data: u64 = 0;
    let mut i: usize = 0;
    assert(ps.take(0) =~= Seq::<PartitionUpdate>::empty());
    while i < n
        invariant
            i <= n,
            n == ps.len(),
            ps == manifest.partitions@,
            f == filter_view(filter_partitions),
            inc_all == included_parts(ps, f),
            bs == manifest_block_size(*manifest),
            total_ops == all_ops(included_parts(ps.take(i as int), f)).len(),
            total_data == ops_data_sum(all_ops(included_parts(ps.take(i as int), f))),
            forall|j: int| 0 <= j < i && included(#[trigger] ps[j], f) ==> {
                &&& manifest_block_size(*manifest) != 0
                &&& src_extent_count(ps[j].operations@) <= usize::MAX
                &&& dst_extent_count(ps[j].operations@) <= usize::MAX
                &&& partition_offsets_fit(ps[j], data_offset)
            },
        decreases n - i,
    {
        let p = &manifest.partitions[i];
        let ghost inc_i = included_parts(ps.take(i as int), f);
        let ghost inc_next = included_parts(ps.take(i + 1), f);
        proof {
            assert(ps.take(i + 1).drop_last() =~= ps.take(i as int));
            assert(ps.take(i + 1).last() == ps[i as int]);
            assert(ps.take(i + 1) + ps.skip(i + 1) =~= ps);
            lemma_included_concat(ps.take(i + 1), ps.skip(i + 1), f);
            lemma_all_ops_concat(inc_next, included_parts(ps.skip(i + 1), f));
            lemma_sums_concat(all_ops(inc_next), all_ops(included_parts(ps.skip(i + 1), f)));
            if included(ps[i as int], f) {
                assert(inc_next == inc_i.push(ps[i as int]));
                assert(inc_i.push(ps[i as int]) =~= inc_i + seq![ps[i as int]]);
                lemma_all_ops_concat(inc_i, seq![ps[i as int]]);
                assert(seq![ps[i as int]].drop_last() =~= Seq::<PartitionUpdate>::empty());
                assert(all_ops(seq![ps[i as int]]) == all_ops(Seq::<PartitionUpdate>::empty()) + ps[i as int].operations@);
                assert(Seq::<InstallOperation>::empty() + ps[i as int].operations@ =~= ps[i as int].operations@);
                lemma_sums_concat(all_ops(inc_i), ps[i as int].operations@);
            } else {
                assert(inc_next == inc_i);
            }
        }
        let admitted = match filter_partitions {
            Some(filter) => filter_contains(filter, p.partition_name.as_str()),
            None => true,
        };
        if admitted && p.new_partition_info.is_some() {
            if bs == 0 {
                return false;
            }
            match extent_counts(&p.operations) {
                Some(_) => {},
                None => return false,
            }
            let size = match &p.new_partition_info {
                Some(info) => match info.size {
                    Some(v) => v,
                    None => 0,
                },
                None => 0,
            };
            let start = match first_dst_data_offset(&p.operations) {
                Some(o) => match data_offset.checked_add(o) {
                    Some(v) => v,
                    None => return false,
                },
                None => data_offset,
            };
            match start.checked_add(size) {
                Some(_) => {},
                None => return false,
            }
            total_ops = match total_ops.checked_add(p.operations.len()) {
                Some(v) => v,
                None => return false,
            };
            total_data = match add_data_lengths(total_data, &p.operations) {
                Some(v) => v,
                None => return false,
            };
        }
        i = i + 1;
    }
    assert(ps.take(n as int) =~= ps);
    true
}


/// How many of `ops` are of kind `t`.
pub open spec fn count_of_type(ops: Seq<InstallOperation>, t: OpType) -> int
    decreases ops.len(),
{
    if ops.len() == 0 {
        0
    } else {
        count_of_type(ops.drop_last(), t) + if ops.last().op_type == t { 1int } else { 0int }
    }
}

/// The data length of the operations of kind `t` among `ops`.
pub open spec fn data_of_type(ops: Seq<InstallOperation>, t: OpType) -> int
    decreases ops.len(),
{
    if ops.len() == 0 {
        0
    } else {
        data_of_type(ops.drop_last(), t) + if ops.last().op_type == t { data_len(ops.last()) as int } else { 0int }
    }
}

proof fn lemma_code_injective(a: OpType, b: OpType)
    ensures
        spec_op_code(a) == spec_op_code(b) ==> a == b,
{
}

proof fn lemma_kind_bounds(ops: Seq<InstallOperation>, t: OpType)
    ensures
        0 <= count_of_type(ops, t) <= ops.len(),
        0 <= data_of_type(ops, t) <= ops_data_sum(ops),
        count_of_type(ops, t) == 0 ==> data_of_type(ops, t) == 0,
    decreases ops.len(),
{
    if ops.len() > 0 {
        lemma_kind_bounds(ops.drop_last(), t);
    }
}

/// The statistics of a kind count exactly the operations of that kind and
/// add up exactly their data lengths; a kind is listed when, and only
/// when, some operation has it.
pub proof fn lemma_op_stats_by_kind(ops: Seq<InstallOperation>, t: OpType)
    requires
        ops.len() <= usize::MAX,
        ops_data_sum(ops) <= u64::MAX,
    ensures
        op_stats(ops).dom().contains(spec_op_code(t)) <==> count_of_type(ops, t) > 0,
        count_of_type(ops, t) > 0 ==> op_stats(ops)[spec_op_code(t)] == (
            count_of_type(ops, t) as usize,
            data_of_type(ops, t) as u64,
        ),
    decreases ops.len(),
{
    if ops.len() > 0 {
        let d = ops.drop_last();
        let last = ops.last();
        lemma_sums_concat(Seq::<InstallOperation>::empty(), d);
        lemma_op_stats_by_kind(d, t);
        lemma_kind_bounds(d, t);
        lemma_kind_bounds(ops, t);
        lemma_code_injective(last.op_type, t);
        let m = op_stats(d);
        assert(op_stats(ops) == stats_step(m, last));
        if last.op_type == t {
            let k = spec_op_code(t);
            let prev = if m.dom().contains(k) { m[k] } else { (0usize, 0u64) };
            assert(prev.0 == count_of_type(d, t));
            assert(prev.1 == data_of_type(d, t));
            assert(count_of_type(ops, t) == count_of_type(d, t) + 1);
            assert(data_of_type(ops, t) == data_of_type(d, t) + data_len(last));
            assert(op_stats(ops)[k] == ((prev.0 + 1) as usize, (prev.1 + data_len(last)) as u64));
        }
    }
}

/// The operations' data of all partitions, partition by partition.
pub open spec fn partitions_data_sum(ps: Seq<PartitionUpdate>) -> int
    decreases ps.len(),
{
    if ps.len() == 0 {
        0
    } else {
        partitions_data_sum(ps.drop_last()) + ops_data_sum(ps.last().operations@)
    }
}

/// The number of operations of all partitions, partition by partition.
pub open spec fn partitions_op_count(ps: Seq<PartitionUpdate>) -> int
    decreases ps.len(),
{
    if ps.len() == 0 {
        0
    } else {
        partitions_op_count(ps.drop_last()) + ps.last().operations@.len()
    }
}

/// The payload's totals are the sums of the partitions' totals.
pub proof fn lemma_totals_are_partition_sums(ps: Seq<PartitionUpdate>)
    ensures
        ops_data_sum(all_ops(ps)) == partitions_data_sum(ps),
        all_ops(ps).len() == partitions_op_count(ps),
    decreases ps.len(),
{
    if ps.len() > 0 {
        lemma_totals_are_partition_sums(ps.drop_last());
        lemma_sums_concat(all_ops(ps.drop_last()), ps.last().operations@);
    }
}

/// A partition summarized in compact mode and in full mode agrees outside
/// the operation list: names, sizes, offsets, counts, compression,
/// encryption, data totals and extent counts are the same; the compact
/// summary lists no operations, the full one lists each operation with
/// its index.
pub proof fn lemma_modes_agree(x: PartitionMetadata, y: PartitionMetadata, p: PartitionUpdate, bs: u64, data_offset: u64)
    requires
        partition_matches(x, p, bs, data_offset, false),
        partition_matches(y, p, bs, data_offset, true),
    ensures
        x.partition_name@ == y.partition_name@,
        x.size_in_bytes == y.size_in_bytes,
        x.size_in_blocks == y.size_in_blocks,
        x.total_blocks == y.total_blocks,
        x.start_offset == y.start_offset,
        x.end_offset == y.end_offset,
        x.data_offset == y.data_offset,
        x.partition_type@ == y.partition_type@,
        x.operations_count == y.operations_count,
        x.compression_type@ == y.compression_type@,
        x.encryption@ == y.encryption@,
        x.block_size == y.block_size,
        x.run_postinstall == y.run_postinstall,
        x.postinstall_path == y.postinstall_path,
        x.filesystem_type == y.filesystem_type,
        x.postinstall_optional == y.postinstall_optional,
        x.hash_tree_algorithm == y.hash_tree_algorithm,
        x.version == y.version,
        x.hash_tree_data_extent == y.hash_tree_data_extent,
        x.hash_tree_extent == y.hash_tree_extent,
        x.fec_data_extent == y.fec_data_extent,
        x.fec_extent == y.fec_extent,
        x.fec_roots == y.fec_roots,
        x.estimate_cow_size == y.estimate_cow_size,
        x.estimate_op_count_max == y.estimate_op_count_max,
        x.merge_operations_count == y.merge_operations_count,
        x.signature_count == y.signature_count,
        x.total_data_size == y.total_data_size,
        x.num_src_extents == y.num_src_extents,
        x.num_dst_extents == y.num_dst_extents,
        x.operations@.len() == 0,
        y.operations@.len() == p.operations@.len(),
        forall|k: int| 0 <= k < y.operations@.len() ==> (#[trigger] y.operations@[k]).operation_index == k,
{
    assert forall|k: int| 0 <= k < y.operations@.len() implies (#[trigger] y.operations@[k]).operation_index == k by {
        assert(op_info_of(y.operations@[k], k, p.operations@[k]));
    }
}

/// Two lists hold the same statistics: each entry of either has an entry
/// of the same name, count and data size in the other.
pub open spec fn stats_same(a: Seq<OperationTypeStats>, b: Seq<OperationTypeStats>) -> bool {
    &&& forall|i: int| 0 <= i < a.len() ==> stat_in(#[trigger] a[i], b)
    &&& forall|j: int| 0 <= j < b.len() ==> stat_in(#[trigger] b[j], a)
}

pub open spec fn stat_eq(x: OperationTypeStats, y: OperationTypeStats) -> bool {
    x.operation_type@ == y.operation_type@ && x.count == y.count && x.total_data_size == y.total_data_size
}

/// `v` holds an entry of the same name, count and data size as `x`.
pub open spec fn stat_in(x: OperationTypeStats, v: Seq<OperationTypeStats>) -> bool {
    exists|j: int| 0 <= j < v.len() && stat_eq(x, #[trigger] v[j])
}

/// Two listings of the same statistics hold the same entries, each once:
/// they are equal but for their order.
pub proof fn lemma_stats_listed_same(a: Seq<OperationTypeStats>, b: Seq<OperationTypeStats>, m: Map<u64, (usize, u64)>)
    requires
        stats_listed(a, m),
        stats_listed(b, m),
    ensures
        stats_same(a, b),
{
    assert forall|i: int| 0 <= i < a.len() implies stat_in(#[trigger] a[i], b) by {
        let k = spec_op_code(stat_kind(a[i]));
        let j = choose|j: int| 0 <= j < b.len() && spec_op_code(stat_kind(#[trigger] b[j])) == k;
        assert(stat_kind(a[i]) == stat_kind(b[j]));
        assert(stat_eq(a[i], b[j]));
    }
    assert forall|j: int| 0 <= j < b.len() implies stat_in(#[trigger] b[j], a) by {
        let k = spec_op_code(stat_kind(b[j]));
        let i = choose|i: int| 0 <= i < a.len() && spec_op_code(stat_kind(#[trigger] a[i])) == k;
        assert(stat_kind(a[i]) == stat_kind(b[j]));
        assert(stat_eq(b[j], a[i]));
    }
}

/// A compact and a full summary of the same manifest, with the same data
/// offset, filter and source, agree everywhere but in the operation lists:
/// the payload's fields and totals are equal, the statistics are the same
/// entries (in any order), and each partition agrees as
/// [`lemma_modes_agree`] says, its statistics included.
pub proof fn lemma_summary_modes_agree(
    m0: PayloadMetadata,
    m1: PayloadMetadata,
    manifest: DeltaArchiveManifest,
    data_offset: u64,
    f: Option<Set<Seq<char>>>,
    source_info: Option<SourceInfo>,
)
    requires
        metadata_matches(m0, manifest, data_offset, false, f, source_info),
        metadata_matches(m1, manifest, data_offset, true, f, source_info),
    ensures
        m0.partitions@.len() == m1.partitions@.len(),
        m0.partitions_count == m1.partitions_count,
        m0.total_payload_size == m1.total_payload_size,
        m0.total_operations_count == m1.total_operations_count,
        m0.source_info == m1.source_info,
        m0.security_patch_level == m1.security_patch_level,
        m0.block_size == m1.block_size,
        m0.minor_version == m1.minor_version,
        m0.max_timestamp == m1.max_timestamp,
        m0.partial_update == m1.partial_update,
        m0.apex_info_count == m1.apex_info_count,
        m0.signatures_offset == m1.signatures_offset,
        m0.signatures_size == m1.signatures_size,
        stats_same(m0.global_operation_stats@, m1.global_operation_stats@),
        forall|k: int| 0 <= k < m0.partitions@.len() ==> {
            &&& (#[trigger] m0.partitions@[k]).operations@.len() == 0
            &&& m1.partitions@[k].operations@.len() == m1.partitions@[k].operations_count
            &&& m0.partitions@[k].operations_count == m1.partitions@[k].operations_count
            &&& m0.partitions@[k].total_data_size == m1.partitions@[k].total_data_size
            &&& m0.partitions@[k].num_src_extents == m1.partitions@[k].num_src_extents
            &&& m0.partitions@[k].num_dst_extents == m1.partitions@[k].num_dst_extents
            &&& stats_same(m0.partitions@[k].operation_type_stats@, m1.partitions@[k].operation_type_stats@)
        },
{
    let inc = included_parts(manifest.partitions@, f);
    let bs = manifest_block_size(manifest);
    lemma_stats_listed_same(m0.global_operation_stats@, m1.global_operation_stats@, op_stats(all_ops(inc)));
    assert forall|k: int| 0 <= k < m0.partitions@.len() implies {
        &&& (#[trigger] m0.partitions@[k]).operations@.len() == 0
        &&& m1.partitions@[k].operations@.len() == m1.partitions@[k].operations_count
        &&& m0.partitions@[k].operations_count == m1.partitions@[k].operations_count
        &&& m0.partitions@[k].total_data_size == m1.partitions@[k].total_data_size
        &&& m0.partitions@[k].num_src_extents == m1.partitions@[k].num_src_extents
        &&& m0.partitions@[k].num_dst_extents == m1.partitions@[k].num_dst_extents
        &&& stats_same(m0.partitions@[k].operation_type_stats@, m1.partitions@[k].operation_type_stats@)
    } by {
        assert(partition_matches(m0.partitions@[k], inc[k], bs as u64, data_offset, false));
        assert(partition_matches(m1.partitions@[k], inc[k], bs as u64, data_offset, true));
        lemma_modes_agree(m0.partitions@[k], m1.partitions@[k], inc[k], bs as u64, data_offset);
        lemma_stats_listed_same(
            m0.partitions@[k].operation_type_stats@,
            m1.partitions@[k].operation_type_stats@,
            op_stats(inc[k].operations@),
        );
    }
}

/// Whether an operation of kind `t` names a compression: `REPLACE_XZ`,
/// `REPLACE_BZ` or `ZSTD`.
pub open spec fn names_compression(t: OpType) -> bool {
    t == OpType::ReplaceXz || t == OpType::ReplaceBz || t == OpType::Zstd
}

/// The compression that a kind names.
pub open spec fn compression_label(t: OpType) -> Seq<char> {
    if t == OpType::ReplaceXz {
        "xz"@
    } else if t == OpType::ReplaceBz {
        "bz2"@
    } else {
        "zstd"@
    }
}

/// The index of the first operation from `k` on that names a
/// compression; the length where none does.
spec fn first_compressing(ops: Seq<InstallOperation>, k: int) -> int
    decreases ops.len() - k,
{
    if k < 0 || k >= ops.len() {
        ops.len() as int
    } else if names_compression(ops[k].op_type) {
        k
    } else {
        first_compressing(ops, k + 1)
    }
}

proof fn lemma_first_compressing(ops: Seq<InstallOperation>, k: int)
    requires
        0 <= k <= ops.len(),
    ensures
        k <= first_compressing(ops, k) <= ops.len(),
        first_compressing(ops, k) < ops.len() ==> names_compression(ops[first_compressing(ops, k)].op_type),
        forall|j: int| k <= j < first_compressing(ops, k) ==> !names_compression(#[trigger] ops[j].op_type),
        spec_compression_from(ops, k) == (if first_compressing(ops, k) < ops.len() {
            compression_label(ops[first_compressing(ops, k)].op_type)
        } else {
            "none"@
        }),
    decreases ops.len() - k,
{
    if k < ops.len() && !names_compression(ops[k].op_type) {
        lemma_first_compressing(ops, k + 1);
    }
}

/// A partition's compression type is that of the first of its operations
/// that names one (`xz` for `REPLACE_XZ`, `bz2` for `REPLACE_BZ`, `zstd`
/// for `ZSTD`), whatever operations of other kinds come before it; it is
/// `none` exactly when no operation names a compression.
pub proof fn lemma_partition_compression(pm: PartitionMetadata, p: PartitionUpdate, bs: u64, data_offset: u64, full: bool)
    requires
        partition_matches(pm, p, bs, data_offset, full),
    ensures
        (forall|i: int| 0 <= i < p.operations@.len() ==> !names_compression(#[trigger] p.operations@[i].op_type))
            ==> pm.compression_type@ == "none"@,
        forall|i: int|
            0 <= i < p.operations@.len() && names_compression(#[trigger] p.operations@[i].op_type) && (forall|j: int|
                0 <= j < i ==> !names_compression(#[trigger] p.operations@[j].op_type)) ==> pm.compression_type@
                == compression_label(p.operations@[i].op_type),
        (exists|i: int| 0 <= i < p.operations@.len() && names_compression(#[trigger] p.operations@[i].op_type))
            ==> pm.compression_type@ != "none"@,
{
    let ops = p.operations@;
    lemma_first_compressing(ops, 0);
    let f = first_compressing(ops, 0);
    assert forall|i: int|
        0 <= i < ops.len() && names_compression(#[trigger] ops[i].op_type) && (forall|j: int|
            0 <= j < i ==> !names_compression(#[trigger] ops[j].op_type)) implies pm.compression_type@
            == compression_label(ops[i].op_type) by {
        if f < i {
            assert(!names_compression(ops[f].op_type));
        }
        if f > i {
            assert(!names_compression(ops[i].op_type));
        }
    }
    if forall|i: int| 0 <= i < ops.len() ==> !names_compression(#[trigger] ops[i].op_type) {
        if f < ops.len() {
            assert(!names_compression(ops[f].op_type));
        }
    }
    if exists|i: int| 0 <= i < ops.len() && names_compression(#[trigger] ops[i].op_type) {
        let i0 = choose|i: int| 0 <= i < ops.len() && names_compression(#[trigger] ops[i].op_type);
        if f >= ops.len() {
            assert(!names_compression(ops[i0].op_type));
        }
        reveal_strlit("none");
        reveal_strlit("xz");
        reveal_strlit("bz2");
        reveal_strlit("zstd");
        assert(compression_label(ops[f].op_type).len() != 4 || compression_label(ops[f].op_type)[0] != 'n');
    }
}

/// The names of `CowMergeOperation.Type` in `update_metadata.proto`, in
/// the order of their protobuf numbers, 0 to 2.
pub open spec fn proto_cow_names() -> Seq<Seq<char>> {
    seq!["COW_COPY"@, "COW_XOR"@, "COW_REPLACE"@]
}

/// A merge operation is named as `update_metadata.proto` numbers its kind:
/// number `n` of 0 to 2 carries the proto's `n`-th name (0 `COW_COPY`,
/// 1 `COW_XOR`, 2 `COW_REPLACE`); any other number, or none, reads
/// `UNKNOWN`.
pub proof fn lemma_merge_name_by_proto_number(r: MergeOperationInfo, m: CowMergeOperation)
    requires
        merge_info_of(r, m),
    ensures
        (m.op_type matches Some(v) && 0 <= v < 3) ==> r.operation_type@ == proto_cow_names()[m.op_type->Some_0 as int],
        !(m.op_type matches Some(v) && 0 <= v < 3) ==> r.operation_type@ == "UNKNOWN"@,
{
}

/// The kinds that name a compression are those `update_metadata.proto`
/// numbers 1 (`REPLACE_BZ`, `bz2`), 8 (`REPLACE_XZ`, `xz`) and 14 (`ZSTD`,
/// `zstd`).
pub proof fn lemma_compression_by_proto_number(t: OpType)
    ensures
        names_compression(t) <==> (spec_op_code(t) == 1 || spec_op_code(t) == 8 || spec_op_code(t) == 14),
        spec_op_code(t) == 1 ==> compression_label(t) == "bz2"@,
        spec_op_code(t) == 8 ==> compression_label(t) == "xz"@,
        spec_op_code(t) == 14 ==> compression_label(t) == "zstd"@,
{
}

} // verus!
