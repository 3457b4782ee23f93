//! The parts of the update manifest (`DeltaArchiveManifest` of
//! `update_metadata.proto`) that the dumper reads, as plain values. The
//! protobuf decoding itself happens at the edge of the library.

use vstd::prelude::*;

verus! {

/// A run of blocks.
#[derive(Debug, Clone, Copy)]
pub struct Extent {
    pub start_block: Option<u64>,
    pub num_blocks: Option<u64>,
}

/// The kind of an install operation (`InstallOperation.Type`).
#[derive(Debug, Clone, Copy, PartialEq, Eq, Structural)]
pub enum OpType {
    Replace,
    ReplaceBz,
    Move,
    Bsdiff,
    SourceCopy,
    SourceBsdiff,
    Zero,
    Discard,
    ReplaceXz,
    Puffdiff,
    BrotliBsdiff,
    Zucchini,
    Lz4diffBsdiff,
    Lz4diffPuffdiff,
    Zstd,
}

/// The protobuf number of each operation kind.
pub open spec fn spec_op_code(t: OpType) -> u64 {
    match t {
        OpType::Replace => 0,
        OpType::ReplaceBz => 1,
        OpType::Move => 2,
        OpType::Bsdiff => 3,
        OpType::SourceCopy => 4,
        OpType::SourceBsdiff => 5,
        OpType::Zero => 6,
        OpType::Discard => 7,
        OpType::ReplaceXz => 8,
        OpType::Puffdiff => 9,
        OpType::BrotliBsdiff => 10,
        OpType::Zucchini => 11,
        OpType::Lz4diffBsdiff => 12,
        OpType::Lz4diffPuffdiff => 13,
        OpType::Zstd => 14,
    }
}

/// The protobuf name of each operation kind.
pub open spec fn spec_op_name(t: OpType) -> Seq<char> {
    match t {
        OpType::Replace => "REPLACE"@,
        OpType::ReplaceBz => "REPLACE_BZ"@,
        OpType::Move => "MOVE"@,
        OpType::Bsdiff => "BSDIFF"@,
        OpType::SourceCopy => "SOURCE_COPY"@,
        OpType::SourceBsdiff => "SOURCE_BSDIFF"@,
        OpType::Zero => "ZERO"@,
        OpType::Discard => "DISCARD"@,
        OpType::ReplaceXz => "REPLACE_XZ"@,
        OpType::Puffdiff => "PUFFDIFF"@,
        OpType::BrotliBsdiff => "BROTLI_BSDIFF"@,
        OpType::Zucchini => "ZUCCHINI"@,
        OpType::Lz4diffBsdiff => "LZ4DIFF_BSDIFF"@,
        OpType::Lz4diffPuffdiff => "LZ4DIFF_PUFFDIFF"@,
        OpType::Zstd => "ZSTD"@,
    }
}

/// Distinct operation kinds have distinct names.
pub proof fn lemma_op_name_injective(a: OpType, b: OpType)
    requires
        spec_op_name(a) == spec_op_name(b),
    ensures
        a == b,
{
    reveal_strlit("REPLACE");
    reveal_strlit("REPLACE_BZ");
    reveal_strlit("MOVE");
    reveal_strlit("BSDIFF");
    reveal_strlit("SOURCE_COPY");
    reveal_strlit("SOURCE_BSDIFF");
    reveal_strlit("ZERO");
    reveal_strlit("DISCARD");
    reveal_strlit("REPLACE_XZ");
    reveal_strlit("PUFFDIFF");
    reveal_strlit("BROTLI_BSDIFF");
    reveal_strlit("ZUCCHINI");
    reveal_strlit("LZ4DIFF_BSDIFF");
    reveal_strlit("LZ4DIFF_PUFFDIFF");
    reveal_strlit("ZSTD");
    let x = spec_op_name(a);
    let y = spec_op_name(b);
    assert(x.len() == y.len());
    assert(x[0] == y[0]);
    if x.len() > 1 {
        assert(x[1] == y[1]);
    }
    if x.len() > 8 {
        assert(x[8] == y[8]);
    }
}

/// The names of `InstallOperation.Type` in `update_metadata.proto`, in the
/// order of their protobuf numbers, 0 to 14.
pub open spec fn proto_op_names() -> Seq<Seq<char>> {
    seq![
        "REPLACE"@,
        "REPLACE_BZ"@,
        "MOVE"@,
        "BSDIFF"@,
        "SOURCE_COPY"@,
        "SOURCE_BSDIFF"@,
        "ZERO"@,
        "DISCARD"@,
        "REPLACE_XZ"@,
        "PUFFDIFF"@,
        "BROTLI_BSDIFF"@,
        "ZUCCHINI"@,
        "LZ4DIFF_BSDIFF"@,
        "LZ4DIFF_PUFFDIFF"@,
        "ZSTD"@,
    ]
}

/// Every kind carries the number and the name that `update_metadata.proto`
/// gives it: the kind numbered `n` (what `code` gives and `from_code`
/// decodes) is named (by `as_str_name`) with the proto's `n`-th name.
pub proof fn lemma_op_table_matches_proto(t: OpType)
    ensures
        spec_op_code(t) < proto_op_names().len(),
        spec_op_name(t) == proto_op_names()[spec_op_code(t) as int],
{
}

/// Decoding a protobuf number gives the kind the proto declares under that
/// number: for each number `c` up to 14, the kind that `from_code(c)`
/// returns (the one with `spec_op_code == c`) is named with the proto's
/// name of `c`; so `from_code(4)` is `SOURCE_COPY` and `from_code(5)` is
/// `SOURCE_BSDIFF`.
pub proof fn lemma_decoded_kind_is_proto_kind(c: u64, t: OpType)
    requires
        c <= 14,
        spec_op_code(t) == c,
    ensures
        spec_op_name(t) == proto_op_names()[c as int],
        forall|u: OpType| spec_op_code(u) == c ==> u == t,
{
    lemma_op_table_matches_proto(t);
    assert forall|u: OpType| spec_op_code(u) == c implies u == t by {
        lemma_op_table_matches_proto(u);
        lemma_op_name_injective(u, t);
    }
}

impl OpType {
    /// The protobuf number of this kind.
    pub fn code(&self) -> (r: u64)
        ensures
            r == spec_op_code(*self),
    {
        match self {
            OpType::Replace => 0,
            OpType::ReplaceBz => 1,
            OpType::Move => 2,
            OpType::Bsdiff => 3,
            OpType::SourceCopy => 4,
            OpType::SourceBsdiff => 5,
            OpType::Zero => 6,
            OpType::Discard => 7,
            OpType::ReplaceXz => 8,
            OpType::Puffdiff => 9,
            OpType::BrotliBsdiff => 10,
            OpType::Zucchini => 11,
            OpType::Lz4diffBsdiff => 12,
            OpType::Lz4diffPuffdiff => 13,
            OpType::Zstd => 14,
        }
    }

    /// The kind with protobuf number `code`; unknown numbers read as
    /// `REPLACE`, the enumeration's default.
    pub fn from_code(code: u64) -> (r: OpType)
        ensures
            code <= 14 ==> spec_op_code(r) == code,
            code > 14 ==> r == OpType::Replace,
    {
        if code == 1 {
            OpType::ReplaceBz
        } else if code == 2 {
            OpType::Move
        } else if code == 3 {
            OpType::Bsdiff
        } else if code == 4 {
            OpType::SourceCopy
        } else if code == 5 {
            OpType::SourceBsdiff
        } else if code == 6 {
            OpType::Zero
        } else if code == 7 {
            OpType::Discard
        } else if code == 8 {
            OpType::ReplaceXz
        } else if code == 9 {
            OpType::Puffdiff
        } else if code == 10 {
            OpType::BrotliBsdiff
        } else if code == 11 {
            OpType::Zucchini
        } else if code == 12 {
            OpType::Lz4diffBsdiff
        } else if code == 13 {
            OpType::Lz4diffPuffdiff
        } else if code == 14 {
            OpType::Zstd
        } else {
            OpType::Replace
        }
    }

    /// The protobuf name of this kind, such as `SOURCE_COPY`.
    pub fn as_str_name(&self) -> (r: &'static str)
        ensures
            r@ == spec_op_name(*self),
    {
        match self {
            OpType::Replace => "REPLACE",
            OpType::ReplaceBz => "REPLACE_BZ",
            OpType::Move => "MOVE",
            OpType::Bsdiff => "BSDIFF",
            OpType::SourceCopy => "SOURCE_COPY",
            OpType::SourceBsdiff => "SOURCE_BSDIFF",
            OpType::Zero => "ZERO",
            OpType::Discard => "DISCARD",
            OpType::ReplaceXz => "REPLACE_XZ",
            OpType::Puffdiff => "PUFFDIFF",
            OpType::BrotliBsdiff => "BROTLI_BSDIFF",
            OpType::Zucchini => "ZUCCHINI",
            OpType::Lz4diffBsdiff => "LZ4DIFF_BSDIFF",
            OpType::Lz4diffPuffdiff => "LZ4DIFF_PUFFDIFF",
            OpType::Zstd => "ZSTD",
        }
    }
}

/// The name Rust's `Debug` gives each operation kind.
pub open spec fn spec_op_debug_name(t: OpType) -> Seq<char> {
    match t {
        OpType::Replace => "Replace"@,
        OpType::ReplaceBz => "ReplaceBz"@,
        OpType::Move => "Move"@,
        OpType::Bsdiff => "Bsdiff"@,
        OpType::SourceCopy => "SourceCopy"@,
        OpType::SourceBsdiff => "SourceBsdiff"@,
        OpType::Zero => "Zero"@,
        OpType::Discard => "Discard"@,
        OpType::ReplaceXz => "ReplaceXz"@,
        OpType::Puffdiff => "Puffdiff"@,
        OpType::BrotliBsdiff => "BrotliBsdiff"@,
        OpType::Zucchini => "Zucchini"@,
        OpType::Lz4diffBsdiff => "Lz4diffBsdiff"@,
        OpType::Lz4diffPuffdiff => "Lz4diffPuffdiff"@,
        OpType::Zstd => "Zstd"@,
    }
}

impl OpType {
    /// The name Rust's `Debug` gives this kind, such as `SourceCopy`.
    pub fn debug_name(&self) -> (r: &'static str)
        ensures
            r@ == spec_op_debug_name(*self),
    {
        match self {
            OpType::Replace => "Replace",
            OpType::ReplaceBz => "ReplaceBz",
            OpType::Move => "Move",
            OpType::Bsdiff => "Bsdiff",
            OpType::SourceCopy => "SourceCopy",
            OpType::SourceBsdiff => "SourceBsdiff",
            OpType::Zero => "Zero",
            OpType::Discard => "Discard",
            OpType::ReplaceXz => "ReplaceXz",
            OpType::Puffdiff => "Puffdiff",
            OpType::BrotliBsdiff => "BrotliBsdiff",
            OpType::Zucchini => "Zucchini",
            OpType::Lz4diffBsdiff => "Lz4diffBsdiff",
            OpType::Lz4diffPuffdiff => "Lz4diffPuffdiff",
            OpType::Zstd => "Zstd",
        }
    }
}

/// An install operation.
#[derive(Debug, Clone)]
pub struct InstallOperation {
    pub op_type: OpType,
    pub data_offset: Option<u64>,
    pub data_length: Option<u64>,
    pub src_extents: Vec<Extent>,
    pub src_length: Option<u64>,
    pub dst_extents: Vec<Extent>,
    pub dst_length: Option<u64>,
    pub data_sha256_hash: Option<Vec<u8>>,
    pub src_sha256_hash: Option<Vec<u8>>,
}

/// Size and hash of a partition image.
#[derive(Debug, Clone)]
pub struct PartitionInfo {
    pub size: Option<u64>,
    pub hash: Option<Vec<u8>>,
}

/// A signature of a partition image.
#[derive(Debug, Clone)]
pub struct Signature {
    pub data: Option<Vec<u8>>,
    pub unpadded_signature_size: Option<u32>,
}

/// A copy-on-write merge operation, its kind kept as the raw number.
#[derive(Debug, Clone)]
pub struct CowMergeOperation {
    pub op_type: Option<i32>,
    pub src_extent: Option<Extent>,
    pub dst_extent: Option<Extent>,
    pub src_offset: Option<u32>,
}

/// The update of one partition.
#[derive(Debug, Clone)]
pub struct PartitionUpdate {
    pub partition_name: String,
    pub run_postinstall: Option<bool>,
    pub postinstall_path: Option<String>,
    pub filesystem_type: Option<String>,
    pub new_partition_signature: Vec<Signature>,
    pub old_partition_info: Option<PartitionInfo>,
    pub new_partition_info: Option<PartitionInfo>,
    pub operations: Vec<InstallOperation>,
    pub postinstall_optional: Option<bool>,
    pub hash_tree_data_extent: Option<Extent>,
    pub hash_tree_extent: Option<Extent>,
    pub hash_tree_algorithm: Option<String>,
    pub hash_tree_salt: Option<Vec<u8>>,
    pub fec_data_extent: Option<Extent>,
    pub fec_extent: Option<Extent>,
    pub fec_roots: Option<u32>,
    pub version: Option<String>,
    pub merge_operations: Vec<CowMergeOperation>,
    pub estimate_cow_size: Option<u64>,
    pub estimate_op_count_max: Option<u64>,
}

/// A group of dynamic partitions.
#[derive(Debug, Clone)]
pub struct DynamicPartitionGroup {
    pub name: String,
    pub size: Option<u64>,
    pub partition_names: Vec<String>,
}

/// Features of virtual A/B compression.
#[derive(Debug, Clone, Copy)]
pub struct VabcFeatureSet {
    pub threaded: Option<bool>,
    pub batch_writes: Option<bool>,
}

/// The layout of dynamic partitions.
#[derive(Debug, Clone)]
pub struct DynamicPartitionMetadata {
    pub groups: Vec<DynamicPartitionGroup>,
    pub snapshot_enabled: Option<bool>,
    pub vabc_enabled: Option<bool>,
    pub vabc_compression_param: Option<String>,
    pub cow_version: Option<u32>,
    pub vabc_feature_set: Option<VabcFeatureSet>,
    pub compression_factor: Option<u64>,
}

/// An APEX package carried by the update.
#[derive(Debug, Clone)]
pub struct ApexInfo {
    pub package_name: Option<String>,
    pub version: Option<i64>,
    pub is_compressed: Option<bool>,
    pub decompressed_size: Option<i64>,
}

/// The update manifest.
#[derive(Debug, Clone)]
pub struct DeltaArchiveManifest {
    pub block_size: Option<u32>,
    pub signatures_offset: Option<u64>,
    pub signatures_size: Option<u64>,
    pub minor_version: Option<u32>,
    pub partitions: Vec<PartitionUpdate>,
    pub max_timestamp: Option<i64>,
    pub dynamic_partition_metadata: Option<DynamicPartitionMetadata>,
    pub partial_update: Option<bool>,
    pub apex_info: Vec<ApexInfo>,
    pub security_patch_level: Option<String>,
}

} // verus!
