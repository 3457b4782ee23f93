use ahash::AHashSet;
use payload_dumper::manifest::{
    ApexInfo, CowMergeOperation, DeltaArchiveManifest, DynamicPartitionGroup,
    DynamicPartitionMetadata, Extent, InstallOperation, OpType, PartitionInfo, PartitionUpdate,
    Signature, VabcFeatureSet,
};
use payload_dumper::metadata::{
    get_metadata, metadata_fits_check, ExtentInfo, OperationTypeStats, SourceInfo, ZipDetails,
};

fn ext(start: u64, blocks: u64) -> Extent {
    Extent { start_block: Some(start), num_blocks: Some(blocks) }
}

fn op(t: OpType, data_offset: Option<u64>, data_length: Option<u64>, dst: Vec<Extent>) -> InstallOperation {
    InstallOperation {
        op_type: t,
        data_offset,
        data_length,
        src_extents: vec![ext(1, 1)],
        src_length: None,
        dst_extents: dst,
        dst_length: None,
        data_sha256_hash: Some(vec![0xab, 0x01]),
        src_sha256_hash: None,
    }
}

fn partition(name: &str, size: Option<u64>, ops: Vec<InstallOperation>) -> PartitionUpdate {
    PartitionUpdate {
        partition_name: name.to_string(),
        run_postinstall: None,
        postinstall_path: Some("/post".to_string()),
        filesystem_type: None,
        new_partition_signature: vec![Signature { data: Some(vec![0xff]), unpadded_signature_size: Some(1) }],
        old_partition_info: Some(PartitionInfo { size: None, hash: Some(vec![0x0a]) }),
        new_partition_info: Some(PartitionInfo { size, hash: Some(vec![0xde, 0xad]) }),
        operations: ops,
        postinstall_optional: None,
        hash_tree_data_extent: Some(ext(0, 4)),
        hash_tree_extent: None,
        hash_tree_algorithm: None,
        hash_tree_salt: None,
        fec_data_extent: None,
        fec_extent: Some(Extent { start_block: None, num_blocks: Some(2) }),
        fec_roots: Some(2),
        version: None,
        merge_operations: vec![
            CowMergeOperation { op_type: Some(1), src_extent: None, dst_extent: Some(ext(3, 1)), src_offset: Some(5) },
            CowMergeOperation { op_type: Some(9), src_extent: None, dst_extent: None, src_offset: None },
            CowMergeOperation { op_type: None, src_extent: None, dst_extent: None, src_offset: None },
        ],
        estimate_cow_size: Some(100),
        estimate_op_count_max: None,
    }
}

fn manifest() -> DeltaArchiveManifest {
    DeltaArchiveManifest {
        block_size: None,
        signatures_offset: Some(10),
        signatures_size: Some(20),
        minor_version: None,
        partitions: vec![
            partition(
                "system",
                Some(4096 * 10 + 5),
                vec![
                    op(OpType::Zero, None, None, vec![]),
                    op(OpType::ReplaceXz, Some(100), Some(50), vec![ext(0, 2)]),
                    op(OpType::ReplaceBz, Some(150), Some(30), vec![ext(2, 1)]),
                    op(OpType::ReplaceXz, Some(180), Some(20), vec![ext(3, 1)]),
                ],
            ),
            partition("userdata_ext", Some(8192), vec![op(OpType::Replace, None, Some(7), vec![ext(0, 2)])]),
            PartitionUpdate { new_partition_info: None, ..partition("vendor", Some(1), vec![]) },
            partition("boot", None, vec![]),
        ],
        max_timestamp: Some(99),
        dynamic_partition_metadata: Some(DynamicPartitionMetadata {
            groups: vec![DynamicPartitionGroup {
                name: "main".to_string(),
                size: Some(1 << 30),
                partition_names: vec!["system".to_string(), "vendor".to_string()],
            }],
            snapshot_enabled: Some(true),
            vabc_enabled: None,
            vabc_compression_param: Some("lz4".to_string()),
            cow_version: Some(3),
            vabc_feature_set: Some(VabcFeatureSet { threaded: Some(true), batch_writes: None }),
            compression_factor: None,
        }),
        partial_update: Some(false),
        apex_info: vec![ApexInfo {
            package_name: Some("com.x".to_string()),
            version: Some(3),
            is_compressed: Some(true),
            decompressed_size: Some(77),
        }],
        security_patch_level: Some("2025-01-05".to_string()),
    }
}

fn stat(v: &[OperationTypeStats], t: OpType) -> Option<(usize, u64)> {
    v.iter().find(|s| s.operation_type == t.as_str_name()).map(|s| (s.count, s.total_data_size))
}

#[test]
fn metadata_of_all_partitions() {
    let m = manifest();
    assert!(metadata_fits_check(&m, 1000, None));
    let md = get_metadata(&m, 1000, false, None, None);
    assert_eq!(md.partitions_count, 3);
    assert_eq!(md.block_size, 4096);
    assert_eq!(md.minor_version, 0);
    assert_eq!(md.security_patch_level.as_deref(), Some("2025-01-05"));
    assert_eq!(md.total_payload_size, 107);
    assert_eq!(md.total_operations_count, 5);
    assert_eq!(md.apex_info_count, 1);
    assert_eq!(md.apex_info[0].decompressed_size, Some(77));
    assert_eq!(md.signatures_offset, Some(10));
    let dynamic = md.dynamic_partition_metadata.as_ref().unwrap();
    assert_eq!(dynamic.groups_count, 1);
    assert_eq!(dynamic.groups[0].partition_count, 2);
    assert_eq!(dynamic.groups[0].partition_names, vec!["system".to_string(), "vendor".to_string()]);
    assert_eq!(dynamic.vabc_feature_set.unwrap().threaded, Some(true));

    let g = &md.global_operation_stats;
    assert_eq!(g.len(), 4);
    assert_eq!(stat(g, OpType::ReplaceXz), Some((2, 70)));
    assert_eq!(stat(g, OpType::ReplaceBz), Some((1, 30)));
    assert_eq!(stat(g, OpType::Zero), Some((1, 0)));
    assert_eq!(stat(g, OpType::Replace), Some((1, 7)));

    let system = &md.partitions[0];
    assert_eq!(system.partition_name, "system");
    assert_eq!(system.partition_type, "system");
    assert_eq!(system.size_in_bytes, 4096 * 10 + 5);
    assert_eq!(system.size_in_blocks, 10);
    assert_eq!(system.total_blocks, 10);
    assert_eq!(system.hash.as_deref(), Some("dead"));
    assert_eq!(system.start_offset, 1100);
    assert_eq!(system.end_offset, 1100 + 4096 * 10 + 5);
    assert_eq!(system.data_offset, 1000);
    assert_eq!(system.operations_count, 4);
    assert_eq!(system.compression_type, "xz");
    assert_eq!(system.encryption, "none");
    assert_eq!(system.total_data_size, 100);
    assert_eq!(system.num_src_extents, 4);
    assert_eq!(system.num_dst_extents, 3);
    assert!(system.operations.is_empty());
    assert_eq!(system.operation_type_stats.len(), 3);
    assert_eq!(stat(&system.operation_type_stats, OpType::ReplaceXz), Some((2, 70)));
    assert_eq!(system.merge_operations_count, 3);
    assert_eq!(system.merge_operations[0].operation_type, "COW_XOR");
    assert_eq!(system.merge_operations[0].dst_extent, Some(ExtentInfo { start_block: 3, num_blocks: 1 }));
    assert_eq!(system.merge_operations[1].operation_type, "UNKNOWN");
    assert_eq!(system.merge_operations[2].operation_type, "UNKNOWN");
    assert_eq!(system.signature_count, 1);
    assert_eq!(system.new_partition_signatures[0].data.as_deref(), Some("ff"));
    let old = system.old_partition_info.as_ref().unwrap();
    assert_eq!(old.size, 0);
    assert_eq!(old.hash.as_deref(), Some("0a"));
    assert_eq!(system.hash_tree_data_extent, Some(ExtentInfo { start_block: 0, num_blocks: 4 }));
    assert_eq!(system.fec_extent, Some(ExtentInfo { start_block: 0, num_blocks: 2 }));
    assert_eq!(system.postinstall_path.as_deref(), Some("/post"));

    let userdata = &md.partitions[1];
    assert_eq!(userdata.encryption, "AES");
    assert_eq!(userdata.compression_type, "none");
    assert_eq!(userdata.start_offset, 1000);

    let boot = &md.partitions[2];
    assert_eq!(boot.size_in_bytes, 0);
    assert_eq!(boot.start_offset, 1000);
    assert_eq!(boot.end_offset, 1000);
    assert!(boot.operation_type_stats.is_empty());
}

#[test]
fn full_mode_lists_operations() {
    let m = manifest();
    let md = get_metadata(&m, 0, true, None, None);
    let ops = &md.partitions[0].operations;
    assert_eq!(ops.len(), 4);
    assert_eq!(ops[1].operation_type, "REPLACE_XZ");
    assert_eq!(ops[1].operation_index, 1);
    assert_eq!(ops[1].data_offset, Some(100));
    assert_eq!(ops[1].data_length, Some(50));
    assert_eq!(ops[1].dst_extents, vec![ExtentInfo { start_block: 0, num_blocks: 2 }]);
    assert_eq!(ops[1].data_sha256_hash.as_deref(), Some("ab01"));
    assert_eq!(ops[1].src_sha256_hash, None);
    assert_eq!(ops[0].operation_type, "ZERO");
}

#[test]
fn filter_keeps_named_partitions() {
    let m = manifest();
    let mut filter: AHashSet<&str> = AHashSet::new();
    filter.insert("userdata_ext");
    filter.insert("vendor");
    assert!(metadata_fits_check(&m, 0, Some(&filter)));
    let md = get_metadata(&m, 0, false, Some(&filter), None);
    assert_eq!(md.partitions_count, 1);
    assert_eq!(md.partitions[0].partition_name, "userdata_ext");
    assert_eq!(md.total_payload_size, 7);
    assert_eq!(md.total_operations_count, 1);
    assert_eq!(md.global_operation_stats.len(), 1);
}

#[test]
fn compression_names_follow_the_first_compressed_operation() {
    let mut m = manifest();
    m.partitions[0].operations.remove(1);
    let md = get_metadata(&m, 0, false, None, None);
    assert_eq!(md.partitions[0].compression_type, "bz2");
    m.partitions[0].operations = vec![op(OpType::Zstd, None, None, vec![])];
    let md = get_metadata(&m, 0, false, None, None);
    assert_eq!(md.partitions[0].compression_type, "zstd");
}

#[test]
fn fits_check_refuses_a_zero_block_size() {
    let mut m = manifest();
    m.block_size = Some(0);
    assert!(!metadata_fits_check(&m, 0, None));
    let mut empty: AHashSet<&str> = AHashSet::new();
    empty.insert("nothing");
    assert!(metadata_fits_check(&m, 0, Some(&empty)));
}

#[test]
fn fits_check_refuses_overflowing_sums_and_offsets() {
    let mut m = manifest();
    m.partitions[1].operations[0].data_length = Some(u64::MAX);
    assert!(!metadata_fits_check(&m, 0, None));
    let m = manifest();
    assert!(!metadata_fits_check(&m, u64::MAX - 50, None));
}

#[test]
fn op_type_codes_and_names() {
    for code in 0..=14u64 {
        let t = OpType::from_code(code);
        assert_eq!(t.code(), code);
    }
    assert_eq!(OpType::from_code(99), OpType::Replace);
    assert_eq!(OpType::SourceCopy.as_str_name(), "SOURCE_COPY");
    assert_eq!(OpType::Lz4diffPuffdiff.as_str_name(), "LZ4DIFF_PUFFDIFF");
    assert_eq!(OpType::Lz4diffPuffdiff.debug_name(), format!("{:?}", OpType::Lz4diffPuffdiff));
}

#[test]
fn metadata_carries_the_source_information() {
    let m = manifest();
    let src = SourceInfo {
        source_type: "local_zip".to_string(),
        file_name: "ota.zip".to_string(),
        file_path_or_url: "/tmp/ota.zip".to_string(),
        archive_size: Some(4096),
        archive_size_readable: Some("4.00 KB".to_string()),
        zip_details: Some(ZipDetails {
            entry_name: "payload.bin".to_string(),
            header_offset: 0,
            payload_data_offset: 41,
            uncompressed_size: 1000,
            uncompressed_size_readable: "1000 B".to_string(),
            compressed_size: 1000,
            compressed_size_readable: "1000 B".to_string(),
            compression_method: "Stored (uncompressed)".to_string(),
            total_entries: 1,
            central_directory_offset: 1041,
        }),
    };
    let md = get_metadata(&m, 0, false, None, Some(src.clone()));
    let got = md.source_info.unwrap();
    assert_eq!(got.file_name, "ota.zip");
    assert_eq!(got.archive_size, Some(4096));
    assert_eq!(got.zip_details.unwrap().payload_data_offset, 41);
    assert!(get_metadata(&m, 0, false, None, None).source_info.is_none());
}

#[test]
fn compact_and_full_summaries_agree_outside_the_operations() {
    let m = manifest();
    let c = get_metadata(&m, 1000, false, None, None);
    let f = get_metadata(&m, 1000, true, None, None);
    assert_eq!(c.partitions_count, f.partitions_count);
    assert_eq!(c.total_payload_size, f.total_payload_size);
    assert_eq!(c.total_operations_count, f.total_operations_count);
    let mut a: Vec<(String, usize, u64)> =
        c.global_operation_stats.iter().map(|s| (s.operation_type.clone(), s.count, s.total_data_size)).collect();
    let mut b: Vec<(String, usize, u64)> =
        f.global_operation_stats.iter().map(|s| (s.operation_type.clone(), s.count, s.total_data_size)).collect();
    a.sort();
    b.sort();
    assert_eq!(a, b);
    assert!(a.iter().any(|(n, _, _)| n == "REPLACE_XZ"));
    for (p0, p1) in c.partitions.iter().zip(f.partitions.iter()) {
        assert!(p0.operations.is_empty());
        assert_eq!(p1.operations.len(), p1.operations_count);
        for (k, op) in p1.operations.iter().enumerate() {
            assert_eq!(op.operation_index, k);
        }
        assert_eq!(p0.operations_count, p1.operations_count);
        assert_eq!(p0.total_data_size, p1.total_data_size);
        assert_eq!(p0.num_src_extents, p1.num_src_extents);
        assert_eq!(p0.num_dst_extents, p1.num_dst_extents);
        assert_eq!(p0.start_offset, p1.start_offset);
    }
}
