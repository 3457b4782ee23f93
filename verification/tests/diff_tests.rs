use payload_dumper::diff::{
    classify_diff_operation, extents_total, plan_patch_read, DiffContext, DiffError, DiffKind,
    ExtentStep, MAX_OPERATION_SIZE,
};
use payload_dumper::manifest::{Extent, OpType};
use std::path::PathBuf;

fn ext(start: u64, blocks: u64) -> Extent {
    Extent { start_block: Some(start), num_blocks: Some(blocks) }
}

fn ctx(block_size: u64) -> DiffContext {
    DiffContext::new(PathBuf::from("old"), block_size)
}

#[test]
fn diff_context_new_keeps_its_fields() {
    let c = DiffContext::new(PathBuf::from("src-images"), 4096);
    assert_eq!(c.source_dir, PathBuf::from("src-images"));
    assert_eq!(c.block_size, 4096);
}

#[test]
fn extents_total_sums_blocks() {
    assert_eq!(extents_total(&[ext(0, 2), ext(10, 3)], 4096), Some(5 * 4096));
    assert_eq!(extents_total(&[Extent { start_block: None, num_blocks: None }], 4096), Some(0));
    assert_eq!(extents_total(&[], 4096), Some(0));
    assert_eq!(extents_total(&[ext(0, u64::MAX)], 2), None);
    assert_eq!(extents_total(&[ext(0, u64::MAX / 2), ext(0, u64::MAX / 2), ext(0, 2)], 1), None);
}

#[test]
fn source_reads_follow_the_extents() {
    let plan = ctx(4096).plan_source_reads(&[ext(3, 1), ext(0, 0), ext(10, 2)]).unwrap();
    assert!(plan.error.is_none());
    assert_eq!(
        plan.steps,
        vec![
            ExtentStep { offset: 3 * 4096, length: 4096, data_start: 0 },
            ExtentStep { offset: 10 * 4096, length: 2 * 4096, data_start: 4096 },
        ]
    );
}

#[test]
fn source_reads_refuse_large_sources() {
    let blocks = MAX_OPERATION_SIZE / 4096 + 1;
    let e = ctx(4096).plan_source_reads(&[ext(0, blocks)]).unwrap_err();
    assert!(matches!(e, DiffError::SourceTooLarge(t) if t == blocks * 4096));
    assert_eq!(e.message(), format!("Source extents total size {} exceeds safety limit", blocks * 4096));
}

#[test]
fn source_reads_stop_at_an_offset_overflow() {
    let plan = ctx(4096).plan_source_reads(&[ext(1, 1), ext(u64::MAX / 2, 1), ext(2, 1)]).unwrap();
    assert_eq!(plan.steps, vec![ExtentStep { offset: 4096, length: 4096, data_start: 0 }]);
    let e = plan.error.unwrap();
    assert!(matches!(e, DiffError::OffsetOverflow(1)));
    assert_eq!(e.message(), "Offset overflow in extent 1");
}

#[test]
fn dst_writes_check_the_data_size() {
    let e = ctx(512).plan_dst_writes(&[ext(0, 2)], 1000).unwrap_err();
    assert!(matches!(e, DiffError::DataSizeMismatch { expected: 1024, got: 1000 }));
    assert_eq!(e.message(), "Data size mismatch: expected 1024 bytes, got 1000 bytes");
}

#[test]
fn dst_writes_cover_the_data() {
    let plan = ctx(512).plan_dst_writes(&[ext(4, 1), ext(1, 2)], 1536).unwrap();
    assert!(plan.error.is_none());
    assert_eq!(
        plan.steps,
        vec![
            ExtentStep { offset: 2048, length: 512, data_start: 0 },
            ExtentStep { offset: 512, length: 1024, data_start: 512 },
        ]
    );
}

#[test]
fn dst_writes_stop_at_an_offset_overflow() {
    let plan = ctx(4).plan_dst_writes(&[ext(1, 1), ext(u64::MAX, 1)], 8).unwrap();
    assert_eq!(plan.steps.len(), 1);
    let e = plan.error.unwrap();
    assert!(matches!(e, DiffError::DstOffsetOverflow(1)));
    assert_eq!(e.message(), "Offset overflow in dst extent 1");
}

#[test]
fn classify_operations() {
    assert_eq!(classify_diff_operation(OpType::SourceCopy).unwrap(), DiffKind::SourceCopy);
    assert_eq!(classify_diff_operation(OpType::SourceBsdiff).unwrap(), DiffKind::Bsdf2);
    assert_eq!(classify_diff_operation(OpType::BrotliBsdiff).unwrap(), DiffKind::Bsdf2);
    assert_eq!(classify_diff_operation(OpType::Lz4diffBsdiff).unwrap(), DiffKind::Lz4diff);
    assert_eq!(classify_diff_operation(OpType::Lz4diffPuffdiff).unwrap(), DiffKind::Lz4diff);
    assert_eq!(classify_diff_operation(OpType::Puffdiff).unwrap(), DiffKind::Puffdiff);
    let z = classify_diff_operation(OpType::Zucchini).unwrap_err();
    assert!(matches!(z, DiffError::ZucchiniUnsupported));
    assert_eq!(z.message(), "ZUCCHINI operation not supported");
    let r = classify_diff_operation(OpType::Replace).unwrap_err();
    assert!(matches!(r, DiffError::NotDiffOperation(OpType::Replace)));
    assert_eq!(r.message(), "Operation type Replace is not a differential operation");
}

#[test]
fn patch_reads_add_the_data_offset() {
    assert_eq!(plan_patch_read(DiffKind::Bsdf2, 1000, Some(24), Some(100)).unwrap(), (1024, 100));
    assert_eq!(plan_patch_read(DiffKind::Puffdiff, 1000, None, None).unwrap(), (1000, 0));
    let e = plan_patch_read(DiffKind::Bsdf2, 0, Some(0), Some(MAX_OPERATION_SIZE + 1)).unwrap_err();
    assert_eq!(e.message(), format!("Patch size {} exceeds safety limit", MAX_OPERATION_SIZE + 1));
    let e = plan_patch_read(DiffKind::Lz4diff, 0, Some(0), Some(MAX_OPERATION_SIZE + 1)).unwrap_err();
    assert_eq!(e.message(), format!("LZ4DIFF patch size {} exceeds safety limit", MAX_OPERATION_SIZE + 1));
}

#[test]
fn source_copy_hands_back_the_source() {
    let src = vec![5u8; 8];
    let out = ctx(4).build_target(OpType::SourceCopy, src.clone(), &[], None, &[ext(0, 2)]).unwrap();
    assert_eq!(out, src);
}

#[test]
fn bsdf2_patch_makes_the_target() {
    let old: Vec<u8> = (0..64u8).collect();
    let mut new = old.clone();
    new[10] = 0xAA;
    new[40] = 0xBB;
    let mut patch = Vec::new();
    bsdiff_android::diff_bsdf2_uniform(&old, &new, &mut patch, bsdiff_android::CompressionAlgorithm::Brotli).unwrap();
    let out = ctx(16).build_target(OpType::SourceBsdiff, old.clone(), &patch, None, &[ext(0, 4)]).unwrap();
    assert_eq!(out, new);
    assert_ne!(out, old);
    let out = ctx(16).build_target(OpType::BrotliBsdiff, old.clone(), &patch, None, &[ext(0, 4)]).unwrap();
    assert_eq!(out, new);
}

#[test]
fn patched_target_must_fill_the_extents() {
    let old: Vec<u8> = (0..64u8).collect();
    let new: Vec<u8> = (0..48u8).collect();
    let mut patch = Vec::new();
    bsdiff_android::diff_bsdf2_uniform(&old, &new, &mut patch, bsdiff_android::CompressionAlgorithm::None).unwrap();
    let e = ctx(16).build_target(OpType::SourceBsdiff, old, &patch, None, &[ext(0, 4)]).unwrap_err();
    assert!(matches!(e, DiffError::PatchedSizeMismatch { expected: 64, got: 48 }));
    assert_eq!(e.message(), "Patched data size mismatch: expected 64 bytes, got 48 bytes");
}

#[test]
fn broken_patches_fail() {
    let src = vec![1u8; 16];
    let e = ctx(16).build_target(OpType::SourceBsdiff, src.clone(), b"garbage", None, &[ext(0, 1)]).unwrap_err();
    assert!(matches!(e, DiffError::PatchFailed { op_type: OpType::SourceBsdiff, .. }));
    assert!(e.message().starts_with("BSDF2 patch failed: "));
    let lz = lz4diff::lz4_patch(&src, b"garbage").map_err(|e| e.to_string()).map(|v| v.to_vec());
    assert!(lz.is_err());
    let e = ctx(16).build_target(OpType::Lz4diffBsdiff, src.clone(), b"garbage", Some(lz.clone()), &[ext(0, 1)]).unwrap_err();
    assert_eq!(e.message(), format!("Lz4diffBsdiff patch failed: {}", lz.unwrap_err()));
    let pf = puffdiff::puffpatch(&src, b"garbage").map_err(|e| e.to_string());
    assert!(pf.is_err());
    let e = ctx(16).build_target(OpType::Puffdiff, src, b"garbage", Some(pf), &[ext(0, 1)]).unwrap_err();
    assert!(e.message().starts_with("PUFFDIFF patch failed: "));
}

#[test]
fn outside_patch_results_are_checked_against_the_extents() {
    let src = vec![1u8; 16];
    // What the lz4diff or puffdiff patcher returned is the target, if it
    // fills the target extents.
    let good = vec![7u8; 32];
    let out = ctx(16).build_target(OpType::Puffdiff, src.clone(), b"p", Some(Ok(good.clone())), &[ext(0, 2)]).unwrap();
    assert_eq!(out, good);
    let e = ctx(16)
        .build_target(OpType::Lz4diffPuffdiff, src.clone(), b"p", Some(Ok(vec![0u8; 20])), &[ext(0, 2)])
        .unwrap_err();
    assert!(matches!(e, DiffError::PatchedSizeMismatch { expected: 32, got: 20 }));
    let e = ctx(16)
        .build_target(OpType::Lz4diffBsdiff, src, b"p", Some(Err("malformed patch".to_string())), &[ext(0, 2)])
        .unwrap_err();
    assert_eq!(e.message(), "Lz4diffBsdiff patch failed: malformed patch");
}

#[test]
fn written_extents_read_back() {
    let c = ctx(4);
    let extents = [ext(5, 1), ext(0, 0), ext(1, 2)];
    let data: Vec<u8> = (100..112u8).collect();
    let writes = c.plan_dst_writes(&extents, data.len()).unwrap();
    let reads = c.plan_source_reads(&extents).unwrap();
    assert_eq!(writes.steps, reads.steps);
    let mut img = vec![0u8; 32];
    for st in &writes.steps {
        let (o, l, d) = (st.offset as usize, st.length as usize, st.data_start as usize);
        img[o..o + l].copy_from_slice(&data[d..d + l]);
    }
    let mut back = Vec::new();
    for st in &reads.steps {
        back.extend_from_slice(&img[st.offset as usize..(st.offset + st.length) as usize]);
    }
    assert_eq!(back, data);
}
