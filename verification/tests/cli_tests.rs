use payload_dumper::bytes::{read_be32, read_be64, read_le16, read_le32, read_le64};
use payload_dumper::cli::{compression_method_label, Args, PayloadType, RunMode};
use payload_dumper::text::{to_decimal, to_hex};
use std::path::PathBuf;

fn args() -> Args {
    Args {
        payload_path: PathBuf::from("payload.bin"),
        out: PathBuf::from("output"),
        source_dir: PathBuf::from("old"),
        user_agent: None,
        cookies: None,
        dns: None,
        images: String::new(),
        threads: None,
        list: false,
        metadata: None,
        no_parallel: false,
        skip_hash_check: false,
        prefetch: false,
        quiet: false,
    }
}

#[test]
fn run_modes() {
    let mut a = args();
    assert_eq!(a.run_mode(false), RunMode::Extract);
    a.metadata = Some("compact".to_string());
    assert_eq!(a.run_mode(false), RunMode::SaveMetadata);
    a.list = true;
    assert_eq!(a.run_mode(false), RunMode::List { save_metadata: true, stop_after_metadata: false });
    assert_eq!(a.run_mode(true), RunMode::List { save_metadata: true, stop_after_metadata: true });
    a.metadata = None;
    assert_eq!(a.run_mode(true), RunMode::List { save_metadata: false, stop_after_metadata: false });
}

#[test]
fn output_directory_is_made_only_for_files() {
    let mut a = args();
    assert!(a.should_create_out_dir(false, false));
    assert!(!a.should_create_out_dir(true, false));
    assert!(a.should_create_out_dir(false, true));
    a.metadata = Some("full".to_string());
    assert!(!a.should_create_out_dir(false, true));
    assert!(a.should_create_out_dir(false, false));
}

#[test]
fn thread_counts() {
    let mut a = args();
    assert_eq!(a.thread_count(8, 3), 3);
    assert_eq!(a.thread_count(2, 5), 2);
    a.threads = Some(4);
    assert_eq!(a.thread_count(16, 10), 4);
    a.no_parallel = true;
    assert_eq!(a.thread_count(16, 10), 1);
}

#[test]
fn prefetch_only_for_remote_payloads() {
    let mut a = args();
    assert!(!a.use_prefetch(PayloadType::RemoteZip));
    a.prefetch = true;
    assert!(a.use_prefetch(PayloadType::RemoteZip));
    assert!(a.use_prefetch(PayloadType::RemoteBin));
    assert!(!a.use_prefetch(PayloadType::LocalZip));
    assert!(!a.use_prefetch(PayloadType::LocalBin));
}

#[test]
fn compression_method_labels() {
    assert_eq!(compression_method_label(0), "STORED (0)");
    assert_eq!(compression_method_label(8), "DEFLATED (8)");
    assert_eq!(compression_method_label(12), "UNKNOWN (12)");
    assert_eq!(compression_method_label(65535), "UNKNOWN (65535)");
}

#[test]
fn decimal_and_hex() {
    assert_eq!(to_decimal(0), "0");
    assert_eq!(to_decimal(10), "10");
    assert_eq!(to_decimal(u64::MAX), u64::MAX.to_string());
    assert_eq!(to_hex(&[]), "");
    assert_eq!(to_hex(&[0x00, 0x0f, 0xa0, 0xff]), "000fa0ff");
}

#[test]
fn fixed_width_integers() {
    let b = [1u8, 2, 3, 4, 5, 6, 7, 8, 9];
    assert_eq!(read_le16(&b, 0), 0x0201);
    assert_eq!(read_le32(&b, 1), 0x05040302);
    assert_eq!(read_le64(&b, 1), 0x0908070605040302);
    assert_eq!(read_be32(&b, 0), 0x01020304);
    assert_eq!(read_be64(&b, 1), 0x0203040506070809);
}
