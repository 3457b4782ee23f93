use payload_dumper::zip::{
    is_payload_entry_name, last_sig_index, zip64_extra_fields, ZipError, ZipParser,
    EOCD_SIGNATURE,
};
use payload_dumper::zip_io::{MemoryIO, ZipIO};

fn le16(v: u16) -> [u8; 2] {
    v.to_le_bytes()
}
fn le32(v: u32) -> [u8; 4] {
    v.to_le_bytes()
}

/// A stored or compressed file for the test archives.
struct FileSpec<'a> {
    name: &'a str,
    method: u16,
    data: &'a [u8],
    local_extra: &'a [u8],
}

/// Builds a ZIP archive; returns the bytes and the local header offsets.
fn build_zip(files: &[FileSpec], comment: &[u8]) -> (Vec<u8>, Vec<u32>) {
    let mut out = Vec::new();
    let mut offsets = Vec::new();
    for f in files {
        offsets.push(out.len() as u32);
        out.extend_from_slice(&[0x50, 0x4b, 0x03, 0x04]);
        out.extend_from_slice(&le16(20));
        out.extend_from_slice(&le16(0));
        out.extend_from_slice(&le16(f.method));
        out.extend_from_slice(&le16(0));
        out.extend_from_slice(&le16(0));
        out.extend_from_slice(&le32(0));
        out.extend_from_slice(&le32(f.data.len() as u32));
        out.extend_from_slice(&le32(f.data.len() as u32));
        out.extend_from_slice(&le16(f.name.len() as u16));
        out.extend_from_slice(&le16(f.local_extra.len() as u16));
        out.extend_from_slice(f.name.as_bytes());
        out.extend_from_slice(f.local_extra);
        out.extend_from_slice(f.data);
    }
    let cd_offset = out.len() as u32;
    for (f, off) in files.iter().zip(offsets.iter()) {
        out.extend_from_slice(&[0x50, 0x4b, 0x01, 0x02]);
        out.extend_from_slice(&le16(20));
        out.extend_from_slice(&le16(20));
        out.extend_from_slice(&le16(0));
        out.extend_from_slice(&le16(f.method));
        out.extend_from_slice(&le16(0));
        out.extend_from_slice(&le16(0));
        out.extend_from_slice(&le32(0));
        out.extend_from_slice(&le32(f.data.len() as u32));
        out.extend_from_slice(&le32(f.data.len() as u32));
        out.extend_from_slice(&le16(f.name.len() as u16));
        out.extend_from_slice(&le16(0));
        out.extend_from_slice(&le16(0));
        out.extend_from_slice(&le16(0));
        out.extend_from_slice(&le16(0));
        out.extend_from_slice(&le32(0));
        out.extend_from_slice(&le32(*off));
        out.extend_from_slice(f.name.as_bytes());
    }
    let cd_size = out.len() as u32 - cd_offset;
    out.extend_from_slice(&EOCD_SIGNATURE);
    out.extend_from_slice(&le16(0));
    out.extend_from_slice(&le16(0));
    out.extend_from_slice(&le16(files.len() as u16));
    out.extend_from_slice(&le16(files.len() as u16));
    out.extend_from_slice(&le32(cd_size));
    out.extend_from_slice(&le32(cd_offset));
    out.extend_from_slice(&le16(comment.len() as u16));
    out.extend_from_slice(comment);
    (out, offsets)
}

fn payload_file<'a>(name: &'a str, data: &'a [u8]) -> FileSpec<'a> {
    FileSpec { name, method: 0, data, local_extra: &[] }
}

#[test]
fn last_sig_index_finds_the_last_occurrence() {
    let buf = [0u8, 0x50, 0x4b, 0x05, 0x06, 1, 0x50, 0x4b, 0x05, 0x06, 7];
    assert_eq!(last_sig_index(&buf, &EOCD_SIGNATURE), Some(6));
    assert_eq!(last_sig_index(&buf[..6], &EOCD_SIGNATURE), Some(1));
    assert_eq!(last_sig_index(&buf[..4], &EOCD_SIGNATURE), None);
    assert_eq!(last_sig_index(&[], &EOCD_SIGNATURE), None);
}

#[test]
fn find_eocd_of_a_small_archive() {
    let (zip, _) = build_zip(&[payload_file("payload.bin", b"CrAUdata")], b"");
    let io = MemoryIO::new(zip.clone());
    let (offset, entries) = ZipParser::find_eocd(&io).unwrap();
    assert_eq!(offset as usize, zip.len() - 22);
    assert_eq!(entries, 1);
}

#[test]
fn find_eocd_skips_the_comment() {
    let comment = vec![b'x'; 300];
    let (zip, _) = build_zip(&[payload_file("payload.bin", b"CrAU")], &comment);
    let io = MemoryIO::new(zip.clone());
    let (offset, entries) = ZipParser::find_eocd(&io).unwrap();
    assert_eq!(offset as usize, zip.len() - 22 - 300);
    assert_eq!(entries, 1);
}

#[test]
fn find_eocd_takes_the_last_signature_of_the_tail() {
    // A comment that itself holds the signature: the later one wins.
    let mut comment = vec![b'x'; 16];
    comment.extend_from_slice(&EOCD_SIGNATURE);
    comment.extend_from_slice(&[0u8; 10]);
    let (zip, _) = build_zip(&[payload_file("payload.bin", b"CrAU")], &comment);
    let io = MemoryIO::new(zip.clone());
    let (offset, _) = ZipParser::find_eocd(&io).unwrap();
    assert_eq!(offset as usize, zip.len() - 14);
}

#[test]
fn find_eocd_in_a_long_archive() {
    // The record sits far from the end, past the first chunks.
    let comment = vec![b'y'; 20000];
    let (zip, _) = build_zip(&[payload_file("payload.bin", b"CrAU")], &comment);
    let io = MemoryIO::new(zip.clone());
    let (offset, _) = ZipParser::find_eocd(&io).unwrap();
    assert_eq!(offset as usize, zip.len() - 22 - 20000);
}

#[test]
fn find_eocd_reports_a_missing_record() {
    let io = MemoryIO::new(vec![0u8; 100]);
    assert!(matches!(ZipParser::find_eocd(&io), Err(ZipError::EocdNotFound)));
    let io = MemoryIO::new(Vec::new());
    assert!(matches!(ZipParser::find_eocd(&io), Err(ZipError::EocdNotFound)));
}

#[test]
fn find_eocd_with_a_truncated_record_is_a_read_failure() {
    let mut data = vec![0u8; 40];
    data.extend_from_slice(&EOCD_SIGNATURE);
    data.extend_from_slice(&[0u8; 4]);
    let io = MemoryIO::new(data);
    assert!(matches!(ZipParser::find_eocd(&io), Err(ZipError::Io(_))));
}

#[test]
fn central_directory_info_of_a_small_archive() {
    let (zip, offsets) = build_zip(
        &[payload_file("a.txt", b"hello"), payload_file("payload.bin", b"CrAU")],
        b"",
    );
    let io = MemoryIO::new(zip);
    let (cd, n) = ZipParser::get_central_directory_info(&io).unwrap();
    assert_eq!(n, 2);
    // the central directory follows the second file's data
    assert_eq!(cd as usize, offsets[1] as usize + 30 + "payload.bin".len() + 4);
}

#[test]
fn read_central_directory_entry_fields() {
    let (zip, offsets) = build_zip(&[payload_file("dir/payload.bin", b"CrAU1234")], b"");
    let io = MemoryIO::new(zip);
    let (cd, _) = ZipParser::get_central_directory_info(&io).unwrap();
    let (entry, next) = ZipParser::read_central_directory_entry(&io, cd).unwrap();
    assert_eq!(entry.name, "dir/payload.bin");
    assert_eq!(entry.compression_method, 0);
    assert_eq!(entry.uncompressed_size, 8);
    assert_eq!(entry.compressed_size, 8);
    assert_eq!(entry.offset, offsets[0] as u64);
    assert_eq!(next, cd + 46 + 15);
}

#[test]
fn read_central_directory_entry_rejects_a_bad_signature() {
    let (zip, _) = build_zip(&[payload_file("payload.bin", b"CrAU")], b"");
    let io = MemoryIO::new(zip);
    assert!(matches!(
        ZipParser::read_central_directory_entry(&io, 0),
        Err(ZipError::InvalidCentralDirectorySignature)
    ));
}

#[test]
fn find_payload_entry_skips_compressed_and_other_entries() {
    let (zip, offsets) = build_zip(
        &[
            FileSpec { name: "payload.bin", method: 8, data: b"zzzz", local_extra: &[] },
            payload_file("payload.bin.sig", b"sig"),
            payload_file("x/payload.bin", b"CrAU"),
        ],
        b"",
    );
    let io = MemoryIO::new(zip);
    let e = ZipParser::find_payload_entry(&io).unwrap();
    assert_eq!(e.name, "x/payload.bin");
    assert_eq!(e.offset, offsets[2] as u64);
}

#[test]
fn find_payload_entry_reports_absence() {
    let (zip, _) = build_zip(&[payload_file("other.bin", b"CrAU")], b"");
    let io = MemoryIO::new(zip);
    assert!(matches!(ZipParser::find_payload_entry(&io), Err(ZipError::PayloadNotFound)));
}

#[test]
fn get_data_offset_skips_name_and_extra() {
    let (zip, offsets) = build_zip(
        &[FileSpec { name: "payload.bin", method: 0, data: b"CrAU", local_extra: &[9, 9, 9] }],
        b"",
    );
    let io = MemoryIO::new(zip);
    let e = ZipParser::find_payload_entry(&io).unwrap();
    let d = ZipParser::get_data_offset(&io, &e).unwrap();
    assert_eq!(d, offsets[0] as u64 + 30 + 11 + 3);
    ZipParser::verify_payload_magic(&io, d).unwrap();
}

#[test]
fn get_data_offset_rejects_a_compressed_local_header() {
    let (mut zip, _) = build_zip(&[payload_file("payload.bin", b"CrAU")], b"");
    // the local header says deflate although the directory says stored
    zip[8] = 8;
    let io = MemoryIO::new(zip);
    let e = ZipParser::find_payload_entry(&io).unwrap();
    assert!(matches!(ZipParser::get_data_offset(&io, &e), Err(ZipError::CompressedPayload)));
}

#[test]
fn get_data_offset_rejects_a_bad_local_signature() {
    let (mut zip, _) = build_zip(&[payload_file("payload.bin", b"CrAU")], b"");
    zip[0] = 0;
    let io = MemoryIO::new(zip);
    let e = ZipParser::find_payload_entry(&io).unwrap();
    assert!(matches!(
        ZipParser::get_data_offset(&io, &e),
        Err(ZipError::InvalidLocalHeaderSignature)
    ));
}

#[test]
fn verify_payload_magic_rejects_other_bytes() {
    let io = MemoryIO::new(b"XXXXCrAU".to_vec());
    assert!(matches!(ZipParser::verify_payload_magic(&io, 0), Err(ZipError::InvalidPayloadMagic)));
    assert!(ZipParser::verify_payload_magic(&io, 4).is_ok());
    assert!(matches!(ZipParser::verify_payload_magic(&io, 6), Err(ZipError::Io(_))));
}

#[test]
fn get_zip_info_describes_the_payload() {
    let (zip, offsets) = build_zip(
        &[payload_file("META-INF/x", b"abc"), payload_file("payload.bin", b"CrAU+payload")],
        b"c",
    );
    let io = MemoryIO::new(zip.clone());
    let info = ZipParser::get_zip_info(&io).unwrap();
    assert_eq!(info.entry_name, "payload.bin");
    assert_eq!(info.header_offset, offsets[1] as u64);
    assert_eq!(info.payload_data_offset, offsets[1] as u64 + 30 + 11);
    assert_eq!(info.uncompressed_size, 12);
    assert_eq!(info.compressed_size, 12);
    assert_eq!(info.compression_method, 0);
    assert_eq!(info.total_entries, 2);
    assert_eq!(info.archive_size, zip.len() as u64);
}

#[test]
fn zip64_archive_is_read_through_the_locator() {
    // stored entry with 0xFFFFFFFF sizes and offset, real values in the
    // ZIP64 extended information
    let data = b"CrAUzip64";
    let mut out = Vec::new();
    out.extend_from_slice(&[0x50, 0x4b, 0x03, 0x04]);
    out.extend_from_slice(&[20, 0, 0, 0, 0, 0, 0, 0, 0, 0, 0, 0, 0, 0]);
    out.extend_from_slice(&le32(0xFFFF_FFFF));
    out.extend_from_slice(&le32(0xFFFF_FFFF));
    out.extend_from_slice(&le16(11));
    out.extend_from_slice(&le16(0));
    out.extend_from_slice(b"payload.bin");
    out.extend_from_slice(data);
    let cd_offset = out.len() as u64;
    let mut extra = Vec::new();
    extra.extend_from_slice(&le16(0x0001));
    extra.extend_from_slice(&le16(24));
    extra.extend_from_slice(&(data.len() as u64).to_le_bytes());
    extra.extend_from_slice(&(data.len() as u64).to_le_bytes());
    extra.extend_from_slice(&0u64.to_le_bytes());
    out.extend_from_slice(&[0x50, 0x4b, 0x01, 0x02]);
    out.extend_from_slice(&[45, 0, 45, 0, 0, 0]);
    out.extend_from_slice(&le16(0));
    out.extend_from_slice(&[0, 0, 0, 0, 0, 0, 0, 0]);
    out.extend_from_slice(&le32(0xFFFF_FFFF));
    out.extend_from_slice(&le32(0xFFFF_FFFF));
    out.extend_from_slice(&le16(11));
    out.extend_from_slice(&le16(extra.len() as u16));
    out.extend_from_slice(&le16(0));
    out.extend_from_slice(&[0, 0, 0, 0, 0, 0, 0, 0]);
    out.extend_from_slice(&le32(0xFFFF_FFFF));
    out.extend_from_slice(b"payload.bin");
    out.extend_from_slice(&extra);
    let zip64_offset = out.len() as u64;
    out.extend_from_slice(&[0x50, 0x4b, 0x06, 0x06]);
    out.extend_from_slice(&44u64.to_le_bytes());
    out.extend_from_slice(&[45, 0, 45, 0]);
    out.extend_from_slice(&[0u8; 8]);
    out.extend_from_slice(&1u64.to_le_bytes());
    out.extend_from_slice(&1u64.to_le_bytes());
    out.extend_from_slice(&(zip64_offset - cd_offset).to_le_bytes());
    out.extend_from_slice(&cd_offset.to_le_bytes());
    out.extend_from_slice(&[0x50, 0x4b, 0x06, 0x07]);
    out.extend_from_slice(&[0u8; 4]);
    out.extend_from_slice(&zip64_offset.to_le_bytes());
    out.extend_from_slice(&1u32.to_le_bytes());
    out.extend_from_slice(&EOCD_SIGNATURE);
    out.extend_from_slice(&[0u8; 4]);
    out.extend_from_slice(&le16(0xFFFF));
    out.extend_from_slice(&le16(0xFFFF));
    out.extend_from_slice(&le32(0xFFFF_FFFF));
    out.extend_from_slice(&le32(0xFFFF_FFFF));
    out.extend_from_slice(&le16(0));
    let eocd = out.len() as u64 - 22;
    let io = MemoryIO::new(out);

    assert_eq!(ZipParser::read_zip64_eocd(&io, eocd).unwrap(), (cd_offset, 1));
    assert_eq!(ZipParser::get_central_directory_info(&io).unwrap(), (cd_offset, 1));
    let info = ZipParser::get_zip_info(&io).unwrap();
    assert_eq!(info.uncompressed_size, data.len() as u64);
    assert_eq!(info.compressed_size, data.len() as u64);
    assert_eq!(info.header_offset, 0);
    assert_eq!(info.payload_data_offset, 41);
}

#[test]
fn read_zip64_eocd_errors() {
    let io = MemoryIO::new(vec![0u8; 64]);
    assert!(matches!(ZipParser::read_zip64_eocd(&io, 10), Err(ZipError::InvalidZip64Structure)));
    assert!(matches!(ZipParser::read_zip64_eocd(&io, 40), Err(ZipError::Zip64LocatorNotFound)));
    // a locator that points at bytes without the ZIP64 signature
    let mut data = vec![0u8; 100];
    data[60..64].copy_from_slice(&[0x50, 0x4b, 0x06, 0x07]);
    let io = MemoryIO::new(data);
    assert!(matches!(ZipParser::read_zip64_eocd(&io, 80), Err(ZipError::InvalidZip64Signature)));
}

#[test]
fn zip64_extra_fields_replace_saturated_values_in_order() {
    let mut extra = Vec::new();
    extra.extend_from_slice(&le16(0x7075));
    extra.extend_from_slice(&le16(2));
    extra.extend_from_slice(&[1, 2]);
    extra.extend_from_slice(&le16(0x0001));
    extra.extend_from_slice(&le16(16));
    extra.extend_from_slice(&100u64.to_le_bytes());
    extra.extend_from_slice(&200u64.to_le_bytes());
    // uncompressed and offset saturated: the two values go to them in order
    assert_eq!(zip64_extra_fields(&extra, 0xFFFF_FFFF, 5, 0xFFFF_FFFF), (100, 5, 200));
    // nothing saturated: nothing read
    assert_eq!(zip64_extra_fields(&extra, 1, 2, 3), (1, 2, 3));
    // a record too short for the offset leaves it
    assert_eq!(zip64_extra_fields(&extra[..14], 0xFFFF_FFFF, 0xFFFF_FFFF, 0xFFFF_FFFF), (0xFFFF_FFFF, 0xFFFF_FFFF, 0xFFFF_FFFF));
}

#[test]
fn payload_entry_names() {
    assert!(is_payload_entry_name("payload.bin"));
    assert!(is_payload_entry_name("a/b/payload.bin"));
    assert!(is_payload_entry_name("/payload.bin"));
    assert!(!is_payload_entry_name("xpayload.bin"));
    assert!(!is_payload_entry_name("payload.bin.sig"));
    assert!(!is_payload_entry_name("payload.bi"));
    assert!(!is_payload_entry_name(""));
}

#[test]
fn memory_io_reads_in_bounds_only() {
    let io = MemoryIO::new(vec![1, 2, 3, 4, 5]);
    assert_eq!(io.size().unwrap(), 5);
    assert_eq!(io.read_at(1, 3).unwrap(), vec![2, 3, 4]);
    assert_eq!(io.read_at(5, 0).unwrap(), Vec::<u8>::new());
    assert!(io.read_at(3, 3).is_err());
    assert!(io.read_at(u64::MAX, 2).is_err());
}

#[test]
fn find_eocd_sees_a_record_across_two_chunks() {
    // 8200 bytes: the record sits at 7 and its comment runs to the end, so
    // the last chunk starts at 8 and the record is seen in the lower one.
    let mut data = vec![0u8; 8200];
    data[7..11].copy_from_slice(&EOCD_SIGNATURE);
    data[17..19].copy_from_slice(&[1, 0]);
    data[27..29].copy_from_slice(&8171u16.to_le_bytes());
    let io = MemoryIO::new(data);
    assert_eq!(ZipParser::find_eocd(&io).unwrap(), (7, 1));
}

#[test]
fn find_eocd_sees_signatures_just_below_each_chunk() {
    // A signature at each of the places that start up to six bytes below
    // the last chunk's start is found.
    for shift in 1..=6u64 {
        let len = 8192 + 100;
        let mut data = vec![0u8; len];
        let p = (len as u64 - 8192 - shift) as usize;
        data[p..p + 4].copy_from_slice(&EOCD_SIGNATURE);
        data[p + 10..p + 12].copy_from_slice(&[3, 0]);
        let io = MemoryIO::new(data);
        assert_eq!(ZipParser::find_eocd(&io).unwrap(), (p as u64, 3));
    }
}

#[test]
fn read_central_directory_entry_with_zip64_sizes_and_ascii_name() {
    let mut h = vec![0u8; 46];
    h[0..4].copy_from_slice(&[0x50, 0x4b, 0x01, 0x02]);
    h[20..24].copy_from_slice(&le32(0x20));
    h[24..28].copy_from_slice(&le32(0xFFFF_FFFF));
    h[28..30].copy_from_slice(&le16(1));
    h[30..32].copy_from_slice(&le16(20));
    h[42..46].copy_from_slice(&le32(0xFFFF_FFFF));
    h.push(b'a');
    h.extend_from_slice(&[1, 0, 16, 0]);
    h.extend_from_slice(&0x1_0000_0000u64.to_le_bytes());
    h.extend_from_slice(&0x2_0000_0000u64.to_le_bytes());
    let io = MemoryIO::new(h);
    let (e, next) = ZipParser::read_central_directory_entry(&io, 0).unwrap();
    assert_eq!(e.name, "a");
    assert_eq!(e.uncompressed_size, 0x1_0000_0000);
    assert_eq!(e.compressed_size, 0x20);
    assert_eq!(e.offset, 0x2_0000_0000);
    assert_eq!(e.compression_method, 0);
    assert_eq!(next, 67);
}

#[test]
fn zip_error_messages() {
    let io = ZipError::Io(payload_dumper::zip_io::IoError { message: "disk gone".to_string() });
    assert_eq!(io.message(), "disk gone");
    assert_eq!(ZipError::EocdNotFound.message(), "Could not find End of Central Directory record");
    assert_eq!(ZipError::CompressedPayload.message(), "payload.bin is compressed, expected uncompressed (STORED)");
}
