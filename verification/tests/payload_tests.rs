use payload_dumper::payload::{
    parse_local_zip_payload, parse_payload, parse_payload_at, parse_remote_bin_payload,
    parse_remote_payload, PayloadError, SeekFrom, ZipPayloadFile,
};
use payload_dumper::zip::ZipError;
use payload_dumper::zip_io::{MemoryIO, ZipIO};

fn build_payload(version: u64, manifest: &[u8], sig: &[u8], data: &[u8]) -> Vec<u8> {
    let mut out = b"CrAU".to_vec();
    out.extend_from_slice(&version.to_be_bytes());
    out.extend_from_slice(&(manifest.len() as u64).to_be_bytes());
    out.extend_from_slice(&(sig.len() as u32).to_be_bytes());
    out.extend_from_slice(manifest);
    out.extend_from_slice(sig);
    out.extend_from_slice(data);
    out
}

/// A ZIP archive with a `README` entry and a stored `payload.bin`;
/// returns the bytes and the offset of the payload's data.
fn zip_with_payload(payload: &[u8]) -> (Vec<u8>, u64) {
    let mut out = Vec::new();
    let mut cd = Vec::new();
    let entries: [(&str, &[u8]); 2] = [("README", b"hi"), ("payload.bin", payload)];
    let mut data_offset = 0u64;
    for (name, data) in entries.iter() {
        let off = out.len() as u32;
        out.extend_from_slice(&[0x50, 0x4b, 0x03, 0x04, 20, 0, 0, 0, 0, 0, 0, 0, 0, 0, 0, 0, 0, 0]);
        out.extend_from_slice(&(data.len() as u32).to_le_bytes());
        out.extend_from_slice(&(data.len() as u32).to_le_bytes());
        out.extend_from_slice(&(name.len() as u16).to_le_bytes());
        out.extend_from_slice(&0u16.to_le_bytes());
        out.extend_from_slice(name.as_bytes());
        if *name == "payload.bin" {
            data_offset = out.len() as u64;
        }
        out.extend_from_slice(data);
        cd.extend_from_slice(&[0x50, 0x4b, 0x01, 0x02, 20, 0, 20, 0, 0, 0, 0, 0, 0, 0, 0, 0, 0, 0, 0, 0]);
        cd.extend_from_slice(&(data.len() as u32).to_le_bytes());
        cd.extend_from_slice(&(data.len() as u32).to_le_bytes());
        cd.extend_from_slice(&(name.len() as u16).to_le_bytes());
        cd.extend_from_slice(&[0u8; 12]);
        cd.extend_from_slice(&off.to_le_bytes());
        cd.extend_from_slice(name.as_bytes());
    }
    let cd_offset = out.len() as u32;
    out.extend_from_slice(&cd);
    out.extend_from_slice(&[0x50, 0x4b, 0x05, 0x06, 0, 0, 0, 0, 2, 0, 2, 0]);
    out.extend_from_slice(&(cd.len() as u32).to_le_bytes());
    out.extend_from_slice(&cd_offset.to_le_bytes());
    out.extend_from_slice(&[0, 0]);
    (out, data_offset)
}

#[test]
fn parse_payload_reads_manifest_and_data_offset() {
    let p = build_payload(2, b"MANIFEST", b"SIG!!", b"blobs");
    let io = MemoryIO::new(p);
    let (manifest, data_offset) = parse_payload(&io).unwrap();
    assert_eq!(manifest, b"MANIFEST".to_vec());
    assert_eq!(data_offset, 24 + 8 + 5);
}

#[test]
fn parse_payload_with_empty_manifest() {
    let p = build_payload(2, b"", b"", b"");
    let io = MemoryIO::new(p);
    assert_eq!(parse_payload(&io).unwrap(), (Vec::new(), 24));
}

#[test]
fn parse_payload_rejects_bad_magic() {
    let mut p = build_payload(2, b"M", b"", b"");
    p[0] = b'X';
    let io = MemoryIO::new(p);
    assert!(matches!(parse_payload(&io), Err(PayloadError::InvalidMagic)));
}

#[test]
fn parse_payload_rejects_other_versions() {
    let p = build_payload(3, b"M", b"", b"");
    let io = MemoryIO::new(p);
    let e = parse_payload(&io).unwrap_err();
    assert!(matches!(e, PayloadError::UnsupportedVersion(3)));
    assert_eq!(e.message(), "Unsupported payload version: 3");
}

#[test]
fn parse_payload_of_a_truncated_file_fails_to_read() {
    let p = build_payload(2, b"MANIFEST", b"", b"");
    let io = MemoryIO::new(p[..28].to_vec());
    assert!(matches!(parse_payload(&io), Err(PayloadError::Io(_))));
    let io = MemoryIO::new(b"Cr".to_vec());
    assert!(matches!(parse_payload(&io), Err(PayloadError::Io(_))));
}

#[test]
fn parse_payload_at_an_offset() {
    let mut bytes = vec![7u8; 10];
    bytes.extend_from_slice(&build_payload(2, b"abc", b"s", b""));
    let io = MemoryIO::new(bytes);
    assert_eq!(parse_payload_at(&io, 10).unwrap(), (b"abc".to_vec(), 28));
}

#[test]
fn zip_payload_file_reads_and_seeks_within_the_entry() {
    let payload = build_payload(2, b"MAN", b"", b"0123456789");
    let (zip, data_offset) = zip_with_payload(&payload);
    let (mut f, info) = ZipPayloadFile::new(MemoryIO::new(zip)).unwrap();
    assert_eq!(info.payload_data_offset, data_offset);
    assert_eq!(info.uncompressed_size, payload.len() as u64);
    assert_eq!(f.size().unwrap(), payload.len() as u64);
    assert_eq!(f.read(4).unwrap(), b"CrAU".to_vec());
    assert_eq!(f.position(), 4);
    assert_eq!(f.seek(SeekFrom::End(-3)).unwrap(), payload.len() as u64 - 3);
    assert_eq!(f.read(100).unwrap(), b"789".to_vec());
    assert_eq!(f.read(100).unwrap(), Vec::<u8>::new());
    assert!(matches!(f.seek(SeekFrom::Current(1)), Err(PayloadError::SeekBeyondEnd)));
    assert_eq!(f.position(), payload.len() as u64);
    assert_eq!(f.seek(SeekFrom::Current(-1000)).unwrap(), 0);
    assert_eq!(f.seek(SeekFrom::Start(24)).unwrap(), 24);
    assert_eq!(f.read(3).unwrap(), b"MAN".to_vec());
    assert!(f.read_at(payload.len() as u64 - 1, 2).is_err());
    assert_eq!(f.read_at(1, 3).unwrap(), b"rAU".to_vec());
}

#[test]
fn parse_local_zip_payload_reads_the_stored_payload() {
    let payload = build_payload(2, b"MANIFEST", b"SG", b"blob");
    let (zip, data_offset) = zip_with_payload(&payload);
    let (m, d, info) = parse_local_zip_payload(MemoryIO::new(zip)).unwrap();
    assert_eq!(m, b"MANIFEST".to_vec());
    assert_eq!(d, 24 + 8 + 2);
    assert_eq!(info.payload_data_offset, data_offset);
    assert_eq!(info.entry_name, "payload.bin");
}

#[test]
fn parse_local_zip_payload_checks_the_magic() {
    let mut payload = build_payload(2, b"M", b"", b"");
    payload[3] = b'X';
    let (zip, _) = zip_with_payload(&payload);
    assert!(matches!(
        parse_local_zip_payload(MemoryIO::new(zip)),
        Err(PayloadError::Zip(ZipError::InvalidPayloadMagic))
    ));
}

#[test]
fn parse_remote_payload_reads_from_the_archive() {
    let payload = build_payload(2, b"REMOTE", b"", b"x");
    let (zip, data_offset) = zip_with_payload(&payload);
    let io = MemoryIO::new(zip);
    let (m, d, info) = parse_remote_payload(&io).unwrap();
    assert_eq!(m, b"REMOTE".to_vec());
    assert_eq!(d, 30);
    assert_eq!(info.payload_data_offset, data_offset);
}

#[test]
fn parse_remote_payload_without_payload_entry() {
    let io = MemoryIO::new(vec![0u8; 50]);
    assert!(matches!(parse_remote_payload(&io), Err(PayloadError::Zip(ZipError::EocdNotFound))));
}

#[test]
fn parse_remote_bin_payload_reports_the_length() {
    let payload = build_payload(2, b"BIN", b"sig", b"data");
    let n = payload.len() as u64;
    let io = MemoryIO::new(payload);
    let (m, d, len) = parse_remote_bin_payload(&io).unwrap();
    assert_eq!(m, b"BIN".to_vec());
    assert_eq!(d, 24 + 3 + 3);
    assert_eq!(len, n);
}

#[test]
fn parse_local_zip_payload_refuses_a_signature_past_the_entry() {
    // The header declares a 100-byte metadata signature that the entry does not hold.
    let mut p = b"CrAU".to_vec();
    p.extend_from_slice(&2u64.to_be_bytes());
    p.extend_from_slice(&1u64.to_be_bytes());
    p.extend_from_slice(&100u32.to_be_bytes());
    p.push(b'M');
    let (zip, _) = zip_with_payload(&p);
    let e = parse_local_zip_payload(MemoryIO::new(zip.clone())).unwrap_err();
    assert!(matches!(e, PayloadError::SeekBeyondEnd));
    assert_eq!(e.message(), "Seek beyond payload end");
    // Read by ranges, the same archive only advances the position.
    let (m, d, _) = parse_remote_payload(&MemoryIO::new(zip)).unwrap();
    assert_eq!(m, b"M".to_vec());
    assert_eq!(d, 24 + 1 + 100);
}

#[test]
fn payload_error_messages() {
    assert_eq!(PayloadError::InvalidMagic.message(), "Invalid payload file: magic 'CrAU' not found");
    assert_eq!(PayloadError::Zip(ZipError::PayloadNotFound).message(), "Could not find uncompressed payload.bin in ZIP file");
    let io = PayloadError::Io(payload_dumper::zip_io::IoError { message: "timed out".to_string() });
    assert_eq!(io.message(), "timed out");
}

#[test]
fn zip_payload_file_reads_nothing_at_its_end() {
    let p = build_payload(2, b"M", b"", b"");
    let (zip, _) = zip_with_payload(&p);
    let (mut f, _) = ZipPayloadFile::new(MemoryIO::new(zip)).unwrap();
    let all = f.read(1000).unwrap();
    assert_eq!(all, p);
    assert_eq!(f.read(10).unwrap(), Vec::<u8>::new());
    assert_eq!(f.read(0).unwrap(), Vec::<u8>::new());
}

#[test]
fn remote_zip_parse_equals_a_parse_of_the_payload_bytes() {
    let payload = build_payload(2, b"MANIFEST", b"SIGNATURE", b"blobs");
    let (zip, data_offset) = zip_with_payload(&payload);
    let (m, d, _) = parse_remote_payload(&MemoryIO::new(zip.clone())).unwrap();
    let tail = zip[data_offset as usize..].to_vec();
    assert_eq!(parse_payload(&MemoryIO::new(tail)).unwrap(), (m.clone(), d));
    // and the local reader of the entry's window gives the same
    let (m2, d2, _) = parse_local_zip_payload(MemoryIO::new(zip.clone())).unwrap();
    let entry = zip[data_offset as usize..data_offset as usize + payload.len()].to_vec();
    assert_eq!(parse_payload(&MemoryIO::new(entry)).unwrap(), (m2.clone(), d2));
    assert_eq!((m, d), (m2, d2));
}

#[test]
fn remote_bin_parse_equals_parse_payload() {
    let payload = build_payload(2, b"BIN", b"sig", b"data");
    let (m, d, n) = parse_remote_bin_payload(&MemoryIO::new(payload.clone())).unwrap();
    assert_eq!(parse_payload(&MemoryIO::new(payload.clone())).unwrap(), (m, d));
    assert_eq!(n, payload.len() as u64);
}
