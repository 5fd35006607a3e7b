use cachefs::archive::{Archive, ArchiveType};
use cachefs::compression::compress_bzip2;
use cachefs::errors::FileSystemError;
use cachefs::filesystem::FileSystem;
use cachefs::index::{Index, IndexType};
use cachefs::str::name_hash;

fn push_u24(out: &mut Vec<u8>, v: u32) {
    out.push((v >> 16) as u8);
    out.push((v >> 8) as u8);
    out.push(v as u8);
}

fn push_u16(out: &mut Vec<u8>, v: u16) {
    out.push((v >> 8) as u8);
    out.push(v as u8);
}

fn push_i32(out: &mut Vec<u8>, v: i32) {
    let u = v as u32;
    out.push((u >> 24) as u8);
    out.push((u >> 16) as u8);
    out.push((u >> 8) as u8);
    out.push(u as u8);
}

/// Builds a per-entry-compressed archive: the outer sizes are equal, and each
/// payload is stored as a headerless bzip2 stream.
fn per_entry_archive(entries: &[(i32, Vec<u8>)]) -> Vec<u8> {
    let mut body = Vec::new();
    push_u16(&mut body, entries.len() as u16);
    let mut payloads = Vec::new();
    for (identifier, data) in entries {
        let compressed = compress_bzip2(data).unwrap();
        push_i32(&mut body, *identifier);
        push_u24(&mut body, data.len() as u32);
        push_u24(&mut body, compressed.len() as u32);
        payloads.extend_from_slice(&compressed);
    }
    body.extend_from_slice(&payloads);
    let mut out = Vec::new();
    push_u24(&mut out, 77);
    push_u24(&mut out, 77);
    out.extend_from_slice(&body);
    out
}

/// Builds a pre-extracted archive: the body holds every payload verbatim and
/// is wrapped, as a whole, in one headerless bzip2 stream.
fn pre_extracted_archive(entries: &[(i32, Vec<u8>)]) -> Vec<u8> {
    let mut body = Vec::new();
    push_u16(&mut body, entries.len() as u16);
    for (identifier, data) in entries {
        push_i32(&mut body, *identifier);
        push_u24(&mut body, data.len() as u32);
        push_u24(&mut body, data.len() as u32);
    }
    for (_, data) in entries {
        body.extend_from_slice(data);
    }
    let compressed = compress_bzip2(&body).unwrap();
    assert_ne!(body.len(), compressed.len());
    let mut out = Vec::new();
    push_u24(&mut out, body.len() as u32);
    push_u24(&mut out, compressed.len() as u32);
    out.extend_from_slice(&compressed);
    out
}

#[test]
fn test_decode_rejects_empty_input() {
    assert_eq!(
        Archive::decode(Vec::new()).unwrap_err(),
        FileSystemError::EmptyArchiveDataGiven
    );
}

#[test]
fn test_decode_rejects_truncated_input() {
    assert_eq!(
        Archive::decode(vec![0, 0, 1]).unwrap_err(),
        FileSystemError::Io
    );
    // Header claims one entry but no descriptor follows.
    let mut bytes = Vec::new();
    push_u24(&mut bytes, 4);
    push_u24(&mut bytes, 4);
    push_u16(&mut bytes, 1);
    assert_eq!(Archive::decode(bytes).unwrap_err(), FileSystemError::Io);
}

#[test]
fn test_decode_per_entry_compressed() {
    let logo = (name_hash("logo.dat"), b"the logo pixels".to_vec());
    let midi = (name_hash("scape_main.mid"), b"some midi notes".to_vec());
    let archive = Archive::decode(per_entry_archive(&[logo.clone(), midi.clone()])).unwrap();
    assert_eq!(archive.entry_count(), 2);
    let entry = archive.entry_name("logo.dat").unwrap();
    assert_eq!(entry.identifier(), logo.0);
    assert_eq!(entry.uncompressed_data(), &logo.1[..]);
    let entry = archive.entry_hash(midi.0).unwrap();
    assert_eq!(entry.uncompressed_data(), &midi.1[..]);
    assert!(archive.entry_name("missing.dat").is_none());
}

#[test]
fn test_decode_pre_extracted() {
    let a = (11, vec![1u8, 2, 3, 4, 5]);
    let b = (-7, vec![9u8; 600]);
    let archive = Archive::decode(pre_extracted_archive(&[a.clone(), b.clone()])).unwrap();
    assert_eq!(archive.entry_count(), 2);
    assert_eq!(archive.entry_hash(11).unwrap().uncompressed_data(), &a.1[..]);
    assert_eq!(archive.entry_hash(-7).unwrap().uncompressed_data(), &b.1[..]);
    assert!(archive.entry_hash(12).is_none());
}

#[test]
fn test_decode_duplicate_identifier_keeps_last() {
    let first = (42, b"old contents".to_vec());
    let second = (42, b"new contents".to_vec());
    let archive = Archive::decode(per_entry_archive(&[first, second.clone()])).unwrap();
    assert_eq!(archive.entry_count(), 1);
    assert_eq!(
        archive.entry_hash(42).unwrap().uncompressed_data(),
        &second.1[..]
    );
}

#[test]
fn test_entry_payload_length_matches_descriptor() {
    let entries = vec![(1, vec![7u8; 100]), (2, vec![8u8; 511]), (3, Vec::new())];
    let archive = Archive::decode(per_entry_archive(&entries)).unwrap();
    for (identifier, data) in &entries {
        let entry = archive.entry_hash(*identifier).unwrap();
        assert_eq!(entry.uncompressed_data().len(), data.len());
        assert_eq!(entry.uncompressed_data(), &data[..]);
    }
}

#[test]
fn test_archive_type_accessors() {
    let archive_type = ArchiveType::new(5);
    assert_eq!(archive_type.id(), 5);
}

/// A cache with only the data file and index 0 present: the archive read
/// succeeds, and any other category is reported missing.
#[test]
fn test_read_archive_from_cache() {
    let payload = per_entry_archive(&[(name_hash("logo.dat"), b"logo bytes".to_vec())]);
    let mut index0 = vec![0, 0, 0, 0, 0, 0];
    push_u24(&mut index0, payload.len() as u32);
    push_u24(&mut index0, 1);
    let mut data = Vec::new();
    let mut sector = 1usize;
    let mut written = 0usize;
    let mut sequence = 0u16;
    while written < payload.len() {
        let take = (payload.len() - written).min(512);
        let next = if written + take < payload.len() { sector + 1 } else { 0 };
        let base = sector * 520;
        data.resize(base + 520, 0);
        data[base] = 0;
        data[base + 1] = 1;
        data[base + 2] = (sequence >> 8) as u8;
        data[base + 3] = sequence as u8;
        data[base + 4] = (next >> 16) as u8;
        data[base + 5] = (next >> 8) as u8;
        data[base + 6] = next as u8;
        data[base + 7] = 1;
        data[base + 8..base + 8 + take].copy_from_slice(&payload[written..written + take]);
        written += take;
        sector += 1;
        sequence += 1;
    }
    let fs = FileSystem::new(data, vec![Index::new(0, index0)]);

    let raw = fs.read(IndexType::new(0), 1).unwrap();
    assert_eq!(raw, payload);

    let archive = fs.read_archive(ArchiveType::new(1)).unwrap();
    assert_eq!(
        archive.entry_name("logo.dat").unwrap().uncompressed_data(),
        b"logo bytes"
    );

    assert_eq!(
        fs.read(IndexType::new(1), 0).unwrap_err(),
        FileSystemError::IndexNotFound { index_type: IndexType::new(1) }
    );
}

#[test]
fn test_read_archive_missing_reports_archive_not_found() {
    let fs = FileSystem::new(Vec::new(), Vec::new());
    assert_eq!(
        fs.read_archive(ArchiveType::new(1)).unwrap_err(),
        FileSystemError::ArchiveNotFound(1)
    );
}
