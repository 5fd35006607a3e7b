use cachefs::errors::{FileSystemError, SectorDataKind};
use cachefs::filesystem::{CacheSectorHeader, FileSystem};
use cachefs::index::{Index, IndexType};

fn push_u24(out: &mut Vec<u8>, v: u32) {
    out.push((v >> 16) as u8);
    out.push((v >> 8) as u8);
    out.push(v as u8);
}

fn index_record(size: u32, first_sector: u32) -> Vec<u8> {
    let mut out = Vec::new();
    push_u24(&mut out, size);
    push_u24(&mut out, first_sector);
    out
}

/// Writes a standard-layout sector for `entry_id` at sector `at` of `data`,
/// filling the payload from `payload` (padded with zeros).
fn put_sector(
    data: &mut Vec<u8>,
    at: usize,
    entry_id: u16,
    sequence: u16,
    next_sector: u32,
    category_plus_one: u8,
    payload: &[u8],
) {
    let base = at * 520;
    if data.len() < base + 520 {
        data.resize(base + 520, 0);
    }
    data[base] = (entry_id >> 8) as u8;
    data[base + 1] = entry_id as u8;
    data[base + 2] = (sequence >> 8) as u8;
    data[base + 3] = sequence as u8;
    data[base + 4] = (next_sector >> 16) as u8;
    data[base + 5] = (next_sector >> 8) as u8;
    data[base + 6] = next_sector as u8;
    data[base + 7] = category_plus_one;
    for (i, b) in payload.iter().enumerate() {
        data[base + 8 + i] = *b;
    }
}

fn single_entry_cache(size: u32, payload_bytes: &[u8]) -> FileSystem {
    let mut index0 = Vec::new();
    index0.extend_from_slice(&index_record(size, 1));
    let mut data = Vec::new();
    put_sector(&mut data, 1, 0, 0, 0, 1, payload_bytes);
    FileSystem::new(data, vec![Index::new(0, index0)])
}

#[test]
fn test_read_single_sector_entry() {
    let payload: Vec<u8> = (0..100u32).map(|i| (i % 256) as u8).collect();
    let fs = single_entry_cache(100, &payload);
    let read = fs.read(IndexType::new(0), 0).unwrap();
    assert_eq!(read, payload);
}

#[test]
fn test_read_multi_sector_entry() {
    // 700 bytes span two standard sectors: 512 in the first, 188 in the second.
    let payload: Vec<u8> = (0..700u32).map(|i| (i % 253) as u8).collect();
    let mut index2 = Vec::new();
    index2.extend_from_slice(&index_record(700, 1));
    let mut data = Vec::new();
    put_sector(&mut data, 1, 0, 0, 2, 3, &payload[..512]);
    put_sector(&mut data, 2, 0, 1, 0, 3, &payload[512..]);
    let fs = FileSystem::new(data, vec![Index::new(2, index2)]);
    let read = fs.read(IndexType::new(2), 0).unwrap();
    assert_eq!(read, payload);
}

#[test]
fn test_read_zero_size_entry_returns_empty() {
    let mut index0 = Vec::new();
    index0.extend_from_slice(&index_record(0, 9));
    // The sector pointer is never dereferenced: no data file content needed.
    let fs = FileSystem::new(Vec::new(), vec![Index::new(0, index0)]);
    assert_eq!(fs.read(IndexType::new(0), 0).unwrap(), Vec::<u8>::new());
}

#[test]
fn test_read_missing_index() {
    let payload = [5u8; 10];
    let fs = single_entry_cache(10, &payload);
    assert_eq!(
        fs.read(IndexType::new(1), 0).unwrap_err(),
        FileSystemError::IndexNotFound { index_type: IndexType::new(1) }
    );
}

#[test]
fn test_read_entry_past_index_end() {
    let payload = [5u8; 10];
    let fs = single_entry_cache(10, &payload);
    assert_eq!(
        fs.read(IndexType::new(0), 9).unwrap_err(),
        FileSystemError::IndexEntryNotFound(9)
    );
}

#[test]
fn test_read_category_mismatch() {
    let mut index0 = Vec::new();
    index0.extend_from_slice(&index_record(10, 1));
    let mut data = Vec::new();
    put_sector(&mut data, 1, 0, 0, 0, 7, &[1u8; 10]);
    let fs = FileSystem::new(data, vec![Index::new(0, index0)]);
    assert_eq!(
        fs.read(IndexType::new(0), 0).unwrap_err(),
        FileSystemError::SectorReadingDataMismatch {
            data_type: SectorDataKind::Category,
            expected: 1,
            actual: 7,
        }
    );
}

#[test]
fn test_read_sequence_mismatch() {
    let mut index0 = Vec::new();
    index0.extend_from_slice(&index_record(10, 1));
    let mut data = Vec::new();
    put_sector(&mut data, 1, 0, 3, 0, 1, &[1u8; 10]);
    let fs = FileSystem::new(data, vec![Index::new(0, index0)]);
    assert_eq!(
        fs.read(IndexType::new(0), 0).unwrap_err(),
        FileSystemError::SectorReadingDataMismatch {
            data_type: SectorDataKind::Sequence,
            expected: 0,
            actual: 3,
        }
    );
}

#[test]
fn test_read_entry_id_mismatch() {
    let mut index0 = Vec::new();
    index0.extend_from_slice(&index_record(10, 1));
    index0.extend_from_slice(&index_record(10, 1));
    let mut data = Vec::new();
    put_sector(&mut data, 1, 0, 0, 0, 1, &[1u8; 10]);
    let fs = FileSystem::new(data, vec![Index::new(0, index0)]);
    assert_eq!(
        fs.read(IndexType::new(0), 1).unwrap_err(),
        FileSystemError::SectorReadingDataMismatch {
            data_type: SectorDataKind::EntryId,
            expected: 1,
            actual: 0,
        }
    );
}

#[test]
fn test_read_extended_header_entry() {
    // Entry ids above 65535 use the 10-byte header with a 510-byte payload.
    let entry_id: u32 = 65536;
    let mut index1 = vec![0u8; 6 * 65536];
    index1.extend_from_slice(&index_record(5, 1));
    let mut data = vec![0u8; 2 * 520];
    let base = 520;
    data[base] = (entry_id >> 24) as u8;
    data[base + 1] = (entry_id >> 16) as u8;
    data[base + 2] = (entry_id >> 8) as u8;
    data[base + 3] = entry_id as u8;
    // sequence 0, next sector 0
    data[base + 9] = 2; // category 1 plus one
    for i in 0..5 {
        data[base + 10 + i] = (40 + i) as u8;
    }
    let fs = FileSystem::new(data, vec![Index::new(1, index1)]);
    let read = fs.read(IndexType::new(1), entry_id).unwrap();
    assert_eq!(read, vec![40, 41, 42, 43, 44]);
}

#[test]
fn test_file_count_and_index_count() {
    let mut index0 = Vec::new();
    index0.extend_from_slice(&index_record(10, 1));
    index0.extend_from_slice(&index_record(20, 2));
    index0.extend_from_slice(&index_record(0, 0));
    let fs = FileSystem::new(Vec::new(), vec![Index::new(0, index0)]);
    assert_eq!(fs.file_count(IndexType::new(0)).unwrap(), 3);
    assert!(fs.file_count(IndexType::new(4)).is_err());
    assert_eq!(fs.index_count(), 1);
}

#[test]
fn test_index_entry_accessors() {
    let mut bytes = Vec::new();
    bytes.extend_from_slice(&index_record(300, 77));
    let index = Index::new(3, bytes);
    assert_eq!(index.index_type().id(), 3);
    assert_eq!(index.file_count(), 1);
    let entry = index.entry(0).unwrap();
    assert_eq!(entry.id(), 0);
    assert_eq!(entry.size(), 300);
    assert_eq!(entry.offset(), 77);
    assert_eq!(
        index.entry(1).unwrap_err(),
        FileSystemError::IndexEntryNotFound(1)
    );
}

#[test]
fn test_sector_header_from_bytes_standard() {
    let bytes = [0x00, 0x07, 0x00, 0x02, 0x00, 0x00, 0x09, 0x05];
    let header = CacheSectorHeader::from_bytes(&bytes).unwrap();
    assert_eq!(header.next_entry_id, 7);
    assert_eq!(header.next_sequence, 2);
    assert_eq!(header.next_block, 9);
    assert_eq!(header.next_index_id, 5);
}

#[test]
fn test_sector_header_from_bytes_extended() {
    let bytes = [0x00, 0x01, 0x00, 0x00, 0x00, 0x02, 0x00, 0x00, 0x09, 0x05];
    let header = CacheSectorHeader::from_bytes(&bytes).unwrap();
    assert_eq!(header.next_entry_id, 65536);
    assert_eq!(header.next_sequence, 2);
    assert_eq!(header.next_block, 9);
    assert_eq!(header.next_index_id, 5);
}

#[test]
fn test_sector_header_from_bytes_bad_length() {
    let bytes = [0u8; 5];
    assert_eq!(
        CacheSectorHeader::from_bytes(&bytes).unwrap_err(),
        FileSystemError::InvalidBlockHeaderLength(5)
    );
}
