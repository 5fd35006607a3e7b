use cachefs::bytebuffer::{ByteBuffer, ByteBufferExt};
use cachefs::errors::FileSystemError;
use cachefs::versionlist::{CrcList, VersionList};

#[test]
fn test_version_list_decode() {
    let data = [0x00, 0x01, 0x01, 0x00, 0xff, 0xff, 0xaa];
    let list = VersionList::decode(&data, 6).unwrap();
    assert_eq!(list.len(), 3);
    assert_eq!(list.get(0), Some(&1));
    assert_eq!(list.get(1), Some(&256));
    assert_eq!(list.get(2), Some(&65535));
    assert_eq!(list.get(3), None);
}

#[test]
fn test_version_list_decode_odd_length_rounds_down() {
    let data = [0x00, 0x05, 0x12];
    let list = VersionList::decode(&data, 3).unwrap();
    assert_eq!(list.len(), 1);
    assert_eq!(list.get(0), Some(&5));
}

#[test]
fn test_version_list_decode_short_data() {
    let data = [0x00, 0x01];
    assert_eq!(
        VersionList::decode(&data, 8).unwrap_err(),
        FileSystemError::Io
    );
}

#[test]
fn test_crc_list_decode() {
    let data = [0x00, 0x00, 0x00, 0x2a, 0xff, 0xff, 0xff, 0xff];
    let list = CrcList::decode(&data, 8).unwrap();
    assert_eq!(list.len(), 2);
    assert_eq!(list.get(0), Some(&42));
    assert_eq!(list.get(1), Some(&4294967295));
    assert_eq!(list.get(2), None);
}

#[test]
fn test_crc_list_decode_short_data() {
    let data = [0x00, 0x00, 0x00];
    assert_eq!(CrcList::decode(&data, 4).unwrap_err(), FileSystemError::Io);
}

#[test]
fn test_byte_buffer_reads() {
    let mut buf = ByteBuffer::new(vec![0x01, 0x02, 0x03, 0xff, 0xff, 0xff, 0xfe, 0x07, 0x08]);
    assert_eq!(buf.read_tri_byte().unwrap(), 0x010203);
    assert_eq!(buf.read_i32().unwrap(), -2);
    assert_eq!(buf.read_u16().unwrap(), 0x0708);
    assert_eq!(buf.remaining(), 0);
    assert_eq!(buf.read_u8().unwrap_err(), FileSystemError::Io);
}

#[test]
fn test_byte_buffer_read_bytes() {
    let mut buf = ByteBuffer::new(vec![1, 2, 3, 4, 5]);
    assert_eq!(buf.read_bytes(3).unwrap(), vec![1, 2, 3]);
    assert_eq!(buf.read_bytes(3).unwrap_err(), FileSystemError::Io);
    assert_eq!(buf.read_bytes(2).unwrap(), vec![4, 5]);
}
