use cachefs::str::{name_hash, StrExt};

#[test]
fn test_archive_entry_name_positive_hash() {
    assert_eq!("mapedge.dat".name_hash(), 1362520410)
}

#[test]
fn test_archive_entry_name_negative_hash() {
    assert_eq!("invback.dat".name_hash(), -1568083395)
}

#[test]
fn test_name_hash_is_case_insensitive() {
    assert_eq!(name_hash("ANIM_CRC"), name_hash("anim_crc"));
    assert_eq!(name_hash("Logo.Dat"), name_hash("LOGO.DAT"));
    assert_eq!(name_hash("mapedge.dat"), name_hash("MAPEDGE.DAT"));
}

#[test]
fn test_name_hash_empty_and_free_function_agree() {
    assert_eq!(name_hash(""), 0);
    assert_eq!(name_hash("mapedge.dat"), "mapedge.dat".name_hash());
}
