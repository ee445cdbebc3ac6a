use sendme::share::{
    check_share_location, entry_type, fresh_store_dir_name, store_dir_name, ShareError,
};

#[test]
fn the_store_directory_is_named_by_its_suffix_in_hex() {
    let suffix: [u8; 16] = [0, 1, 2, 3, 4, 5, 6, 7, 8, 9, 10, 11, 12, 13, 14, 15];
    assert_eq!(store_dir_name(&suffix), ".sendme-send-000102030405060708090a0b0c0d0e0f");
    let suffix: [u8; 16] =
        [0xde, 0xad, 0xbe, 0xef, 0xff, 0x10, 0x9a, 0xa9, 0x7f, 0x80, 0x00, 0x0f, 0xf0, 0x5c, 0x2f, 0xc3];
    assert_eq!(store_dir_name(&suffix), ".sendme-send-deadbeefff109aa97f80000ff05c2fc3");
}

#[test]
fn a_fresh_store_directory_has_a_suffix_of_sixteen_bytes() {
    let name = fresh_store_dir_name();
    let suffix = name.strip_prefix(".sendme-send-").expect("the name has its prefix");
    assert_eq!(suffix.len(), 32);
    assert!(suffix.chars().all(|c| c.is_ascii_digit() || ('a'..='f').contains(&c)));
}

#[test]
fn a_share_is_not_started_twice_from_one_directory() {
    assert_eq!(check_share_location(true, false), Err(ShareError::SharedTwice));
    assert_eq!(check_share_location(true, true), Err(ShareError::SharedTwice));
}

#[test]
fn the_current_directory_is_not_shared() {
    assert_eq!(check_share_location(false, true), Err(ShareError::CurrentDirectory));
    assert_eq!(check_share_location(false, false), Ok(()));
}

#[test]
fn a_share_is_a_file_or_a_directory() {
    assert_eq!(entry_type(true), "file");
    assert_eq!(entry_type(false), "directory");
}
