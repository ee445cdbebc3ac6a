use sendme::desktop::{check_path_type, directory_size, get_file_size, start_sharing, PathProbe};

#[test]
fn the_size_of_a_file_is_its_length() {
    assert_eq!(get_file_size(PathProbe::File { metadata: Ok(1234) }), Ok(1234));
    assert_eq!(get_file_size(PathProbe::File { metadata: Ok(0) }), Ok(0));
}

#[test]
fn the_size_of_a_directory_is_the_sum_of_its_files() {
    assert_eq!(get_file_size(PathProbe::Directory { file_sizes: vec![10, 20, 12] }), Ok(42));
    assert_eq!(get_file_size(PathProbe::Directory { file_sizes: vec![] }), Ok(0));
    assert_eq!(directory_size(&vec![1, 2, 3]), 6);
    assert_eq!(directory_size(&vec![u64::MAX - 1, 1]), u64::MAX);
    assert_eq!(directory_size(&vec![u64::MAX, 1, 5]), u64::MAX);
}

#[test]
fn a_path_that_is_not_there_has_no_size() {
    assert_eq!(get_file_size(PathProbe::Missing), Err("Path does not exist".to_string()));
}

#[test]
fn metadata_that_cannot_be_read_is_reported() {
    assert_eq!(
        get_file_size(PathProbe::File { metadata: Err("permission denied".to_string()) }),
        Err("Failed to get file metadata: permission denied".to_string())
    );
}

#[test]
fn what_is_neither_file_nor_directory_has_no_size() {
    assert_eq!(
        get_file_size(PathProbe::Other),
        Err("Path is neither a file nor a directory".to_string())
    );
}

#[test]
fn a_path_is_a_directory_or_a_file() {
    assert_eq!(check_path_type(true, true, false), Ok("directory".to_string()));
    assert_eq!(check_path_type(true, false, true), Ok("file".to_string()));
    assert_eq!(check_path_type(true, true, true), Ok("directory".to_string()));
    assert_eq!(check_path_type(false, true, true), Err("Path does not exist".to_string()));
    assert_eq!(check_path_type(false, false, false), Err("Path does not exist".to_string()));
    assert_eq!(
        check_path_type(true, false, false),
        Err("Path is neither a file nor a directory".to_string())
    );
}

#[test]
fn only_one_share_runs_at_a_time() {
    let busy = Err("Already sharing a file. Please stop current share first.".to_string());
    assert_eq!(start_sharing(true, true, "/tmp/x"), busy);
    assert_eq!(start_sharing(true, false, "/tmp/x"), busy);
}

#[test]
fn only_what_exists_is_shared() {
    assert_eq!(start_sharing(false, false, "/tmp/x"), Err("Path does not exist: /tmp/x".to_string()));
    assert_eq!(start_sharing(false, true, "/tmp/x"), Ok(()));
}
