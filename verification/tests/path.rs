use sendme::path::{canonicalized_path_to_string, is_plain, PathError, PathPart};

fn normal(name: &str) -> PathPart {
    PathPart::Normal(name.to_string())
}

fn read_back(name: &str) -> Vec<PathPart> {
    let mut pieces: Vec<&str> = name.split('/').collect();
    if pieces.last() == Some(&"") {
        pieces.pop();
    }
    pieces
        .into_iter()
        .map(|piece| if piece.is_empty() { PathPart::RootDir } else { normal(piece) })
        .collect()
}

#[test]
fn names_are_joined_with_slashes() {
    let path = vec![normal("photos"), normal("2024"), normal("a.jpg")];
    assert_eq!(canonicalized_path_to_string(&path, true), Ok("photos/2024/a.jpg".to_string()));
    assert_eq!(canonicalized_path_to_string(&path, false), Ok("photos/2024/a.jpg".to_string()));
}

#[test]
fn a_single_name_stands_alone() {
    assert_eq!(canonicalized_path_to_string(&[normal("file.txt")], true), Ok("file.txt".to_string()));
}

#[test]
fn the_empty_path_has_the_empty_name() {
    assert_eq!(canonicalized_path_to_string(&[], true), Ok(String::new()));
    assert_eq!(canonicalized_path_to_string(&[], false), Ok(String::new()));
}

#[test]
fn the_root_is_written_where_it_may_stand() {
    let path = vec![PathPart::RootDir, normal("etc"), normal("hosts")];
    assert_eq!(canonicalized_path_to_string(&path, false), Ok("/etc/hosts".to_string()));
    assert_eq!(canonicalized_path_to_string(&[PathPart::RootDir], false), Ok("/".to_string()));
}

#[test]
fn the_root_is_refused_in_a_relative_path() {
    let path = vec![PathPart::RootDir, normal("etc")];
    assert_eq!(
        canonicalized_path_to_string(&path, true),
        Err(PathError::InvalidPathComponent(PathPart::RootDir))
    );
}

#[test]
fn components_that_are_no_names_are_refused() {
    for part in [PathPart::CurDir, PathPart::ParentDir, PathPart::Prefix] {
        let path = vec![normal("a"), part.clone(), normal("b")];
        assert_eq!(
            canonicalized_path_to_string(&path, true),
            Err(PathError::InvalidPathComponent(part.clone()))
        );
        assert_eq!(
            canonicalized_path_to_string(&path, false),
            Err(PathError::InvalidPathComponent(part))
        );
    }
}

#[test]
fn names_with_separators_are_refused() {
    assert_eq!(
        canonicalized_path_to_string(&[normal("a/b")], true),
        Err(PathError::InvalidPathComponent(normal("a/b")))
    );
    assert_eq!(
        canonicalized_path_to_string(&[normal("ok"), normal("a\\b")], false),
        Err(PathError::InvalidPathComponent(normal("a\\b")))
    );
}

#[test]
fn names_that_are_no_names_are_refused() {
    for name in ["", ".", ".."] {
        assert_eq!(
            canonicalized_path_to_string(&[normal("a"), normal(name), normal("b")], true),
            Err(PathError::InvalidPathComponent(normal(name)))
        );
        assert_eq!(
            canonicalized_path_to_string(&[normal(name)], false),
            Err(PathError::InvalidPathComponent(normal(name)))
        );
    }
}

#[test]
fn names_with_dots_are_names() {
    let path = vec![normal("..."), normal(".hidden"), normal("a..b"), normal(".a"), normal("a.")];
    assert_eq!(canonicalized_path_to_string(&path, true), Ok(".../.hidden/a..b/.a/a.".to_string()));
    assert!(is_plain("..."));
    assert!(is_plain(".x"));
    assert!(is_plain("x"));
    assert!(is_plain("é"));
    assert!(!is_plain(""));
    assert!(!is_plain("."));
    assert!(!is_plain(".."));
    assert!(!is_plain("a/b"));
    assert!(!is_plain("a\\b"));
}

#[test]
fn names_that_are_not_unicode_are_refused() {
    let path = vec![normal("a"), PathPart::NonUnicode];
    assert_eq!(canonicalized_path_to_string(&path, true), Err(PathError::InvalidCharacter));
}

#[test]
fn the_first_wrong_component_decides() {
    let path = vec![normal("a"), PathPart::ParentDir, PathPart::NonUnicode, normal("x/y")];
    assert_eq!(
        canonicalized_path_to_string(&path, true),
        Err(PathError::InvalidPathComponent(PathPart::ParentDir))
    );
    let path = vec![PathPart::NonUnicode, PathPart::ParentDir];
    assert_eq!(canonicalized_path_to_string(&path, true), Err(PathError::InvalidCharacter));
}

#[test]
fn names_keep_their_characters() {
    let path = vec![normal("größe"), normal("日本語.txt"), normal("a b.c:d")];
    assert_eq!(
        canonicalized_path_to_string(&path, true),
        Ok("größe/日本語.txt/a b.c:d".to_string())
    );
}

#[test]
fn a_name_read_back_as_a_path_has_the_same_name() {
    let paths = vec![
        vec![normal("a"), normal("b"), normal("c.txt")],
        vec![normal("only")],
        vec![],
        vec![PathPart::RootDir, normal("usr"), normal("lib")],
        vec![PathPart::RootDir],
    ];
    for path in paths {
        for must_be_relative in [true, false] {
            if let Ok(name) = canonicalized_path_to_string(&path, must_be_relative) {
                assert_eq!(read_back(&name), path);
                let again = canonicalized_path_to_string(&read_back(&name), must_be_relative);
                assert_eq!(again, Ok(name));
            }
        }
    }
}

#[test]
fn a_copy_of_a_component_equals_it() {
    for part in [normal("x"), PathPart::RootDir, PathPart::NonUnicode, PathPart::Prefix] {
        assert_eq!(part.duplicate(), part);
    }
}
