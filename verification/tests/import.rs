use sendme::import::{
    collect_imported, data_sources, finish_import, import_file, import_parallelism, pool_size,
    AddProgress, FileImport, ImportError, ImportStep, WalkItem,
};
use sendme::manifest::{ContentEntry, ContentId, ManifestEntry};
use sendme::path::{PathError, PathPart};

fn id(byte: u8) -> ContentId {
    ContentId { bytes: [byte; 32] }
}

fn parts(names: &[&str]) -> Vec<PathPart> {
    names.iter().map(|n| PathPart::Normal(n.to_string())).collect()
}

fn file(names: &[&str], path: &str) -> WalkItem<String> {
    WalkItem::Entry { is_file: true, relative: parts(names), path: path.to_string() }
}

fn dir(names: &[&str], path: &str) -> WalkItem<String> {
    WalkItem::Entry { is_file: false, relative: parts(names), path: path.to_string() }
}

fn entry(name: &str, size: u64, byte: u8) -> ContentEntry<u8> {
    ContentEntry { name: name.to_string(), hash: id(byte), size, tag: byte }
}

fn failed(name: &str, cause: &str) -> ImportError {
    ImportError::ImportFailed { name: name.to_string(), cause: cause.to_string() }
}

#[test]
fn the_files_of_a_walk_are_listed_under_their_relative_names() {
    let items = vec![
        dir(&["root"], "/tmp/root"),
        file(&["root", "b.txt"], "/tmp/root/b.txt"),
        dir(&["root", "sub"], "/tmp/root/sub"),
        file(&["root", "sub", "a.txt"], "/tmp/root/sub/a.txt"),
    ];
    let sources = data_sources(true, items).expect("all names are valid");
    let listed: Vec<(&str, &str)> =
        sources.iter().map(|s| (s.name.as_str(), s.path.as_str())).collect();
    assert_eq!(
        listed,
        vec![("root/b.txt", "/tmp/root/b.txt"), ("root/sub/a.txt", "/tmp/root/sub/a.txt")]
    );
}

#[test]
fn a_single_file_is_its_own_entry() {
    let sources = data_sources(true, vec![file(&["notes.txt"], "/home/me/notes.txt")]).unwrap();
    assert_eq!(sources.len(), 1);
    assert_eq!(sources[0].name, "notes.txt");
    assert_eq!(sources[0].path, "/home/me/notes.txt");
}

#[test]
fn a_root_that_does_not_exist_is_not_found() {
    let result = data_sources(false, Vec::<WalkItem<String>>::new());
    assert_eq!(result.err(), Some(ImportError::NotFound));
    let result = data_sources(false, vec![file(&["a"], "a")]);
    assert_eq!(result.err(), Some(ImportError::NotFound));
}

#[test]
fn a_file_without_a_valid_name_ends_the_listing() {
    let items = vec![
        file(&["root", "ok"], "1"),
        WalkItem::Entry {
            is_file: true,
            relative: vec![PathPart::Normal("root".to_string()), PathPart::ParentDir],
            path: "2".to_string(),
        },
        WalkItem::Failed { cause: "later".to_string() },
    ];
    assert_eq!(
        data_sources(true, items).err(),
        Some(ImportError::InvalidPath(PathError::InvalidPathComponent(PathPart::ParentDir)))
    );
    let rooted = vec![WalkItem::Entry {
        is_file: true,
        relative: vec![PathPart::RootDir, PathPart::Normal("x".to_string())],
        path: (),
    }];
    assert_eq!(
        data_sources(true, rooted).err(),
        Some(ImportError::InvalidPath(PathError::InvalidPathComponent(PathPart::RootDir)))
    );
    let odd = vec![WalkItem::Entry { is_file: true, relative: vec![PathPart::NonUnicode], path: () }];
    assert_eq!(
        data_sources(true, odd).err(),
        Some(ImportError::InvalidPath(PathError::InvalidCharacter))
    );
}

#[test]
fn a_walk_that_fails_ends_the_listing() {
    let items = vec![
        file(&["root", "ok"], "1"),
        WalkItem::Failed { cause: "permission denied".to_string() },
        file(&["root", "bad/name"], "2"),
    ];
    assert_eq!(
        data_sources(true, items).err(),
        Some(ImportError::WalkFailed { cause: "permission denied".to_string() })
    );
}

#[test]
fn what_is_no_regular_file_is_passed_over_whatever_its_name() {
    let items = vec![
        WalkItem::Entry { is_file: false, relative: vec![PathPart::ParentDir], path: 1u8 },
        WalkItem::Entry { is_file: true, relative: parts(&["f"]), path: 2u8 },
    ];
    let sources = data_sources(true, items).unwrap();
    assert_eq!(sources.len(), 1);
    assert_eq!(sources[0].name, "f");
    assert_eq!(sources[0].path, 2);
}

#[test]
fn the_last_reported_length_is_the_size_of_the_entry() {
    let state = FileImport::new("f.bin".to_string());
    assert_eq!(state, FileImport { name: "f.bin".to_string(), size: 0 });
    let state = match state.step(Some(AddProgress::<u8>::Size(10))) {
        ImportStep::Continue(next) => next,
        other => panic!("unexpected {:?}", other),
    };
    assert_eq!(state.size, 10);
    let state = match state.step(Some(AddProgress::<u8>::CopyProgress(4))) {
        ImportStep::Continue(next) => next,
        other => panic!("unexpected {:?}", other),
    };
    let state = match state.step(Some(AddProgress::<u8>::CopyDone)) {
        ImportStep::Continue(next) => next,
        other => panic!("unexpected {:?}", other),
    };
    let state = match state.step(Some(AddProgress::<u8>::OutboardProgress(9))) {
        ImportStep::Continue(next) => next,
        other => panic!("unexpected {:?}", other),
    };
    assert_eq!(state, FileImport { name: "f.bin".to_string(), size: 10 });
    let state = match state.step(Some(AddProgress::<u8>::Size(12))) {
        ImportStep::Continue(next) => next,
        other => panic!("unexpected {:?}", other),
    };
    match state.step(Some(AddProgress::Done { hash: id(5), tag: 77u8 })) {
        ImportStep::Finished(entry) => {
            assert_eq!(entry.name, "f.bin");
            assert_eq!(entry.size, 12);
            assert_eq!(entry.hash, id(5));
            assert_eq!(entry.tag, 77);
        }
        other => panic!("unexpected {:?}", other),
    }
}

#[test]
fn a_report_of_failure_ends_the_import_of_the_file() {
    let state = FileImport::new("f".to_string());
    match state.step(Some(AddProgress::<u8>::Error("disk full".to_string()))) {
        ImportStep::Failed(error) => assert_eq!(error, failed("f", "disk full")),
        other => panic!("unexpected {:?}", other),
    }
}

#[test]
fn reports_that_end_without_a_tag_fail_the_import() {
    let state = FileImport::new("f".to_string());
    match state.step(None::<AddProgress<u8>>) {
        ImportStep::Failed(error) => {
            assert_eq!(error, ImportError::MissingTag { name: "f".to_string() })
        }
        other => panic!("unexpected {:?}", other),
    }
    let result = import_file("g".to_string(), vec![AddProgress::<u8>::Size(3), AddProgress::CopyDone]);
    assert_eq!(result.err(), Some(ImportError::MissingTag { name: "g".to_string() }));
    let result = import_file("h".to_string(), Vec::<AddProgress<u8>>::new());
    assert_eq!(result.err(), Some(ImportError::MissingTag { name: "h".to_string() }));
}

#[test]
fn a_whole_sequence_of_reports_gives_the_entry() {
    let reports = vec![
        AddProgress::Size(1024),
        AddProgress::CopyProgress(512),
        AddProgress::CopyProgress(1024),
        AddProgress::CopyDone,
        AddProgress::OutboardProgress(1024),
        AddProgress::Done { hash: id(9), tag: "keep" },
        AddProgress::Size(1),
        AddProgress::Error("too late".to_string()),
    ];
    let entry = import_file("dir/file".to_string(), reports).expect("the import ends well");
    assert_eq!(entry.name, "dir/file");
    assert_eq!(entry.size, 1024);
    assert_eq!(entry.hash, id(9));
    assert_eq!(entry.tag, "keep");
}

#[test]
fn a_file_of_which_no_length_was_reported_has_size_zero() {
    let entry = import_file("e".to_string(), vec![AddProgress::Done { hash: id(1), tag: () }]).unwrap();
    assert_eq!(entry.size, 0);
}

#[test]
fn the_first_failure_in_a_sequence_of_reports_decides() {
    let reports = vec![
        AddProgress::<u8>::Size(5),
        AddProgress::Error("first".to_string()),
        AddProgress::Error("second".to_string()),
        AddProgress::Done { hash: id(1), tag: 1 },
    ];
    assert_eq!(import_file("n".to_string(), reports).err(), Some(failed("n", "first")));
}

#[test]
fn a_batch_without_failures_keeps_every_entry_in_order() {
    let results = vec![Ok(entry("c", 1, 3)), Ok(entry("a", 2, 1)), Ok(entry("b", 3, 2))];
    let entries = collect_imported(results).expect("no failure");
    let names: Vec<&str> = entries.iter().map(|e| e.name.as_str()).collect();
    assert_eq!(names, vec!["c", "a", "b"]);
    assert_eq!(collect_imported(Vec::<Result<ContentEntry<u8>, ImportError>>::new()).unwrap().len(), 0);
}

#[test]
fn the_first_failure_of_a_batch_is_its_result() {
    let results = vec![
        Ok(entry("a", 1, 1)),
        Err(failed("b", "first")),
        Ok(entry("c", 1, 3)),
        Err(failed("d", "second")),
    ];
    assert_eq!(collect_imported(results).err(), Some(failed("b", "first")));
}

#[test]
fn a_batch_with_a_failure_has_no_manifest() {
    let results = vec![Ok(entry("a", 1, 1)), Err(ImportError::MissingTag { name: "b".to_string() })];
    assert_eq!(finish_import(results).err(), Some(ImportError::MissingTag { name: "b".to_string() }));
}

#[test]
fn a_batch_ends_in_a_sorted_manifest() {
    let results = vec![Ok(entry("b.txt", 10, 2)), Ok(entry("a.txt", 20, 1))];
    let (manifest, tags) = finish_import(results).expect("no failure");
    assert_eq!(
        manifest.entries,
        vec![
            ManifestEntry { name: "a.txt".to_string(), hash: id(1) },
            ManifestEntry { name: "b.txt".to_string(), hash: id(2) },
        ]
    );
    assert_eq!(manifest.total_size, 30);
    assert_eq!(tags, vec![1, 2]);
}

#[test]
fn a_batch_that_is_too_large_has_no_manifest() {
    let results = vec![Ok(entry("a", u64::MAX, 1)), Ok(entry("b", 1, 2))];
    assert_eq!(finish_import(results).err(), Some(ImportError::TooLarge));
    let results = vec![Ok(entry("a", u64::MAX, 1)), Err(failed("b", "x")), Ok(entry("c", 1, 3))];
    assert_eq!(finish_import(results).err(), Some(failed("b", "x")));
}

#[test]
fn there_is_always_a_worker() {
    assert!(import_parallelism() >= 1);
    assert_eq!(pool_size(0), 1);
    assert_eq!(pool_size(1), 1);
    assert_eq!(pool_size(8), 8);
    assert_eq!(pool_size(usize::MAX), usize::MAX);
}
