use documents::create::Create;
use documents::document::{result_name, result_path, suggest_rename, Document};
use documents::document_error::DocumentError;
use documents::engine::{Engine, Step};
use documents::mode::Mode;
use documents::resolve::{setup_in, FileStore};

#[test]
fn test_never_missing_fails_not_found() {
    let mut fs = FileStore::new();
    let r = Document::at_path("/data/file.txt", "f", Create::No, &mut fs);
    match r {
        Err(DocumentError::FileNotFound(p)) => assert_eq!(p, "/data/file.txt"),
        other => panic!("expected a file-not-found failure, got {:?}", other),
    }
    assert_eq!(fs.file_count(), 0);
}

#[test]
fn test_never_existing_succeeds_unchanged() {
    let mut fs = FileStore::new();
    Document::at_path("/data/file.txt", "f", Create::OnlyIfNotExists, &mut fs).unwrap();
    let doc = Document::at_path("/data/file.txt", "f", Create::No, &mut fs).unwrap();
    assert_eq!(doc.path(), "/data/file.txt");
    assert_eq!(fs.file_count(), 1);
}

#[test]
fn test_create_if_absent_is_idempotent() {
    let mut fs = FileStore::new();
    let d1 = Document::at_path("/data/notes.txt", "n", Create::OnlyIfNotExists, &mut fs).unwrap();
    assert_eq!(d1.path(), "/data/notes.txt");
    assert_eq!(fs.file_count(), 1);
    d1.append(b"hello", &mut fs).unwrap();
    let d2 = Document::at_path("/data/notes.txt", "n", Create::OnlyIfNotExists, &mut fs).unwrap();
    assert_eq!(d2.path(), "/data/notes.txt");
    assert_eq!(fs.file_count(), 1);
    // The second resolution did not wipe the existing content.
    assert_eq!(d2.content(&fs).unwrap(), "hello");
}

#[test]
fn test_auto_rename_three_times() {
    let mut fs = FileStore::new();
    let d1 = Document::at_path(
        "/downloads/file.txt",
        "f",
        Create::AutoRenameIfExists,
        &mut fs,
    )
    .unwrap();
    let d2 = Document::at_path(
        "/downloads/file.txt",
        "f",
        Create::AutoRenameIfExists,
        &mut fs,
    )
    .unwrap();
    let d3 = Document::at_path(
        "/downloads/file.txt",
        "f",
        Create::AutoRenameIfExists,
        &mut fs,
    )
    .unwrap();
    assert_eq!(d1.path(), "/downloads/file.txt");
    assert_eq!(d2.path(), "/downloads/file(1).txt");
    assert_eq!(d3.path(), "/downloads/file(2).txt");
    assert_eq!(fs.file_count(), 3);
}

#[test]
fn test_auto_rename_fixed_point() {
    // With name(0).ext through name(2).ext present, resolving from
    // name(0).ext selects name(3).ext and no lower counter.
    let mut fs = FileStore::new();
    for k in 0..3 {
        let p = format!("/d/name({}).ext", k);
        Document::at_path(&p, "x", Create::OnlyIfNotExists, &mut fs).unwrap();
    }
    let d = Document::at_path("/d/name(0).ext", "x", Create::AutoRenameIfExists, &mut fs)
        .unwrap();
    assert_eq!(d.path(), "/d/name(3).ext");
}

#[test]
fn test_auto_rename_never_repeats() {
    let mut fs = FileStore::new();
    let q1 = setup_in(&mut fs, "/p/a.txt", Create::AutoRenameIfExists, false).unwrap();
    let q2 = setup_in(&mut fs, "/p/a.txt", Create::AutoRenameIfExists, false).unwrap();
    assert_ne!(q1, q2);
    let q3 = setup_in(&mut fs, "/p/a.txt", Create::AutoRenameIfExists, false).unwrap();
    assert_ne!(q2, q3);
}

#[test]
fn test_dry_run_changes_nothing() {
    let mut fs = FileStore::new();
    Document::at_path("/p/pic.png", "p", Create::OnlyIfNotExists, &mut fs).unwrap();
    let preview = setup_in(&mut fs, "/p/pic.png", Create::AutoRenameIfExists, true).unwrap();
    assert_eq!(preview, "/p/pic(1).png");
    assert_eq!(fs.file_count(), 1);
}

#[test]
fn test_dry_run_requests_no_creation() {
    // A dry run's first request on a path with a parent is the existence
    // probe, not directory creation; outside a dry run it is the mkdir.
    let dry = Engine::new("/a/b/c.txt", Create::AutoRenameIfExists, true);
    match dry.next() {
        Step::CheckExists(p) => assert_eq!(p, "/a/b/c.txt"),
        other => panic!("expected an existence check, got {:?}", other),
    }
    let dry_probe = Engine::new("/a/b/c.txt", Create::OnlyIfNotExists, true);
    match dry_probe.next() {
        Step::CheckExists(p) => assert_eq!(p, "/a/b/c.txt"),
        other => panic!("expected an existence check, got {:?}", other),
    }
    let wet = Engine::new("/a/b/c.txt", Create::AutoRenameIfExists, false);
    match wet.next() {
        Step::MakeParentDir(d) => assert_eq!(d, "/a/b"),
        other => panic!("expected directory creation, got {:?}", other),
    }
}

#[test]
fn test_result_degradation() {
    let mut fs = FileStore::new();
    let ok = Document::at_path("/r/a.txt", "a", Create::OnlyIfNotExists, &mut fs);
    assert_eq!(result_path(&ok), "/r/a.txt");
    assert_eq!(result_name(&ok), "a.txt");
    let failed: Result<Document, DocumentError> = Err(DocumentError::UserDirsNotFound);
    assert_eq!(result_path(&failed), "");
    assert_eq!(result_name(&failed), "");
}

#[test]
fn test_suggest_rename_existing() {
    let mut fs = FileStore::new();
    let r = Document::at_path("/p/picture.png", "p", Create::OnlyIfNotExists, &mut fs);
    assert_eq!(suggest_rename(&r, &mut fs), "/p/picture(1).png");
    Document::at_path("/p/picture.png", "p", Create::AutoRenameIfExists, &mut fs).unwrap();
    assert_eq!(suggest_rename(&r, &mut fs), "/p/picture(2).png");
}

#[test]
fn test_suggest_rename_free_name() {
    let mut fs = FileStore::new();
    let r = Document::at_path("/p/free.png", "p", Create::OnlyIfNotExists, &mut fs);
    // The construction created the file, so the suggestion moves past it.
    assert_eq!(suggest_rename(&r, &mut fs), "/p/free(1).png");
}

#[test]
fn test_suggest_rename_on_failures() {
    let mut fs = FileStore::new();
    let not_found: Result<Document, DocumentError> =
        Err(DocumentError::FileNotFound("/p/gone.txt".to_string()));
    assert_eq!(suggest_rename(&not_found, &mut fs), "/p/gone.txt");
    let other: Result<Document, DocumentError> = Err(DocumentError::ProjectDirsNotFound);
    assert_eq!(suggest_rename(&other, &mut fs), "");
}

#[test]
fn test_append_replace_content() {
    let mut fs = FileStore::new();
    let d = Document::at_path("/w/log.txt", "log", Create::OnlyIfNotExists, &mut fs).unwrap();
    assert_eq!(d.content(&fs).unwrap(), "");
    d.append(b"one", &mut fs).unwrap();
    d.append(b" two", &mut fs).unwrap();
    assert_eq!(d.content(&fs).unwrap(), "one two");
    d.replace_with(b"fresh", &mut fs).unwrap();
    assert_eq!(d.content(&fs).unwrap(), "fresh");
}

#[test]
fn test_append_missing_file_fails() {
    let mut fs = FileStore::new();
    let d = Document::from_parts("a".to_string(), "/w/none.txt".to_string(), Create::No);
    match d.append(b"x", &mut fs) {
        Err(DocumentError::CouldNotOpenFile(p)) => assert_eq!(p, "/w/none.txt"),
        other => panic!("expected a could-not-open failure, got {:?}", other),
    }
}

#[test]
fn test_content_invalid_text_fails() {
    let mut fs = FileStore::new();
    let d = Document::at_path("/w/bin.dat", "b", Create::OnlyIfNotExists, &mut fs).unwrap();
    d.append(&[0xff, 0xfe], &mut fs).unwrap();
    match d.content(&fs) {
        Err(DocumentError::CouldNotOpenFile(p)) => assert_eq!(p, "/w/bin.dat"),
        other => panic!("expected a could-not-open failure, got {:?}", other),
    }
}

#[test]
fn test_document_accessors() {
    let mut fs = FileStore::new();
    let d = Document::at_path("/a/b/pic.png", "shot", Create::OnlyIfNotExists, &mut fs).unwrap();
    assert_eq!(d.alias().as_str(), "shot");
    assert_eq!(d.path(), "/a/b/pic.png");
    assert_eq!(d.name(), "pic.png");
    assert_eq!(d.extension(), "png");
    assert_eq!(d.create_policy(), Create::OnlyIfNotExists);
    let bare = Document::from_parts("n".to_string(), "noext".to_string(), Create::No);
    assert_eq!(bare.extension(), "");
    assert_eq!(bare.name(), "noext");
}

#[test]
fn test_mode_capabilities() {
    assert!(Mode::Read.readable());
    assert!(!Mode::Read.writable());
    assert!(!Mode::Read.appendable());
    assert!(!Mode::Replace.readable());
    assert!(Mode::Replace.writable());
    assert!(!Mode::Replace.appendable());
    assert!(!Mode::Append.readable());
    assert!(Mode::Append.writable());
    assert!(Mode::Append.appendable());
    assert!(Mode::ReadReplace.readable());
    assert!(Mode::ReadReplace.writable());
    assert!(!Mode::ReadReplace.appendable());
    assert!(Mode::ReadAppend.readable());
    assert!(Mode::ReadAppend.writable());
    assert!(Mode::ReadAppend.appendable());
    assert!(Mode::Replace.truncates());
    assert!(Mode::ReadReplace.truncates());
    assert!(!Mode::Read.truncates());
    assert!(!Mode::Append.truncates());
    assert!(!Mode::ReadAppend.truncates());
}

#[test]
fn test_error_messages() {
    let cases: Vec<(DocumentError, &str)> = vec![
        (DocumentError::UserDirsNotFound, "User directories not found"),
        (DocumentError::PicturesDirNotFound, "Pictures directory not found"),
        (DocumentError::VideosDirNotFound, "Videos directory not found"),
        (DocumentError::DownloadsDirNotFound, "Downloads directory not found"),
        (DocumentError::DocumentsDirNotFound, "Documents directory not found"),
        (DocumentError::ProjectDirsNotFound, "Project directories not found"),
        (
            DocumentError::FileNotFound("/x".to_string()),
            "File not found: /x",
        ),
        (
            DocumentError::CouldNotCreateFile("/x".to_string()),
            "Could not create file: /x",
        ),
        (
            DocumentError::CouldNotCreateParentFolder("/x".to_string()),
            "Could not create parent folder: /x",
        ),
        (
            DocumentError::CouldNotLaunchFile("/x".to_string()),
            "Could not launch file with default app: /x",
        ),
        (
            DocumentError::CouldNotOpenFile("/x".to_string()),
            "Could not open file: /x",
        ),
        (
            DocumentError::FileNotWritable("/x".to_string()),
            "File not writable: /x",
        ),
        (
            DocumentError::FileNotOpen("/x".to_string()),
            "File not open: /x",
        ),
    ];
    for (e, want) in cases {
        assert_eq!(e.message(), want);
    }
}
