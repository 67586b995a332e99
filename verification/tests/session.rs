use documents::create::Create;
use documents::document::{alias, Document};
use documents::document_error::DocumentError;
use documents::document_map::DocumentMap;
use documents::into_result::IntoResult;
use documents::resolve::FileStore;

#[test]
fn test_session_fail_fast() {
    // The second of three entries fails: the map is never built, and the
    // reported error is exactly that failure.
    let mut fs = FileStore::new();
    let a = Document::at_path("/s/a.txt", "a", Create::OnlyIfNotExists, &mut fs);
    let b = Document::at_path("/s/b.txt", "b", Create::No, &mut fs);
    let c = Document::at_path("/s/c.txt", "c", Create::OnlyIfNotExists, &mut fs);
    assert!(a.is_ok());
    assert!(b.is_err());
    assert!(c.is_ok());
    match DocumentMap::build(vec![a, b, c]) {
        Err(DocumentError::FileNotFound(p)) => assert_eq!(p, "/s/b.txt"),
        other => panic!("expected the second entry's failure, got {:?}", other),
    }
}

#[test]
fn test_session_sentinel_alias_untracked() {
    // A document aliased "_" is constructed on the store but left out of
    // the session map.
    let mut fs = FileStore::new();
    let kept = Document::at_path("/s/keep.txt", "keep", Create::OnlyIfNotExists, &mut fs);
    let skipped = alias(
        Document::at_path("/s/skip.txt", "skip", Create::OnlyIfNotExists, &mut fs),
        "_",
    );
    assert!(skipped.is_ok());
    assert_eq!(fs.file_count(), 2);
    let map = DocumentMap::build(vec![kept, skipped]).unwrap();
    assert_eq!(map.len(), 1);
    assert!(map.get("keep").is_some());
    assert!(map.get("_").is_none());
}

#[test]
fn test_session_lookup_and_last_wins() {
    let mut fs = FileStore::new();
    let one = Document::at_path("/s/one.txt", "x", Create::OnlyIfNotExists, &mut fs);
    let two = Document::at_path("/s/two.txt", "x", Create::OnlyIfNotExists, &mut fs);
    let three = Document::at_path("/s/three.txt", "y", Create::OnlyIfNotExists, &mut fs);
    let map = DocumentMap::build(vec![one, two, three]).unwrap();
    assert_eq!(map.len(), 2);
    assert_eq!(map.get("x").unwrap().path(), "/s/two.txt");
    assert_eq!(map.get("y").unwrap().path(), "/s/three.txt");
    assert!(map.get("z").is_none());
    assert_eq!(map.documents().len(), 2);
}

#[test]
fn test_alias_override() {
    let mut fs = FileStore::new();
    let r = alias(
        Document::at_path("/s/thumbnail.png", "thumbnail.png", Create::OnlyIfNotExists, &mut fs),
        "pic",
    );
    assert_eq!(r.unwrap().alias().as_str(), "pic");
    let failed: Result<Document, DocumentError> = Err(DocumentError::UserDirsNotFound);
    assert_eq!(alias(failed, "pic"), Err(DocumentError::UserDirsNotFound));
}

#[test]
fn test_into_result_normalization() {
    assert!(().into_result().is_ok());
    assert!(Some(5i32).into_result().is_ok());
    assert_eq!(
        None::<i32>.into_result(),
        Err("NoneError: expected Some(...), got None.".to_string())
    );
    let ok: Result<i32, DocumentError> = Ok(3);
    assert!(ok.into_result().is_ok());
    let err: Result<i32, DocumentError> = Err(DocumentError::FileNotFound("/x".to_string()));
    assert_eq!(err.into_result(), Err("File not found: /x".to_string()));
}
