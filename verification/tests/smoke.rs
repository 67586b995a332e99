use documents::create::Create;
use documents::document::{alias, Document};
use documents::document_map::DocumentMap;
use documents::folder::{Folder, Project, User};
use documents::into_result::IntoResult;
use documents::resolve::FileStore;

/// A session built from folder roles, as a caller would write it.  Role
/// resolution depends on the machine, so this exercises the pipeline and
/// prints what happened rather than asserting an environment.
#[test]
fn test1() {
    let mut fs = FileStore::new();
    let results = vec![
        Document::at(
            &Folder::User(User::Pictures(vec![])),
            "1.png",
            Create::No,
            &mut fs,
        ),
        Document::at(
            &Folder::User(User::Pictures(vec![])),
            "42-44.png",
            Create::No,
            &mut fs,
        ),
        alias(
            Document::at(
                &Folder::User(User::Pictures(vec!["Movie Trailer".to_string()])),
                "thumbnail.png",
                Create::No,
                &mut fs,
            ),
            "pic",
        ),
        Document::at(
            &Folder::User(User::Downloads(vec![])),
            "file.txt",
            Create::No,
            &mut fs,
        ),
    ];
    match DocumentMap::build(results) {
        Ok(d) => {
            for doc in d.documents() {
                println!("{}: {:?}", doc.alias(), doc);
            }
            if let Some(doc) = d.get("1.png") {
                println!("{}", doc.name());
            }
            if let Some(doc) = d.get("pic") {
                let _ = doc
                    .append(b"Something\nto be added", &mut fs)
                    .into_result();
            }
        }
        Err(error) => println!("{}", error.message()),
    }
}

/// Heterogeneous entities side by side: a document construction, two
/// folder roles and a bare path, each reporting whether it stands for
/// something that exists.
#[test]
fn test2() {
    let mut fs = FileStore::new();
    let doc = Document::at(
        &Folder::User(User::Pictures(vec!["".to_string()])),
        "pic",
        Create::No,
        &mut fs,
    );
    let doc_exists = match &doc {
        Ok(d) => fs.contains(&d.path()),
        Err(_) => false,
    };
    let pictures = Folder::User(User::Pictures(vec!["".to_string()]));
    let project = Folder::Project(
        Project::Data(vec![]).with_id("qualifier", "organization", "application"),
    );
    let bare = std::path::PathBuf::new();
    let entities: Vec<(String, bool)> = vec![
        (format!("{:?}", doc), doc_exists),
        (format!("{:?}", pictures), !pictures.path().is_empty()),
        (format!("{:?}", project), !project.path().is_empty()),
        (format!("{:?}", bare), false),
    ];
    for (b, e) in entities {
        println!("{:?} {} exist.", b, if e { "does" } else { "doesn't" });
    }
}
