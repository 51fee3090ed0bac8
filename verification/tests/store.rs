use orbital_files::FileType;
use orbital_files::FsError;
use orbital_files::File;
use orbital_files::Metadata;
use orbital_files::ObjectId;
use orbital_files::ObjectStore;
use orbital_files::Provider;
use orbital_files::Trash;

fn file_descriptor(name: &str, mime: Option<&str>, ty: FileType) -> File {
    let mut md = Metadata::unknown();
    md.mime_type = mime.map(|m| m.to_string());
    File {
        id: ObjectId::new(String::new(), ty),
        name: name.to_string(),
        metadata: Some(md),
    }
}

#[test]
fn store_round_trip_create_write_read() {
    let mut store = ObjectStore::new();
    store
        .create(ObjectId::root(), file_descriptor("f.txt", None, FileType::File))
        .unwrap();
    let id = ObjectId::plain_text("f.txt".to_string());
    store.write_file(id.clone(), b"first".to_vec()).unwrap();
    store.write_file(id.clone(), b"hello world!".to_vec()).unwrap();
    let read = store.read_file(id).unwrap();
    assert_eq!(read, b"hello world!".to_vec());
}

#[test]
fn store_create_then_listing_contains_entry() {
    let mut store = ObjectStore::new();
    store
        .create(ObjectId::root(), file_descriptor("a.txt", None, FileType::File))
        .unwrap();
    let listing = store.read_directory(ObjectId::root()).unwrap();
    assert_eq!(listing.len(), 1);
    assert_eq!(listing[0].name, "a.txt");
    let md = store.get_metadata(listing[0].id.clone()).unwrap();
    assert_eq!(md.size, Some(0));
}

#[test]
fn store_create_directory_then_metadata_resolves() {
    let mut store = ObjectStore::new();
    store
        .create(
            ObjectId::root(),
            file_descriptor("docs", Some("directory"), FileType::File),
        )
        .unwrap();
    let listing = store.read_directory(ObjectId::root()).unwrap();
    assert_eq!(listing.len(), 1);
    assert_eq!(listing[0].name, "docs");
    assert_eq!(listing[0].id.file_type(), FileType::Directory);
    let md = store.get_metadata(ObjectId::directory("docs".to_string())).unwrap();
    assert_eq!(md.mime_type, Some("directory".to_string()));
}

#[test]
fn store_pseudo_directory_listing_deduplicates() {
    let mut store = ObjectStore::new();
    store
        .write_file(ObjectId::plain_text("a/x.txt".to_string()), b"x".to_vec())
        .unwrap();
    store
        .write_file(ObjectId::plain_text("a/b/y.txt".to_string()), b"y".to_vec())
        .unwrap();
    store
        .write_file(ObjectId::plain_text("a/b/z.txt".to_string()), b"z".to_vec())
        .unwrap();
    let listing = store
        .read_directory(ObjectId::directory("a".to_string()))
        .unwrap();
    assert_eq!(listing.len(), 2);
    let file = listing.iter().find(|f| f.name == "x.txt").unwrap();
    assert_eq!(file.id.file_type(), FileType::File);
    assert_eq!(file.metadata.as_ref().unwrap().mime_type, Some("file".to_string()));
    assert_eq!(file.metadata.as_ref().unwrap().size, Some(1));
    let dir = listing.iter().find(|f| f.name == "b").unwrap();
    assert_eq!(dir.id.file_type(), FileType::Directory);
    assert_eq!(dir.metadata.as_ref().unwrap().mime_type, Some("directory".to_string()));
}

#[test]
fn store_rename_and_rename_back_restores_object() {
    let mut store = ObjectStore::new();
    let original = ObjectId::plain_text("dir/test.txt".to_string());
    store.write_file(original.clone(), b"Lorem ipsum\n".to_vec()).unwrap();
    let renamed = store
        .rename(original.clone(), "test_renamed.txt".to_string())
        .unwrap();
    assert_eq!(renamed.as_str(), "dir/test_renamed.txt");
    assert_eq!(
        store.read_file(renamed.clone()).unwrap(),
        b"Lorem ipsum\n".to_vec()
    );
    assert!(matches!(store.read_file(original.clone()), Err(FsError::NotFound)));
    let back = store.rename(renamed, "test.txt".to_string()).unwrap();
    assert_eq!(back.as_str(), "dir/test.txt");
    assert_eq!(store.read_file(back).unwrap(), b"Lorem ipsum\n".to_vec());
}

#[test]
fn store_move_to_keeps_name_under_new_parent() {
    let mut store = ObjectStore::new();
    let id = ObjectId::plain_text("a/f.txt".to_string());
    store.write_file(id.clone(), b"data".to_vec()).unwrap();
    let moved = store
        .move_to(id, ObjectId::directory("b".to_string()))
        .unwrap();
    assert_eq!(moved.as_str(), "b/f.txt");
    assert_eq!(store.read_file(moved).unwrap(), b"data".to_vec());
}

#[test]
fn store_delete_file_then_not_found() {
    let mut store = ObjectStore::new();
    let id = ObjectId::plain_text("f".to_string());
    store.write_file(id.clone(), b"x".to_vec()).unwrap();
    store.delete(id.clone()).unwrap();
    assert!(matches!(store.read_file(id.clone()), Err(FsError::NotFound)));
    assert!(matches!(store.delete(id), Err(FsError::NotFound)));
}

#[test]
fn store_delete_nonempty_directory_is_conflict() {
    let mut store = ObjectStore::new();
    store
        .create(
            ObjectId::root(),
            file_descriptor("d", Some("directory"), FileType::File),
        )
        .unwrap();
    store
        .create(
            ObjectId::directory("d".to_string()),
            file_descriptor("inner.txt", None, FileType::File),
        )
        .unwrap();
    let dir = ObjectId::directory("d".to_string());
    assert!(matches!(store.delete(dir.clone()), Err(FsError::Conflict)));
    store.delete(ObjectId::plain_text("d/inner.txt".to_string())).unwrap();
    store.delete(dir).unwrap();
}

#[test]
fn store_kind_mismatch_errors() {
    let mut store = ObjectStore::new();
    assert!(matches!(
        store.read_file(ObjectId::directory("d".to_string())),
        Err(FsError::NotAFile)
    ));
    assert!(matches!(
        store.write_file(ObjectId::directory("d".to_string()), vec![]),
        Err(FsError::NotAFile)
    ));
    assert!(matches!(
        store.read_directory(ObjectId::plain_text("f".to_string())),
        Err(FsError::NotADirectory)
    ));
    assert!(matches!(
        store.create(
            ObjectId::plain_text("f".to_string()),
            file_descriptor("x", None, FileType::File)
        ),
        Err(FsError::NotADirectory)
    ));
    assert!(matches!(
        store.create(ObjectId::root(), file_descriptor("", None, FileType::File)),
        Err(FsError::Conflict)
    ));
    assert!(matches!(
        store.create(
            ObjectId::root(),
            file_descriptor("a/b", None, FileType::File)
        ),
        Err(FsError::Conflict)
    ));
    assert!(matches!(
        store.rename(ObjectId::plain_text("f".to_string()), "x".to_string()),
        Err(FsError::NotFound)
    ));
    assert!(matches!(
        store.rename(ObjectId::directory("d".to_string()), "x".to_string()),
        Err(FsError::Unsupported)
    ));
    assert!(matches!(
        store.get_metadata(ObjectId::directory("nope".to_string())),
        Err(FsError::NotFound)
    ));
}

#[test]
fn store_trash_moves_object_out_of_live_keys() {
    let mut store = ObjectStore::new();
    let id = ObjectId::plain_text("junk.txt".to_string());
    store.write_file(id.clone(), b"old".to_vec()).unwrap();
    Trash::send_to_trash(&mut store, &id).unwrap();
    assert!(matches!(store.read_file(id.clone()), Err(FsError::NotFound)));
    assert!(matches!(
        Trash::send_to_trash(&mut store, &id),
        Err(FsError::NotFound)
    ));
    assert!(matches!(
        Trash::send_to_trash(&mut store, &ObjectId::directory("d".to_string())),
        Err(FsError::Unsupported)
    ));
}

#[test]
fn store_advertises_both_capabilities() {
    let store = ObjectStore::new();
    assert!(store.as_filesystem().is_some());
    assert!(store.as_trash().is_some());
}

#[test]
fn object_id_accessors() {
    let root = ObjectId::root();
    assert_eq!(root.as_str(), "");
    assert!(root.is_directory());
    assert_eq!(root.file_type(), FileType::Directory);
    let file = ObjectId::plain_text("a/b.txt".to_string());
    assert_eq!(file.as_str(), "a/b.txt");
    assert!(!file.is_directory());
    assert_eq!(file.file_type(), FileType::File);
    let dir = ObjectId::directory("a".to_string());
    assert!(dir.is_directory());
    let link = ObjectId::new("l".to_string(), FileType::Symlink);
    assert_eq!(link.file_type(), FileType::Symlink);
}

#[test]
fn store_empty_root_lists_nothing() {
    let store = ObjectStore::new();
    assert_eq!(store.read_directory(ObjectId::root()).unwrap().len(), 0);
    let md = store.get_metadata(ObjectId::root()).unwrap();
    assert_eq!(md.mime_type, Some("directory".to_string()));
}

#[test]
fn store_symlinks_are_unsupported() {
    let store = ObjectStore::new();
    assert!(matches!(
        store.read_link(ObjectId::new("l".to_string(), FileType::Symlink)),
        Err(FsError::Unsupported)
    ));
    assert!(matches!(
        store.create_link(
            ObjectId::root(),
            "l",
            ObjectId::plain_text("t".to_string())
        ),
        Err(FsError::Unsupported)
    ));
}
