use orbital_files::drive_children_query;
use orbital_files::file_from_drive;
use orbital_files::file_from_item;
use orbital_files::find_query_param;
use orbital_files::list_folder_entries;
use orbital_files::metadata_from_item_url;
use orbital_files::parse_rfc3339_seconds;
use orbital_files::redirect_code_and_state;
use orbital_files::redirect_response;
use orbital_files::rename_keys;
use orbital_files::request_target_of;
use orbital_files::settle_copy_then_delete;
use orbital_files::upload_content_url;
use orbital_files::use_root_location;
use orbital_files::AuthToken;
use orbital_files::DriveItemRaw;
use orbital_files::GoogleDrive;
use orbital_files::OneDrive;
use orbital_files::TokenStorageStrategy;
use orbital_files::DriveRawFile;
use orbital_files::FileType;
use orbital_files::FsError;
use orbital_files::NativeFs;
use orbital_files::ObjectId;
use orbital_files::RawDirEntry;
use orbital_files::RawMetadata;
use orbital_files::RawObject;

fn raw_meta(is_dir: bool, size: u64) -> RawMetadata {
    RawMetadata {
        is_dir,
        is_symlink: false,
        uid: 1000,
        gid: 100,
        mode: 0o644,
        size,
        created: Some(100),
        modified: Some(200),
        meta_changed: Some(300),
        accessed: Some(400),
    }
}

#[test]
fn redirect_request_line_yields_code_and_state() {
    let line = "GET /redirect?code=abc123&state=st-42 HTTP/1.1";
    let (code, state) = redirect_code_and_state(line).unwrap();
    assert_eq!(code, "abc123");
    assert_eq!(state, "st-42");
}

#[test]
fn redirect_request_line_without_both_params_is_refused() {
    assert!(redirect_code_and_state("GET /redirect?code=abc HTTP/1.1").is_none());
    assert!(redirect_code_and_state("GET /redirect?state=s HTTP/1.1").is_none());
    assert!(redirect_code_and_state("GET /redirect HTTP/1.1").is_none());
    assert!(redirect_code_and_state("garbage-without-spaces").is_none());
}

#[test]
fn request_target_is_the_second_field() {
    assert_eq!(
        request_target_of("GET /a/b?x=1 HTTP/1.1"),
        Some("/a/b?x=1".to_string())
    );
    assert_eq!(request_target_of("GET /plain"), Some("/plain".to_string()));
    assert_eq!(request_target_of("nospace"), None);
}

#[test]
fn query_params_find_first_match() {
    assert_eq!(
        find_query_param("a=1&b=2&a=3", "a"),
        Some("1".to_string())
    );
    assert_eq!(find_query_param("a=1&b=2", "b"), Some("2".to_string()));
    assert_eq!(find_query_param("a=1&b=2", "c"), None);
    assert_eq!(find_query_param("flag&b=2", "flag"), Some(String::new()));
    assert_eq!(find_query_param("k=", "k"), Some(String::new()));
}

#[test]
fn redirect_response_counts_the_message_bytes() {
    let message = "Go back to your terminal :)";
    assert_eq!(
        redirect_response(message),
        "HTTP/1.1 200 OK\r\ncontent-length: 27\r\n\r\nGo back to your terminal :)"
    );
}

#[test]
fn rfc3339_parsing_yields_epoch_seconds() {
    assert_eq!(parse_rfc3339_seconds("1970-01-01T00:00:10Z"), Some(10));
    assert_eq!(parse_rfc3339_seconds("2020-01-01T00:00:00Z"), Some(1577836800));
    assert_eq!(parse_rfc3339_seconds("2020-01-01T01:00:00+01:00"), Some(1577836800));
    assert_eq!(parse_rfc3339_seconds("not a date"), None);
    assert_eq!(parse_rfc3339_seconds(""), None);
}

#[test]
fn drive_file_normalization_tells_folders_apart() {
    let folder = DriveRawFile {
        id: Some("id-1".to_string()),
        name: Some("Docs".to_string()),
        mime_type: Some("application/vnd.google-apps.folder".to_string()),
        created_time: Some(5),
        modified_time: Some(6),
        size: None,
    };
    let f = file_from_drive(folder).unwrap();
    assert_eq!(f.id.as_str(), "id-1");
    assert_eq!(f.id.file_type(), FileType::Directory);
    assert_eq!(f.name, "Docs");
    let md = f.metadata.unwrap();
    assert_eq!(md.created_at, Some(5));
    assert_eq!(md.modified_at, Some(6));
    assert_eq!(md.size, Some(0));

    let plain = DriveRawFile {
        id: Some("id-2".to_string()),
        name: Some("a.txt".to_string()),
        mime_type: Some("text/plain".to_string()),
        created_time: None,
        modified_time: None,
        size: Some(-12),
    };
    let f = file_from_drive(plain).unwrap();
    assert_eq!(f.id.file_type(), FileType::File);
    assert_eq!(f.metadata.unwrap().size, Some(12));

    let broken = DriveRawFile {
        id: None,
        name: Some("x".to_string()),
        mime_type: None,
        created_time: None,
        modified_time: None,
        size: None,
    };
    assert_eq!(file_from_drive(broken).unwrap_err(), FsError::Transport);
}

#[test]
fn drive_children_query_names_the_collection() {
    assert_eq!(
        drive_children_query(&ObjectId::directory(String::new())),
        "'root' in parents"
    );
    assert_eq!(
        drive_children_query(&ObjectId::directory("abc".to_string())),
        "'abc' in parents"
    );
}

#[test]
fn drive_item_normalization_parses_timestamps() {
    let item = DriveItemRaw {
        id: Some("it-1".to_string()),
        name: Some("report".to_string()),
        is_folder: true,
        created: Some("1970-01-01T00:01:00Z".to_string()),
        modified: Some("broken".to_string()),
        size: Some(77),
    };
    let f = file_from_item(item).unwrap();
    assert_eq!(f.id.as_str(), "it-1");
    assert_eq!(f.id.file_type(), FileType::Directory);
    let md = f.metadata.unwrap();
    assert_eq!(md.mime_type, Some("directory".to_string()));
    assert_eq!(md.created_at, Some(60));
    assert_eq!(md.modified_at, None);
    assert_eq!(md.size, Some(77));

    let broken = DriveItemRaw {
        id: Some("x".to_string()),
        name: None,
        is_folder: false,
        created: None,
        modified: None,
        size: None,
    };
    assert_eq!(file_from_item(broken).unwrap_err(), FsError::Transport);
}

#[test]
fn drive_item_locations_and_upload_url() {
    assert!(use_root_location(&ObjectId::root()));
    assert!(!use_root_location(&ObjectId::plain_text("x".to_string())));
    assert_eq!(
        upload_content_url(&ObjectId::directory("P9!120".to_string()), "hello.txt"),
        "https://graph.microsoft.com/v1.0/me/drive/items/P9!120:/hello.txt:/content"
    );
    let md = metadata_from_item_url(Some("https://example.test/view".to_string()));
    assert_eq!(md.open_path, Some("https://example.test/view".to_string()));
    assert!(md.size.is_none());
}

#[test]
fn bucket_rename_keys_strip_leading_slashes() {
    let (src, dst) = rename_keys(
        &ObjectId::plain_text("/test.txt".to_string()),
        "/test_renamed.txt",
    );
    assert_eq!(src, "test.txt");
    assert_eq!(dst, "test_renamed.txt");
    let (src, dst) = rename_keys(&ObjectId::plain_text("a/b.txt".to_string()), "c.txt");
    assert_eq!(src, "a/b.txt");
    assert_eq!(dst, "a/c.txt");
}

#[test]
fn copy_then_delete_settlement_never_hides_a_failure() {
    let id = ObjectId::plain_text("k".to_string());
    assert_eq!(settle_copy_then_delete(true, true, id.clone()), Ok(id.clone()));
    assert_eq!(
        settle_copy_then_delete(false, true, id.clone()),
        Err(FsError::Transport)
    );
    assert_eq!(settle_copy_then_delete(true, false, id), Err(FsError::Conflict));
}

#[test]
fn bucket_listing_synthesizes_directories() {
    let objects = vec![
        RawObject {
            key: "hello-world.txt".to_string(),
            last_modified: "2020-01-01T00:00:00Z".to_string(),
            size: 12,
        },
        RawObject {
            key: "level1/level1_file.txt".to_string(),
            last_modified: "2020-01-02T00:00:00Z".to_string(),
            size: 3,
        },
        RawObject {
            key: "level1/level2/deep.txt".to_string(),
            last_modified: "2020-01-03T00:00:00Z".to_string(),
            size: 4,
        },
    ];
    let listing = list_folder_entries(&objects, &ObjectId::directory("/".to_string())).unwrap();
    assert_eq!(listing.len(), 2);
    let file = listing.iter().find(|f| f.name == "hello-world.txt").unwrap();
    assert_eq!(file.metadata.as_ref().unwrap().mime_type, Some("file".to_string()));
    assert_eq!(file.metadata.as_ref().unwrap().size, Some(12));
    assert_eq!(file.metadata.as_ref().unwrap().modified_at, Some(1577836800));
    let dir = listing.iter().find(|f| f.name == "level1").unwrap();
    assert_eq!(dir.metadata.as_ref().unwrap().mime_type, Some("directory".to_string()));

    let listing =
        list_folder_entries(&objects, &ObjectId::directory("/level1/".to_string())).unwrap();
    assert_eq!(listing.len(), 2);
    assert!(listing.iter().any(|f| f.name == "level1_file.txt"));
    assert!(listing.iter().any(|f| f.name == "level2"
        && f.id.file_type() == FileType::Directory));

    let err = list_folder_entries(&objects, &ObjectId::plain_text("x".to_string())).unwrap_err();
    assert_eq!(err, FsError::NotADirectory);
}

#[test]
fn bucket_listing_deduplicates_shared_prefixes() {
    let objects = vec![
        RawObject {
            key: "a/x.txt".to_string(),
            last_modified: "2020-01-01T00:00:00Z".to_string(),
            size: 1,
        },
        RawObject {
            key: "a/b/y.txt".to_string(),
            last_modified: "2020-01-01T00:00:00Z".to_string(),
            size: 1,
        },
        RawObject {
            key: "a/b/z.txt".to_string(),
            last_modified: "2020-01-01T00:00:00Z".to_string(),
            size: 1,
        },
    ];
    let listing = list_folder_entries(&objects, &ObjectId::directory("a".to_string())).unwrap();
    assert_eq!(listing.len(), 2);
    assert!(listing.iter().any(|f| f.name == "x.txt" && f.id.file_type() == FileType::File));
    assert!(listing.iter().any(|f| f.name == "b" && f.id.file_type() == FileType::Directory));
}

#[test]
fn native_fs_paths_follow_the_configured_root() {
    let fs = NativeFs::new("./sandbox/".to_string());
    assert_eq!(fs.root, "./sandbox/");
    assert_eq!(
        fs.full_path(&ObjectId::plain_text("hello-world.txt".to_string())),
        "./sandbox/hello-world.txt"
    );

    let (from, to, new_id) = fs.rename_paths(
        &ObjectId::plain_text("dir/old.txt".to_string()),
        "new.txt",
    );
    assert_eq!(from, "./sandbox/dir/old.txt");
    assert_eq!(to, "./sandbox/dir/new.txt");
    assert_eq!(new_id.as_str(), "dir/new.txt");
    assert_eq!(new_id.file_type(), FileType::File);

    let (from, to, new_id) = fs.move_paths(
        &ObjectId::plain_text("dir/f.txt".to_string()),
        &ObjectId::directory("other".to_string()),
    );
    assert_eq!(from, "./sandbox/dir/f.txt");
    assert_eq!(to, "./sandbox/other/f.txt");
    assert_eq!(new_id.as_str(), "other/f.txt");

    let (link_path, link_id) = fs.link_paths(&ObjectId::root(), "shortcut");
    assert_eq!(link_path, "./sandbox/shortcut");
    assert_eq!(link_id.as_str(), "shortcut");
    assert_eq!(link_id.file_type(), FileType::Symlink);
}

#[test]
fn native_fs_create_plan_reads_the_directory_hint() {
    let fs = NativeFs::new("/root-dir/".to_string());
    let mut md = orbital_files::Metadata::unknown();
    md.mime_type = Some("directory".to_string());
    let dir_descriptor = orbital_files::File {
        id: ObjectId::new(String::new(), FileType::File),
        name: "sub".to_string(),
        metadata: Some(md),
    };
    let (is_dir, path) = fs.create_plan(&ObjectId::directory("a".to_string()), &dir_descriptor);
    assert!(is_dir);
    assert_eq!(path, "/root-dir/a/sub");

    let file_descriptor = orbital_files::File {
        id: ObjectId::new(String::new(), FileType::File),
        name: "f.txt".to_string(),
        metadata: None,
    };
    let (is_dir, path) = fs.create_plan(&ObjectId::root(), &file_descriptor);
    assert!(!is_dir);
    assert_eq!(path, "/root-dir/f.txt");
}

#[test]
fn native_fs_normalizes_reported_metadata() {
    let fs = NativeFs::new("/base/".to_string());
    let md = fs.metadata_from_raw(&ObjectId::plain_text("f".to_string()), &raw_meta(false, 42));
    assert_eq!(md.open_path, Some("/base/f".to_string()));
    assert_eq!(md.size, Some(42));
    assert_eq!(md.created_at, Some(100));
    assert_eq!(md.modified_at, Some(200));
    assert_eq!(md.meta_changed_at, Some(300));
    assert_eq!(md.accessed_at, Some(400));
    assert_eq!(
        md.owner,
        Some(orbital_files::User {
            id: orbital_files::UserId::UserAndGroup(1000, 100),
            name: None
        })
    );
    assert_eq!(md.permissions, Some(orbital_files::Permissions::Unix(0o644)));

    let entries = vec![
        RawDirEntry {
            full_path: "/base/hello-world.txt".to_string(),
            name: "hello-world.txt".to_string(),
            meta: raw_meta(false, 12),
        },
        RawDirEntry {
            full_path: "/base/docs".to_string(),
            name: "docs".to_string(),
            meta: raw_meta(true, 0),
        },
    ];
    let files = fs.files_from_entries(&entries);
    assert_eq!(files.len(), 2);
    assert_eq!(files[0].name, "hello-world.txt");
    assert_eq!(files[0].id.as_str(), "hello-world.txt");
    assert_eq!(files[0].id.file_type(), FileType::File);
    assert_eq!(files[0].metadata.as_ref().unwrap().size, Some(12));
    assert_eq!(files[1].id.as_str(), "docs");
    assert_eq!(files[1].id.file_type(), FileType::Directory);
}

#[test]
fn scope_keyed_tokens_are_shadowed_by_later_stores() {
    let mut tokens = TokenStorageStrategy::new();
    let scopes = vec!["files.read".to_string(), "files.write".to_string()];
    assert_eq!(tokens.get(&scopes), None);
    tokens.set(
        &scopes,
        AuthToken { access_token: "t1".to_string(), refresh_token: None },
    );
    tokens.set(
        &scopes,
        AuthToken { access_token: "t2".to_string(), refresh_token: Some("r".to_string()) },
    );
    let held = tokens.get(&scopes).unwrap();
    assert_eq!(held.access_token, "t2");
    let other = vec!["files.read".to_string()];
    assert_eq!(tokens.get(&other), None);
    assert_eq!(tokens.entries().len(), 2);
    assert_eq!(tokens.entries()[0].scopes_key, "files.read _ files.write");
}

#[test]
fn google_drive_instance_holds_its_configuration() {
    let mut drive = GoogleDrive::new("client-secret-blob".to_string(), TokenStorageStrategy::new());
    let scopes = vec!["files.read".to_string()];
    drive.store_token(
        &scopes,
        AuthToken { access_token: "t".to_string(), refresh_token: None },
    );
    assert_eq!(drive.lookup_token(&scopes).unwrap().access_token, "t");
    assert_eq!(drive.tokens_map().entries().len(), 1);
}

#[test]
fn onedrive_instance_holds_its_token_snapshot() {
    let mut drive = OneDrive::new(None, "client-id".to_string());
    assert_eq!(drive.client_id(), "client-id");
    assert_eq!(drive.get_token(), None);
    drive.set_token(Some(AuthToken {
        access_token: "a".to_string(),
        refresh_token: Some("r".to_string()),
    }));
    assert_eq!(drive.get_token().unwrap().access_token, "a");
    let outcome = drive.apply_refresh(None);
    assert_eq!(outcome, Err(FsError::AuthRequired));
    assert_eq!(drive.get_token(), None);
}
