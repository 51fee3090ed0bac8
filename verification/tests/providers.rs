use orbital_files::parse_provider_file_name;
use orbital_files::provider_file_name;
use orbital_files::AuthToken;
use orbital_files::Provider;
use orbital_files::ProviderConfig;
use orbital_files::ProviderId;
use orbital_files::ProviderInstance;
use orbital_files::ProviderType;
use orbital_files::ProvidersMap;
use orbital_files::ProvidersOptions;
use orbital_files::S3Credentials;
use orbital_files::TokenStorageStrategy;

fn no_keys() -> ProvidersOptions {
    ProvidersOptions { google_api_key: None, onedrive_api_key: None }
}

fn pid(id: &str, t: ProviderType) -> ProviderId {
    ProviderId { id: id.to_string(), provider_type: t }
}

fn creds() -> S3Credentials {
    S3Credentials {
        region: String::new(),
        endpoint: "http://localhost:9000".to_string(),
        access_key: "admin".to_string(),
        secret_key: "password".to_string(),
    }
}

#[test]
fn registry_add_get_and_duplicate() {
    let mut reg = ProvidersMap::new(no_keys());
    let id = pid("disk", ProviderType::NativeFs);
    reg.add_native_fs(id.clone(), "./sandbox/".to_string()).unwrap();
    let inst = reg.get_provider(id.clone()).unwrap();
    assert!(matches!(inst, ProviderInstance::NativeFs(n) if n.root == "./sandbox/"));
    assert!(reg.add_native_fs(id.clone(), "elsewhere".to_string()).is_err());
    let listed = reg.list_providers();
    assert_eq!(listed.len(), 1);
    assert_eq!(listed[0], id);
}

#[test]
fn registry_unknown_provider_reports_not_found() {
    let reg = ProvidersMap::new(no_keys());
    let err = match reg.get_provider(pid("nope", ProviderType::S3)) {
        Err(e) => e,
        Ok(_) => panic!("expected an unknown provider"),
    };
    assert_eq!(err, "Provider not found");
}

#[test]
fn registry_same_id_different_types_do_not_collide() {
    let mut reg = ProvidersMap::new(no_keys());
    reg.add_native_fs(pid("x", ProviderType::NativeFs), "/".to_string()).unwrap();
    reg.add_s3(pid("x", ProviderType::S3), "bucket".to_string(), creds()).unwrap();
    assert!(reg.get_provider(pid("x", ProviderType::NativeFs)).is_ok());
    assert!(reg.get_provider(pid("x", ProviderType::S3)).is_ok());
    assert_eq!(reg.list_providers().len(), 2);
}

#[test]
fn registry_cloud_adapters_need_their_api_key() {
    let mut reg = ProvidersMap::new(no_keys());
    assert!(reg
        .add_google_drive(pid("g", ProviderType::GoogleDrive), TokenStorageStrategy::new())
        .is_err());
    assert!(reg
        .add_onedrive(pid("o", ProviderType::OneDrive), None)
        .is_err());
    let keys = ProvidersOptions {
        google_api_key: Some("google-client-key".to_string()),
        onedrive_api_key: Some("onedrive-client-key".to_string()),
    };
    let mut reg = ProvidersMap::new(keys);
    reg.add_google_drive(pid("g", ProviderType::GoogleDrive), TokenStorageStrategy::new())
        .unwrap();
    reg.add_onedrive(
        pid("o", ProviderType::OneDrive),
        Some(AuthToken { access_token: "a".to_string(), refresh_token: None }),
    )
    .unwrap();
    assert!(reg.get_provider(pid("g", ProviderType::GoogleDrive)).is_ok());
    assert!(reg.get_provider(pid("o", ProviderType::OneDrive)).is_ok());
}

#[test]
fn registry_add_provider_rejects_mismatched_config() {
    let mut reg = ProvidersMap::new(no_keys());
    let outcome = reg.add_provider(
        pid("disk", ProviderType::NativeFs),
        ProviderConfig::S3 { bucket: "b".to_string(), credentials: creds() },
    );
    assert!(outcome.is_err());
    assert!(reg.get_provider(pid("disk", ProviderType::NativeFs)).is_err());
}

#[test]
fn provider_file_name_round_trips() {
    let id = pid("work", ProviderType::S3);
    let name = provider_file_name(&id);
    assert_eq!(name, "work.S3");
    assert_eq!(parse_provider_file_name(&name), Some(id));

    let dotted = pid("my.files", ProviderType::NativeFs);
    let name = provider_file_name(&dotted);
    assert_eq!(name, "my.files.NativeFs");
    assert_eq!(parse_provider_file_name(&name), Some(dotted));

    assert_eq!(parse_provider_file_name("nodot"), None);
    assert_eq!(parse_provider_file_name("x.NotAProvider"), None);
}

#[test]
fn provider_type_parses_configuration_names() {
    assert_eq!(ProviderType::from_str("googledrive"), Ok(ProviderType::GoogleDrive));
    assert_eq!(ProviderType::from_str("onedrive"), Ok(ProviderType::OneDrive));
    assert_eq!(ProviderType::from_str("s3"), Ok(ProviderType::S3));
    assert_eq!(ProviderType::from_str("nativefs"), Ok(ProviderType::NativeFs));
    assert_eq!(ProviderType::from_str("bogus"), Err(()));
    assert_eq!(ProviderType::GoogleDrive.name_string(), "GoogleDrive");
    assert_eq!(ProviderType::OneDrive.name_string(), "OneDrive");
    assert_eq!(ProviderType::S3.name_string(), "S3");
    assert_eq!(ProviderType::NativeFs.name_string(), "NativeFs");
}

#[test]
fn registry_persistence_round_trip() {
    let mut reg = ProvidersMap::new(no_keys());
    let id = pid("archive", ProviderType::S3);
    reg.add_s3(id.clone(), "bucket".to_string(), creds()).unwrap();

    // What add persisted: the file name and the configuration blob.
    let record = (
        provider_file_name(&id),
        ProviderConfig::S3 { bucket: "bucket".to_string(), credentials: creds() },
    );

    // A process restart rebuilds the registry from the persisted records.
    let reloaded = ProvidersMap::load_records(no_keys(), vec![record]);
    let inst = reloaded.get_provider(id.clone()).unwrap();
    assert!(matches!(inst, ProviderInstance::S3(s) if s.bucket == "bucket"));
    assert!(inst.as_filesystem().is_some());
    assert!(inst.as_trash().is_none());

    // Removing the provider deletes its record; a rebuild without it
    // reaches nothing under the id.
    reg.remove_provider(&id).unwrap();
    assert!(reg.get_provider(id.clone()).is_err());
    let reloaded = ProvidersMap::load_records(no_keys(), vec![]);
    let err = match reloaded.get_provider(id) {
        Err(e) => e,
        Ok(_) => panic!("expected the provider to be gone"),
    };
    assert_eq!(err, "Provider not found");
}

#[test]
fn registry_reload_skips_broken_records_and_keeps_first() {
    let records = vec![
        ("garbled".to_string(), ProviderConfig::NativeFs { root: "/a".to_string() }),
        ("disk.NativeFs".to_string(), ProviderConfig::NativeFs { root: "/first".to_string() }),
        ("disk.NativeFs".to_string(), ProviderConfig::NativeFs { root: "/second".to_string() }),
        (
            "g.GoogleDrive".to_string(),
            ProviderConfig::GoogleDrive { tokens: TokenStorageStrategy::new() },
        ),
    ];
    let reloaded = ProvidersMap::load_records(no_keys(), records);
    let inst = reloaded
        .get_provider(pid("disk", ProviderType::NativeFs))
        .unwrap();
    assert!(matches!(inst, ProviderInstance::NativeFs(n) if n.root == "/first"));
    // No drive API key is configured, so the drive record is refused.
    assert!(reloaded
        .get_provider(pid("g", ProviderType::GoogleDrive))
        .is_err());
    assert_eq!(reloaded.list_providers().len(), 1);
}

#[test]
fn provider_instances_advertise_their_capabilities() {
    let native = ProviderInstance::NativeFs(orbital_files::NativeFs::new("/".to_string()));
    assert!(native.as_filesystem().is_some());
    assert!(native.as_trash().is_some());
    let s3 = ProviderInstance::S3(orbital_files::S3::new("b".to_string(), creds()));
    assert!(s3.as_filesystem().is_some());
    assert!(s3.as_trash().is_none());
}

#[test]
fn providers_options_default_has_no_keys() {
    let options = ProvidersOptions::default();
    assert!(options.google_api_key.is_none());
    assert!(options.onedrive_api_key.is_none());
}

#[test]
fn removing_an_unknown_provider_reports_provider_not_found() {
    let mut reg = ProvidersMap::new(no_keys());
    let outcome = reg.remove_provider(&pid("ghost", ProviderType::S3));
    assert_eq!(outcome, Err(orbital_files::FsError::ProviderNotFound));
}
