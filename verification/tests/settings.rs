use clouddrive::config::{
    default_disable, Config, DirectoryConfig, FilesConfig, JwtConfig, SecurityConfig,
    ServerConfig, StorageConfig, UserConfig,
};
use clouddrive::listing::is_system_file;
use clouddrive::preview::{get_previewable_mime_type, is_excalidraw_file, is_mermaid_file};
use clouddrive::TransferError;

fn dir(id: &str, path: &str, disable: bool) -> DirectoryConfig {
    DirectoryConfig {
        id: String::from(id),
        name: format!("name of {}", id),
        description: String::new(),
        icon: String::from("folder"),
        storage_type: String::from("local"),
        path: Some(String::from(path)),
        config: None,
        disable,
    }
}

fn config_with(dirs: Vec<DirectoryConfig>) -> Config {
    Config {
        server: ServerConfig { host: String::from("127.0.0.1"), port: 8080 },
        user: UserConfig {
            username: String::from("admin"),
            password_hash: String::new(),
            email: String::from("admin@example.com"),
        },
        jwt: JwtConfig { secret_key: String::new(), expiration_hours: 24 },
        files: FilesConfig {
            max_file_size: 1024,
            allowed_extensions: vec![],
            blocked_extensions: vec![],
        },
        storage: Some(StorageConfig { directories: dirs }),
        security: SecurityConfig { allow_mkdir: true, allow_delete: true, allow_download: true },
    }
}

#[test]
fn disabled_directories_are_invisible() {
    let cfg = config_with(vec![
        dir("one", "/data/one", false),
        dir("two", "/data/two", true),
        dir("three", "/data/three", false),
    ]);
    let dirs = cfg.get_storage_directories();
    assert_eq!(dirs.len(), 2);
    assert_eq!(dirs[0].id, "one");
    assert_eq!(dirs[1].id, "three");

    let first = cfg.get_first_directory().unwrap();
    assert_eq!(first.id, "one");

    assert_eq!(cfg.get_directory_by_id("three").unwrap().path, Some(String::from("/data/three")));
    assert!(cfg.get_directory_by_id("two").is_none());
    assert!(cfg.get_directory_by_id("missing").is_none());
}

#[test]
fn a_config_without_storage_offers_no_directories() {
    let mut cfg = config_with(vec![]);
    cfg.storage = None;
    assert!(cfg.get_storage_directories().is_empty());
    assert!(cfg.get_first_directory().is_none());
    assert!(cfg.get_directory_by_id("any").is_none());
}

#[test]
fn directories_default_to_enabled() {
    assert!(!default_disable());
}

#[test]
fn previewable_mime_types_come_from_the_closed_table() {
    assert_eq!(get_previewable_mime_type("jpg"), Some("image/jpeg"));
    assert_eq!(get_previewable_mime_type("jpeg"), Some("image/jpeg"));
    assert_eq!(get_previewable_mime_type("pdf"), Some("application/pdf"));
    assert_eq!(get_previewable_mime_type("mp4"), Some("video/mp4"));
    assert_eq!(get_previewable_mime_type("md"), Some("text/markdown; charset=utf-8"));
    assert_eq!(get_previewable_mime_type("rs"), Some("text/x-rust; charset=utf-8"));
    assert_eq!(get_previewable_mime_type("hpp"), Some("text/x-c++; charset=utf-8"));
    // The table is keyed by the lower-case extension and is closed.
    assert_eq!(get_previewable_mime_type("JPG"), None);
    assert_eq!(get_previewable_mime_type("exe"), None);
    assert_eq!(get_previewable_mime_type(""), None);
}

#[test]
fn drawing_files_are_recognised_by_extension() {
    assert!(is_excalidraw_file("sketch.excalidraw"));
    assert!(is_excalidraw_file("Sketch.EXCALIDRAW"));
    assert!(is_excalidraw_file("dir/a.b.excalidraw"));
    assert!(!is_excalidraw_file(".excalidraw"));
    assert!(!is_excalidraw_file("dir/.excalidraw"));
    assert!(!is_excalidraw_file("sketch.excalidraws"));
    assert!(!is_excalidraw_file("sketch.mermaid"));

    assert!(is_mermaid_file("flow.mermaid"));
    assert!(is_mermaid_file("flow.MerMaid"));
    assert!(!is_mermaid_file("flow.mmd"));
}

#[test]
fn system_files_are_filtered_by_exact_name() {
    assert!(is_system_file(".DS_Store"));
    assert!(is_system_file(".chunks"));
    assert!(is_system_file("node_modules"));
    assert!(!is_system_file("notes.txt"));
    assert!(!is_system_file(".DS_Store2"));
    assert!(!is_system_file("chunks"));
}

#[test]
fn errors_describe_themselves() {
    assert_eq!(TransferError::PathViolation.message(), "path escapes its storage root");
    assert_eq!(TransferError::NotFound.message(), "not found");
    assert_eq!(TransferError::InvalidArgument.message(), "invalid argument");
    assert_eq!(TransferError::Incomplete.message(), "upload is not complete");
    assert_eq!(TransferError::Upstream.message(), "remote fetch failed");
    assert_eq!(TransferError::Internal.message(), "filesystem operation failed");
}
