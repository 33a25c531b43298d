use nube_sync::config::Config;
use nube_sync::old_version::LocalVersion;
use nube_sync::result::SyncError;
use nube_sync::sync_service::SyncService;
use nube_sync::versions::LocalFile;
use nube_sync::versions::RemoteEntity;
use nube_sync::versions::Timestamp;

const HOST: &str = "https://cloud.example.com/remote.php/dav/files/user/";
const ROOT: &str = "/remote.php/dav/files/user/Documents/";

fn service() -> SyncService {
    SyncService::init_with_empty_db(Config {
        host: HOST.to_string(),
        username: "user".to_string(),
        password: "SECRET-REDACTED".to_string(),
        out_dir: "out".to_string(),
        black_list: vec!["private".to_string()],
    })
}

fn under(name: &str) -> String {
    format!("{}{}", ROOT, name)
}

fn remote_file(href: String, secs: i64) -> RemoteEntity {
    RemoteEntity::File { href, last_modified: Timestamp { secs, nanos: 0 } }
}

#[test]
fn old_manifest_holds_paths() {
    let mut old = LocalVersion::new();
    assert_eq!(old.get("/a"), None);
    old.add("/a".to_string(), "out/a".to_string());
    old.add("/a".to_string(), "out/a2".to_string());
    assert_eq!(old.get("/a"), Some(&"out/a2".to_string()));
}

#[test]
fn service_starts_from_an_empty_manifest() {
    let sync = service();
    assert_eq!(sync.local_version().len(), 0);
    assert_eq!(sync.config().out_dir, "out");
}

#[test]
fn migration_keeps_what_is_known_and_listed() {
    let mut old = LocalVersion::new();
    old.add(under("a%20b.txt"), "elsewhere/a b.txt".to_string());
    old.add(under("sub/"), "elsewhere/sub".to_string());
    old.add(under("gone.txt"), "elsewhere/gone.txt".to_string());
    old.add(under("private/k.txt"), "elsewhere/private/k.txt".to_string());
    let listing = vec![
        RemoteEntity::Directory { href: under("sub/") },
        remote_file(under("new.txt"), 1),
        remote_file(under("a%20b.txt"), 2),
        remote_file(under("private/k.txt"), 3),
    ];
    let manifest = service().migrate_db(&old, "Documents/", listing).unwrap();
    assert_eq!(manifest.len(), 3);
    assert_eq!(manifest.href(0), &under("sub/"));
    assert_eq!(
        manifest.file(0),
        &LocalFile { path: "out/sub/".to_string(), is_dir: true, last_modified: None }
    );
    assert_eq!(manifest.href(1), &under("a%20b.txt"));
    assert_eq!(
        manifest.file(1),
        &LocalFile {
            path: "out/a b.txt".to_string(),
            is_dir: false,
            last_modified: Some(Timestamp { secs: 2, nanos: 0 }),
        }
    );
    assert_eq!(manifest.href(2), &under("private/k.txt"));
    assert!(manifest.get(&under("new.txt")).is_none());
    assert!(manifest.get(&under("gone.txt")).is_none());
}

#[test]
fn migration_stops_at_the_first_error() {
    let mut old = LocalVersion::new();
    old.add("/short".to_string(), "elsewhere/short".to_string());
    old.add(under("%FF"), "elsewhere/x".to_string());
    let sync = service();
    let listing = vec![remote_file("/unknown".to_string(), 1), remote_file(under("%FF"), 2)];
    assert_eq!(sync.migrate_db(&old, "Documents/", listing).err(), Some(SyncError::Encoding));
    let listing = vec![remote_file("/short".to_string(), 1)];
    assert_eq!(sync.migrate_db(&old, "Documents/", listing).err(), Some(SyncError::OutsideRoot));
    let listing = vec![remote_file("/unknown".to_string(), 1)];
    assert_eq!(sync.migrate_db(&old, "Documents/", listing).unwrap().len(), 0);
}
