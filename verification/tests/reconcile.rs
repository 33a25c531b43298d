use nube_sync::versions::LocalFile;
use nube_sync::versions::LocalVersion;
use nube_sync::versions::RemoteEntity;
use nube_sync::versions::ServerVersion;
use nube_sync::versions::Status;
use nube_sync::versions::Timestamp;
use nube_sync::versions::Version;
use nube_sync::versions::VersionService;

fn ts(secs: i64) -> Timestamp {
    Timestamp { secs, nanos: 0 }
}

fn remote_file(href: &str, secs: i64) -> RemoteEntity {
    RemoteEntity::File { href: href.to_string(), last_modified: ts(secs) }
}

fn remote_dir(href: &str) -> RemoteEntity {
    RemoteEntity::Directory { href: href.to_string() }
}

fn stored_file(path: &str, secs: i64) -> LocalFile {
    LocalFile { path: path.to_string(), is_dir: false, last_modified: Some(ts(secs)) }
}

fn stored_dir(path: &str) -> LocalFile {
    LocalFile { path: path.to_string(), is_dir: true, last_modified: None }
}

fn strings(list: &[&str]) -> Vec<String> {
    list.iter().map(|s| s.to_string()).collect()
}

#[test]
fn new_remote_file_is_fetched() {
    let service = VersionService::init(LocalVersion::new(), vec![remote_file("/a.txt", 1)]);
    assert_eq!(service.version().files_to_remove(), strings(&[]));
    assert_eq!(service.version().files_to_download(), strings(&["/a.txt"]));
    assert_eq!(service.entities_to_download(), vec![remote_file("/a.txt", 1)]);
    assert_eq!(service.version().status("/a.txt"), Some(Status::Server));
}

#[test]
fn vanished_remote_file_is_removed() {
    let mut local = LocalVersion::new();
    local.add("/old.txt".to_string(), stored_file("out/old.txt", 1));
    let service = VersionService::init(local, vec![]);
    assert_eq!(service.version().files_to_remove(), strings(&["/old.txt"]));
    assert_eq!(service.version().files_to_download(), strings(&[]));
    assert_eq!(service.entities_to_download(), vec![]);
    assert_eq!(service.version().status("/old.txt"), Some(Status::Local));
}

#[test]
fn changed_timestamp_is_out_of_date() {
    let mut local = LocalVersion::new();
    local.add("/a.txt".to_string(), stored_file("out/a.txt", 1));
    let service = VersionService::init(local, vec![remote_file("/a.txt", 2)]);
    assert_eq!(service.version().status("/a.txt"), Some(Status::OutOfDate));
    assert_eq!(service.version().files_to_remove(), strings(&[]));
    assert_eq!(service.version().files_to_download(), strings(&["/a.txt"]));
    assert_eq!(service.entities_to_download(), vec![remote_file("/a.txt", 2)]);
}

#[test]
fn equal_timestamp_is_in_sync() {
    let mut local = LocalVersion::new();
    local.add("/a.txt".to_string(), stored_file("out/a.txt", 5));
    let service = VersionService::init(local, vec![remote_file("/a.txt", 5)]);
    assert_eq!(service.version().status("/a.txt"), Some(Status::Sync));
    assert_eq!(service.version().files_to_remove(), strings(&[]));
    assert_eq!(service.version().files_to_download(), strings(&[]));
    assert_eq!(service.entities_to_download(), vec![]);
}

#[test]
fn nanoseconds_count_in_the_comparison() {
    let mut local = LocalVersion::new();
    local.add(
        "/a".to_string(),
        LocalFile {
            path: "out/a".to_string(),
            is_dir: false,
            last_modified: Some(Timestamp { secs: 5, nanos: 1 }),
        },
    );
    let listing = vec![RemoteEntity::File {
        href: "/a".to_string(),
        last_modified: Timestamp { secs: 5, nanos: 2 },
    }];
    let service = VersionService::init(local, listing);
    assert_eq!(service.version().status("/a"), Some(Status::OutOfDate));
}

#[test]
fn known_directory_is_in_sync() {
    let mut local = LocalVersion::new();
    local.add("/d/".to_string(), stored_dir("out/d"));
    let service = VersionService::init(local, vec![remote_dir("/d/")]);
    assert_eq!(service.version().status("/d/"), Some(Status::Sync));
    assert_eq!(service.entities_to_download(), vec![]);
}

#[test]
fn every_href_has_exactly_one_status() {
    let mut local = LocalVersion::new();
    local.add("/gone".to_string(), stored_file("out/gone", 1));
    local.add("/same".to_string(), stored_file("out/same", 2));
    local.add("/stale".to_string(), stored_file("out/stale", 3));
    local.add("/dir/".to_string(), stored_dir("out/dir"));
    let listing = vec![
        remote_file("/new", 9),
        remote_file("/same", 2),
        remote_file("/stale", 4),
        remote_dir("/dir/"),
        remote_dir("/newdir/"),
    ];
    let service = VersionService::init(local, listing);
    let version = service.version();
    assert_eq!(version.len(), 6);
    assert_eq!(version.status("/gone"), Some(Status::Local));
    assert_eq!(version.status("/same"), Some(Status::Sync));
    assert_eq!(version.status("/stale"), Some(Status::OutOfDate));
    assert_eq!(version.status("/dir/"), Some(Status::Sync));
    assert_eq!(version.status("/new"), Some(Status::Server));
    assert_eq!(version.status("/newdir/"), Some(Status::Server));
    assert_eq!(version.status("/unknown"), None);
    let remove = version.files_to_remove();
    let download = version.files_to_download();
    assert_eq!(remove, strings(&["/gone"]));
    assert_eq!(download, strings(&["/stale", "/new", "/newdir/"]));
    for href in &remove {
        assert!(!download.contains(href));
    }
}

#[test]
fn entities_to_download_keeps_listing_order_and_payload() {
    let mut local = LocalVersion::new();
    local.add("/b".to_string(), stored_file("out/b", 1));
    let listing =
        vec![remote_dir("/z/"), remote_file("/b", 2), remote_file("/a", 3), remote_file("/b", 2)];
    let service = VersionService::init(local, listing);
    let expected =
        vec![remote_dir("/z/"), remote_file("/b", 2), remote_file("/a", 3), remote_file("/b", 2)];
    assert_eq!(service.entities_to_download(), expected);
}

#[test]
fn last_entity_of_an_href_decides_its_status() {
    let mut local = LocalVersion::new();
    local.add("/a".to_string(), stored_file("out/a", 1));
    let listing = vec![remote_file("/a", 2), remote_file("/a", 1)];
    let service = VersionService::init(local, listing);
    assert_eq!(service.version().status("/a"), Some(Status::Sync));
    assert_eq!(service.entities_to_download(), vec![]);
}

#[test]
fn server_version_indexes_by_href() {
    let listing = vec![remote_file("/a", 1), remote_dir("/d/"), remote_file("/a", 2)];
    let server = ServerVersion::from_entities(&listing);
    assert_eq!(server.files.len(), 2);
    assert_eq!(server.files.get("/a"), Some(&&remote_file("/a", 2)));
    assert_eq!(server.files.get("/d/"), Some(&&remote_dir("/d/")));
    assert_eq!(server.files.key(0), "/a");
    assert_eq!(server.files.key(1), "/d/");
}

#[test]
fn stored_directory_listed_as_file_is_not_reconcilable() {
    let mut local = LocalVersion::new();
    local.add("/x".to_string(), stored_dir("out/x"));
    let listing = vec![remote_file("/x", 1)];
    let server = ServerVersion::from_entities(&listing);
    assert!(!Version::reconcilable(&server, &local));
    let listing = vec![remote_dir("/x")];
    let server = ServerVersion::from_entities(&listing);
    assert!(Version::reconcilable(&server, &local));
}

#[test]
fn stored_file_listed_as_directory_is_in_sync() {
    let mut local = LocalVersion::new();
    local.add("/x".to_string(), stored_file("out/x", 1));
    let listing = vec![remote_dir("/x")];
    let server = ServerVersion::from_entities(&listing);
    assert!(Version::reconcilable(&server, &local));
    let version = Version::new(&server, &local);
    assert_eq!(version.status("/x"), Some(Status::Sync));
}
