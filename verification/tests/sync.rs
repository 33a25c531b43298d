use nube_sync::config::Config;
use nube_sync::result::SyncError;
use nube_sync::sync_service::Deletion;
use nube_sync::sync_service::Fetch;
use nube_sync::sync_service::SyncPlan;
use nube_sync::sync_service::SyncService;
use nube_sync::versions::LocalFile;
use nube_sync::versions::LocalVersion;
use nube_sync::versions::RemoteEntity;
use nube_sync::versions::Timestamp;

const HOST: &str = "https://cloud.example.com/remote.php/dav/files/user/";
const ROOT: &str = "/remote.php/dav/files/user/Documents/";

fn ts(secs: i64) -> Timestamp {
    Timestamp { secs, nanos: 0 }
}

fn config(host: &str, black_list: &[&str]) -> Config {
    Config {
        host: host.to_string(),
        username: "user".to_string(),
        password: "SECRET-REDACTED".to_string(),
        out_dir: "out".to_string(),
        black_list: black_list.iter().map(|s| s.to_string()).collect(),
    }
}

fn remote_file(href: &str, secs: i64) -> RemoteEntity {
    RemoteEntity::File { href: href.to_string(), last_modified: ts(secs) }
}

fn remote_dir(href: &str) -> RemoteEntity {
    RemoteEntity::Directory { href: href.to_string() }
}

fn stored_file(path: &str, secs: i64) -> LocalFile {
    LocalFile { path: path.to_string(), is_dir: false, last_modified: Some(ts(secs)) }
}

fn stored_dir(path: &str) -> LocalFile {
    LocalFile { path: path.to_string(), is_dir: true, last_modified: None }
}

fn under(name: &str) -> String {
    format!("{}{}", ROOT, name)
}

fn entries(sync: &SyncService) -> Vec<(String, LocalFile)> {
    let manifest = sync.local_version();
    (0..manifest.len()).map(|i| (manifest.href(i).clone(), manifest.file(i).clone())).collect()
}

fn no_plan() -> SyncPlan {
    SyncPlan { deletions: vec![], fetches: vec![] }
}

#[test]
fn new_remote_file_is_downloaded_and_recorded() {
    let mut sync = SyncService::init(config("https://h/", &[]), LocalVersion::new());
    let plan = sync.sync("", vec![remote_file("/a.txt", 1)]).unwrap();
    assert_eq!(plan.deletions, vec![]);
    assert_eq!(
        plan.fetches,
        vec![Fetch::Download {
            href: "/a.txt".to_string(),
            uri: "a.txt".to_string(),
            remote: "a.txt".to_string(),
            local: "out/a.txt".to_string(),
            last_modified: ts(1),
        }]
    );
    assert_eq!(entries(&sync), vec![("/a.txt".to_string(), stored_file("out/a.txt", 1))]);
}

#[test]
fn vanished_remote_file_is_deleted_and_dropped() {
    let mut manifest = LocalVersion::new();
    manifest.add("/old.txt".to_string(), stored_file("out/old.txt", 1));
    let mut sync = SyncService::init(config("https://h/", &[]), manifest);
    let plan = sync.sync("", vec![]).unwrap();
    assert_eq!(plan.deletions, vec![Deletion::File { path: "out/old.txt".to_string() }]);
    assert_eq!(plan.fetches, vec![]);
    assert_eq!(entries(&sync), vec![]);
}

#[test]
fn changed_remote_file_is_downloaded_again() {
    let mut manifest = LocalVersion::new();
    manifest.add("/a.txt".to_string(), stored_file("out/a.txt", 1));
    let mut sync = SyncService::init(config("https://h/", &[]), manifest);
    let plan = sync.sync("", vec![remote_file("/a.txt", 2)]).unwrap();
    assert_eq!(plan.deletions, vec![]);
    assert_eq!(
        plan.fetches,
        vec![Fetch::Download {
            href: "/a.txt".to_string(),
            uri: "a.txt".to_string(),
            remote: "a.txt".to_string(),
            local: "out/a.txt".to_string(),
            last_modified: ts(2),
        }]
    );
    assert_eq!(entries(&sync), vec![("/a.txt".to_string(), stored_file("out/a.txt", 2))]);
}

#[test]
fn pass_over_a_tree() {
    let mut manifest = LocalVersion::new();
    manifest.add(under("gone.txt"), stored_file("out/gone.txt", 1));
    manifest.add(under("same.txt"), stored_file("out/same.txt", 2));
    let mut sync = SyncService::init(config(HOST, &[]), manifest);
    let listing = vec![
        remote_dir(ROOT),
        remote_file(&under("same.txt"), 2),
        remote_dir(&under("sub/")),
        remote_file(&under("sub/a%20b.txt"), 3),
    ];
    let plan = sync.sync("Documents/", listing).unwrap();
    assert_eq!(plan.deletions, vec![Deletion::File { path: "out/gone.txt".to_string() }]);
    assert_eq!(
        plan.fetches,
        vec![
            Fetch::CreateDir { href: under("sub/"), path: "out/sub/".to_string() },
            Fetch::Download {
                href: under("sub/a%20b.txt"),
                uri: "Documents/sub/a%20b.txt".to_string(),
                remote: "sub/a b.txt".to_string(),
                local: "out/sub/a b.txt".to_string(),
                last_modified: ts(3),
            },
        ]
    );
    assert_eq!(
        entries(&sync),
        vec![
            (under("same.txt"), stored_file("out/same.txt", 2)),
            (under("sub/"), stored_dir("out/sub/")),
            (under("sub/a%20b.txt"), stored_file("out/sub/a b.txt", 3)),
        ]
    );
}

#[test]
fn second_pass_does_nothing() {
    let mut manifest = LocalVersion::new();
    manifest.add(under("gone.txt"), stored_file("out/gone.txt", 1));
    manifest.add(under("stale.txt"), stored_file("out/stale.txt", 1));
    let mut sync = SyncService::init(config(HOST, &["private"]), manifest);
    let listing = || {
        vec![
            remote_dir(ROOT),
            remote_file(&under("stale.txt"), 2),
            remote_dir(&under("sub/")),
            remote_file(&under("sub/new.txt"), 3),
            remote_file(&under("private/key.txt"), 4),
            remote_file(&under("sub/new.txt"), 5),
        ]
    };
    let first = sync.sync("Documents/", listing()).unwrap();
    assert_eq!(first.deletions.len(), 1);
    assert_eq!(first.fetches.len(), 4);
    let after_first = entries(&sync);
    let second = sync.sync("Documents/", listing()).unwrap();
    assert_eq!(second, no_plan());
    assert_eq!(entries(&sync), after_first);
}

#[test]
fn directory_and_file_below_it_are_not_deleted_twice() {
    let mut manifest = LocalVersion::new();
    manifest.add("/D/".to_string(), stored_dir("out/D"));
    manifest.add("/D/a".to_string(), stored_file("out/D/a", 1));
    manifest.add("/D2/b".to_string(), stored_file("out/D2/b", 1));
    let mut sync = SyncService::init(config("https://h/", &[]), manifest);
    let plan = sync.sync("", vec![]).unwrap();
    assert_eq!(
        plan.deletions,
        vec![
            Deletion::Directory { path: "out/D".to_string() },
            Deletion::File { path: "out/D2/b".to_string() },
        ]
    );
    assert_eq!(entries(&sync), vec![]);
}

#[test]
fn file_before_its_directory_is_deleted_on_its_own() {
    let mut manifest = LocalVersion::new();
    manifest.add("/D/a".to_string(), stored_file("out/D/a", 1));
    manifest.add("/D/".to_string(), stored_dir("out/D"));
    let mut sync = SyncService::init(config("https://h/", &[]), manifest);
    let plan = sync.delete_locals(vec!["/D/a".to_string(), "/D/".to_string()]).unwrap();
    assert_eq!(
        plan,
        vec![
            Deletion::File { path: "out/D/a".to_string() },
            Deletion::Directory { path: "out/D".to_string() },
        ]
    );
}

#[test]
fn deleting_an_unknown_href_is_an_invariant_error() {
    let mut manifest = LocalVersion::new();
    manifest.add("/a".to_string(), stored_file("out/a", 1));
    manifest.add("/b".to_string(), stored_file("out/b", 1));
    let mut sync = SyncService::init(config("https://h/", &[]), manifest);
    let result = sync.delete_locals(vec!["/a".to_string(), "/zzz".to_string(), "/b".to_string()]);
    assert_eq!(result, Err(SyncError::Invariant));
    assert_eq!(entries(&sync), vec![("/b".to_string(), stored_file("out/b", 1))]);
}

#[test]
fn deleting_an_href_twice_is_an_invariant_error() {
    let mut manifest = LocalVersion::new();
    manifest.add("/a".to_string(), stored_file("out/a", 1));
    let mut sync = SyncService::init(config("https://h/", &[]), manifest);
    let result = sync.delete_locals(vec!["/a".to_string(), "/a".to_string()]);
    assert_eq!(result, Err(SyncError::Invariant));
}

#[test]
fn black_listed_href_is_neither_fetched_nor_recorded() {
    let mut manifest = LocalVersion::new();
    manifest.add(under("private/old.txt"), stored_file("out/private/old.txt", 1));
    let mut sync = SyncService::init(config(HOST, &["private"]), manifest);
    let listing = vec![
        remote_file(&under("private/old.txt"), 2),
        remote_file(&under("priv%61te/new.txt"), 3),
        remote_dir(&under("private/")),
        remote_file(&under("public.txt"), 4),
    ];
    let plan = sync.sync("Documents/", listing).unwrap();
    assert_eq!(plan.deletions, vec![]);
    assert_eq!(
        plan.fetches,
        vec![Fetch::Download {
            href: under("public.txt"),
            uri: "Documents/public.txt".to_string(),
            remote: "public.txt".to_string(),
            local: "out/public.txt".to_string(),
            last_modified: ts(4),
        }]
    );
    assert_eq!(
        entries(&sync),
        vec![
            (under("private/old.txt"), stored_file("out/private/old.txt", 1)),
            (under("public.txt"), stored_file("out/public.txt", 4)),
        ]
    );
}

#[test]
fn create_dir_skips_the_listing_root() {
    let mut sync = SyncService::init(config(HOST, &[]), LocalVersion::new());
    assert_eq!(sync.create_dir(&ROOT.to_string(), "Documents/"), Ok(None));
    assert_eq!(entries(&sync), vec![]);
    assert_eq!(
        sync.create_dir(&under("x%20y/"), "Documents/"),
        Ok(Some(Fetch::CreateDir { href: under("x%20y/"), path: "out/x y/".to_string() }))
    );
    assert_eq!(entries(&sync), vec![(under("x%20y/"), stored_dir("out/x y/"))]);
}

#[test]
fn download_file_records_the_remote_timestamp() {
    let mut sync = SyncService::init(config(HOST, &[]), LocalVersion::new());
    let fetch = sync.download_file(&under("a.txt"), Timestamp { secs: 9, nanos: 5 }, "Documents/");
    assert_eq!(
        fetch,
        Ok(Fetch::Download {
            href: under("a.txt"),
            uri: "Documents/a.txt".to_string(),
            remote: "a.txt".to_string(),
            local: "out/a.txt".to_string(),
            last_modified: Timestamp { secs: 9, nanos: 5 },
        })
    );
    assert_eq!(
        sync.local_version().get(&under("a.txt")),
        Some(&LocalFile {
            path: "out/a.txt".to_string(),
            is_dir: false,
            last_modified: Some(Timestamp { secs: 9, nanos: 5 }),
        })
    );
}

#[test]
fn apply_sync_stops_at_the_first_error() {
    let mut sync = SyncService::init(config(HOST, &[]), LocalVersion::new());
    let files = vec![
        remote_file(&under("a.txt"), 1),
        remote_file(&under("%FF.txt"), 2),
        remote_file(&under("b.txt"), 3),
    ];
    assert_eq!(sync.apply_sync("Documents/", files), Err(SyncError::Encoding));
    assert_eq!(entries(&sync), vec![(under("a.txt"), stored_file("out/a.txt", 1))]);
}

#[test]
fn href_outside_the_root_is_an_error() {
    let mut sync = SyncService::init(config(HOST, &[]), LocalVersion::new());
    assert_eq!(
        sync.sync("Documents/", vec![remote_file("/short.txt", 1)]),
        Err(SyncError::OutsideRoot)
    );
}

#[test]
fn host_that_is_no_url_is_an_error() {
    let mut sync = SyncService::init(config("nowhere", &[]), LocalVersion::new());
    assert_eq!(sync.sync("Documents/", vec![remote_file("/a.txt", 1)]), Err(SyncError::Url));
    let mut sync = SyncService::init(config("nowhere", &[]), LocalVersion::new());
    assert_eq!(sync.sync("Documents/", vec![]), Ok(no_plan()));
}

#[test]
fn changed_kind_is_an_error_before_anything_is_planned() {
    let mut manifest = LocalVersion::new();
    manifest.add("/gone".to_string(), stored_file("out/gone", 1));
    manifest.add("/x".to_string(), stored_dir("out/x"));
    let mut sync = SyncService::init(config("https://h/", &[]), manifest);
    assert_eq!(sync.sync("", vec![remote_file("/x", 1)]), Err(SyncError::KindChanged));
    assert_eq!(
        entries(&sync),
        vec![
            ("/gone".to_string(), stored_file("out/gone", 1)),
            ("/x".to_string(), stored_dir("out/x")),
        ]
    );
}

#[test]
fn service_keeps_its_settings() {
    let sync = SyncService::init(config(HOST, &["a", "b"]), LocalVersion::new());
    assert_eq!(sync.config().host, HOST);
    assert_eq!(sync.config().out_dir, "out");
    assert_eq!(sync.config().black_list, vec!["a".to_string(), "b".to_string()]);
    assert_eq!(sync.local_version().len(), 0);
}
