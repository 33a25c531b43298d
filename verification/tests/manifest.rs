use nube_sync::versions::LocalFile;
use nube_sync::versions::LocalVersion;
use nube_sync::versions::Timestamp;

fn file(path: &str, secs: i64) -> LocalFile {
    LocalFile {
        path: path.to_string(),
        is_dir: false,
        last_modified: Some(Timestamp { secs, nanos: 0 }),
    }
}

fn dir(path: &str) -> LocalFile {
    LocalFile { path: path.to_string(), is_dir: true, last_modified: None }
}

#[test]
fn new_manifest_is_empty() {
    let manifest = LocalVersion::new();
    assert_eq!(manifest.len(), 0);
    assert!(manifest.get("/a.txt").is_none());
}

#[test]
fn add_stores_an_entry() {
    let mut manifest = LocalVersion::new();
    manifest.add("/a.txt".to_string(), file("out/a.txt", 7));
    assert_eq!(manifest.len(), 1);
    assert_eq!(manifest.get("/a.txt"), Some(&file("out/a.txt", 7)));
    assert_eq!(manifest.href(0), "/a.txt");
    assert_eq!(manifest.file(0), &file("out/a.txt", 7));
}

#[test]
fn add_replaces_the_entry_of_a_known_href() {
    let mut manifest = LocalVersion::new();
    manifest.add("/a".to_string(), file("out/a", 1));
    manifest.add("/b".to_string(), dir("out/b"));
    manifest.add("/a".to_string(), file("out/a", 2));
    assert_eq!(manifest.len(), 2);
    assert_eq!(manifest.get("/a"), Some(&file("out/a", 2)));
    assert_eq!(manifest.href(0), "/a");
    assert_eq!(manifest.href(1), "/b");
}

#[test]
fn remove_returns_the_prior_entry() {
    let mut manifest = LocalVersion::new();
    manifest.add("/a".to_string(), file("out/a", 1));
    manifest.add("/b".to_string(), dir("out/b"));
    manifest.add("/c".to_string(), file("out/c", 3));
    assert_eq!(manifest.remove(&"/b".to_string()), Some(dir("out/b")));
    assert_eq!(manifest.len(), 2);
    assert!(manifest.get("/b").is_none());
    assert_eq!(manifest.href(0), "/a");
    assert_eq!(manifest.href(1), "/c");
}

#[test]
fn remove_of_an_unknown_href_changes_nothing() {
    let mut manifest = LocalVersion::new();
    manifest.add("/a".to_string(), file("out/a", 1));
    assert_eq!(manifest.remove(&"/zzz".to_string()), None);
    assert_eq!(manifest.len(), 1);
    assert_eq!(manifest.get("/a"), Some(&file("out/a", 1)));
}

#[test]
fn keys_are_raw_strings() {
    let mut manifest = LocalVersion::new();
    manifest.add("/a%20b".to_string(), file("out/a b", 1));
    assert!(manifest.get("/a b").is_none());
    assert!(manifest.get("/a%20b").is_some());
}

#[test]
fn clone_is_equal_and_independent() {
    let mut manifest = LocalVersion::new();
    manifest.add("/a".to_string(), file("out/a", 1));
    manifest.add("/b".to_string(), dir("out/b"));
    let mut copy = manifest.clone();
    assert_eq!(copy.len(), 2);
    assert_eq!(copy.href(0), "/a");
    assert_eq!(copy.href(1), "/b");
    assert_eq!(copy.get("/a"), manifest.get("/a"));
    assert_eq!(copy.get("/b"), manifest.get("/b"));
    copy.remove(&"/a".to_string());
    assert_eq!(manifest.len(), 2);
}
