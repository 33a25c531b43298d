use nube_sync::config::Config;
use nube_sync::href::percent_decode;
use nube_sync::href::url_root;
use nube_sync::result::SyncError;
use nube_sync::sync_service::matches_black_list;
use nube_sync::sync_service::paths_for;
use nube_sync::sync_service::relative_to;
use nube_sync::sync_service::DavPaths;
use nube_sync::sync_service::SyncService;
use nube_sync::versions::LocalVersion;

const HOST: &str = "https://cloud.example.com/remote.php/dav/files/user/";

fn service(black_list: &[&str]) -> SyncService {
    let config = Config {
        host: HOST.to_string(),
        username: "user".to_string(),
        password: "SECRET-REDACTED".to_string(),
        out_dir: "out".to_string(),
        black_list: black_list.iter().map(|s| s.to_string()).collect(),
    };
    SyncService::init(config, LocalVersion::new())
}

#[test]
fn percent_decoding_reads_escapes() {
    assert_eq!(percent_decode("a%20b"), Ok("a b".to_string()));
    assert_eq!(percent_decode("plain"), Ok("plain".to_string()));
    assert_eq!(percent_decode("d%C3%ADa"), Ok("día".to_string()));
    assert_eq!(percent_decode("a+b"), Ok("a+b".to_string()));
    assert_eq!(percent_decode(""), Ok(String::new()));
}

#[test]
fn percent_decoding_rejects_bytes_that_are_not_utf8() {
    assert_eq!(percent_decode("%FF"), Err(SyncError::Encoding));
    assert_eq!(percent_decode("a%C3"), Err(SyncError::Encoding));
}

#[test]
fn url_root_is_the_path_of_the_url() {
    assert_eq!(url_root("https://example.com/api/versions?page=2"), Ok("/api/versions".to_string()));
    assert_eq!(url_root("https://example.com"), Ok("/".to_string()));
    assert_eq!(url_root(HOST), Ok("/remote.php/dav/files/user/".to_string()));
    assert_eq!(url_root("https://example.com/a b/"), Ok("/a%20b/".to_string()));
}

#[test]
fn url_root_rejects_what_is_no_url() {
    assert_eq!(url_root("not a url"), Err(SyncError::Url));
    assert_eq!(url_root(""), Err(SyncError::Url));
}

#[test]
fn relative_to_cuts_the_root_off() {
    assert_eq!(relative_to("/root/", "/root/a/b.txt"), Ok("a/b.txt"));
    assert_eq!(relative_to("/root/", "/root/"), Ok(""));
    assert_eq!(relative_to("", "/x"), Ok("/x"));
    assert_eq!(relative_to("/long/root/", "/x"), Err(SyncError::OutsideRoot));
    assert_eq!(relative_to("ab", "ñx"), Ok("x"));
    assert_eq!(relative_to("a", "ñx"), Err(SyncError::OutsideRoot));
}

#[test]
fn paths_for_joins_with_the_output_directory() {
    let paths = paths_for("out", "sub/a b.txt".to_string());
    assert_eq!(
        paths,
        DavPaths { remote: "sub/a b.txt".to_string(), local: "out/sub/a b.txt".to_string() }
    );
}

#[test]
fn define_paths_decodes_the_part_below_the_root() {
    let sync = service(&[]);
    let href = "/remote.php/dav/files/user/Documents/a%20b.txt".to_string();
    assert_eq!(
        sync.define_paths("Documents/", &href),
        Ok(DavPaths { remote: "a b.txt".to_string(), local: "out/a b.txt".to_string() })
    );
    let href = "/remote.php/dav/files/user/Documents/sub/c.txt".to_string();
    assert_eq!(
        sync.define_paths("Documents/", &href),
        Ok(DavPaths { remote: "sub/c.txt".to_string(), local: "out/sub/c.txt".to_string() })
    );
}

#[test]
fn define_paths_reports_each_error() {
    let sync = service(&[]);
    assert_eq!(sync.define_paths("Documents/", &"/short".to_string()), Err(SyncError::OutsideRoot));
    let href = "/remote.php/dav/files/user/Documents/%FF".to_string();
    assert_eq!(sync.define_paths("Documents/", &href), Err(SyncError::Encoding));
    let config = Config {
        host: "no url ".to_string(),
        username: String::new(),
        password: String::new(),
        out_dir: "out".to_string(),
        black_list: vec![],
    };
    let broken = SyncService::init(config, LocalVersion::new());
    assert_eq!(broken.define_paths("Documents/", &"/x".to_string()), Err(SyncError::Url));
}

#[test]
fn black_list_matches_equal_or_containing_paths() {
    let list = vec!["secret".to_string(), "/tmp/".to_string()];
    assert!(matches_black_list("secret", &list));
    assert!(matches_black_list("/a/secret/b", &list));
    assert!(matches_black_list("/tmp/x", &list));
    assert!(!matches_black_list("/a/public/b", &list));
    assert!(!matches_black_list("/tmp", &list));
    assert!(!matches_black_list("anything", &vec![]));
    assert!(matches_black_list("anything", &vec![String::new()]));
}

#[test]
fn black_list_is_matched_against_the_decoded_href() {
    let sync = service(&["my secret"]);
    assert_eq!(sync.is_in_black_list("/docs/my%20secret/a.txt"), Ok(true));
    assert_eq!(sync.is_in_black_list("/docs/my secret"), Ok(true));
    assert_eq!(sync.is_in_black_list("/docs/my%2520secret"), Ok(false));
    assert_eq!(sync.is_in_black_list("/docs/public.txt"), Ok(false));
    assert_eq!(sync.is_in_black_list("/docs/%FF"), Err(SyncError::Encoding));
}
