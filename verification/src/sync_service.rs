//! Planning a pass: which local files go, which remote entities are
//! fetched and where to, and what the manifest holds afterwards.
//!
//! Nothing here touches the network or the disk. A pass is planned from a
//! listing; carrying out the plan and persisting the manifest are left to
//! the caller.

use crate::config::Config;
use crate::config::ConfigView;
use crate::href::percent_decode;
use crate::href::url_root;
use crate::pass::black_listed;
use crate::pass::cut_root;
use crate::pass::dav_paths;
use crate::pass::delete_run;
use crate::pass::delete_start;
use crate::pass::directory_fetch;
use crate::pass::excluded_by;
use crate::pass::fetch_run;
use crate::pass::fetch_start;
use crate::pass::lemma_delete_run_stops;
use crate::pass::lemma_fetch_run_stops;
use crate::pass::file_fetch;
use crate::pass::manifest_of;
use crate::pass::no_double_delete;
use crate::pass::pass;
use crate::pass::paths_in;
use crate::pass::under_any;
use crate::pass::valid;
use crate::pass::DavPathsView;
use crate::pass::DeleteState;
use crate::pass::DeletionView;
use crate::pass::FetchState;
use crate::pass::FetchView;
use crate::pass::ManifestView;
use crate::result::AppResult;
use crate::result::SyncError;
use crate::text::followed_by;
use crate::text::contains_str;
use crate::text::is_substring;
use crate::text::is_under;
use crate::text::join;
use crate::text::path_under;
use crate::text::str_eq;
use crate::text::suffix_from;
use crate::versions::entity_views;
use crate::versions::string_views;
use crate::versions::Href;
use crate::versions::LocalFile;
use crate::versions::LocalVersion;
use crate::versions::RemoteEntity;
use crate::versions::ServerVersion;
use crate::versions::Timestamp;
use crate::versions::Version;
use crate::versions::VersionService;
use vstd::prelude::*;
use vstd::string::StringExecFns;

verus! {

/// The remote-relative and the local path of an href.
#[derive(Debug, PartialEq, Eq)]
pub struct DavPaths {
    pub remote: String,
    pub local: String,
}

impl View for DavPaths {
    type V = DavPathsView;

    open spec fn view(&self) -> DavPathsView {
        DavPathsView { remote: self.remote@, local: self.local@ }
    }
}

impl Clone for DavPaths {
    fn clone(&self) -> (r: Self)
        ensures
            r@ == self@,
    {
        DavPaths { remote: self.remote.clone(), local: self.local.clone() }
    }
}

/// A planned change of the local tree that brings something in.
#[derive(Debug, PartialEq, Eq)]
pub enum Fetch {
    /// Create the directory `path`.
    CreateDir { href: String, path: String },
    /// Download `uri` from the host and write it to `local`.
    Download { href: String, uri: String, remote: String, local: String, last_modified: Timestamp },
}

impl View for Fetch {
    type V = FetchView;

    open spec fn view(&self) -> FetchView {
        match self {
            Fetch::CreateDir { href, path } => FetchView::CreateDir { href: href@, path: path@ },
            Fetch::Download { href, uri, remote, local, last_modified } => FetchView::Download {
                href: href@,
                uri: uri@,
                remote: remote@,
                local: local@,
                last_modified: *last_modified,
            },
        }
    }
}

/// A planned removal from the local tree.
#[derive(Debug, PartialEq, Eq)]
pub enum Deletion {
    /// Remove the directory `path` with all that is in it.
    Directory { path: String },
    /// Remove the file `path`.
    File { path: String },
}

impl View for Deletion {
    type V = DeletionView;

    open spec fn view(&self) -> DeletionView {
        match self {
            Deletion::Directory { path } => DeletionView::Directory { path: path@ },
            Deletion::File { path } => DeletionView::File { path: path@ },
        }
    }
}

/// The values of a list of fetches.
pub open spec fn fetch_views(fetches: Seq<Fetch>) -> Seq<FetchView> {
    fetches.map_values(|f: Fetch| f@)
}

/// The values of a list of removals.
pub open spec fn deletion_views(deletions: Seq<Deletion>) -> Seq<DeletionView> {
    deletions.map_values(|d: Deletion| d@)
}

/// What a pass asks its caller to do: first the removals, then the
/// fetches, each list in order.
#[derive(Debug, PartialEq, Eq)]
pub struct SyncPlan {
    pub deletions: Vec<Deletion>,
    pub fetches: Vec<Fetch>,
}

/// Whether the decoded path `decoded` equals or contains a fragment of
/// `black_list`.
pub fn matches_black_list(decoded: &str, black_list: &Vec<String>) -> (r: bool)
    ensures
        r == excluded_by(decoded@, string_views(black_list@)),
{
    let ghost list = string_views(black_list@);
    let mut i: usize = 0;
    while i < black_list.len()
        invariant
            i <= black_list.len(),
            list == string_views(black_list@),
            forall|j: int|
                0 <= j < i ==> !(decoded@ == #[trigger] list[j] || is_substring(list[j], decoded@)),
        decreases black_list.len() - i,
    {
        let fragment = black_list[i].as_str();
        assert(list[i as int] == fragment@);
        if str_eq(decoded, fragment) || contains_str(decoded, fragment) {
            return true;
        }
        i += 1;
    }
    false
}

/// `href` without its first bytes, as many as `root` has. It fails where
/// `href` is shorter than that, or where the cut would split a character.
pub fn relative_to<'a>(root: &str, href: &'a str) -> (r: Result<&'a str, SyncError>)
    ensures
        match r {
            Ok(rest) => cut_root(root@, href@) == Ok::<Seq<char>, SyncError>(rest@),
            Err(error) => cut_root(root@, href@) == Err::<Seq<char>, SyncError>(error),
        },
{
    let n = root.as_bytes().len();
    match suffix_from(href, n) {
        Some(rest) => Ok(rest),
        None => Err(SyncError::OutsideRoot),
    }
}

/// The paths that belong to the decoded relative path `relative`: itself
/// as the remote path, and the local path within `out_dir`.
pub fn paths_for(out_dir: &str, relative: String) -> (r: DavPaths)
    ensures
        r@ == paths_in(out_dir@, relative@),
{
    let local = join(out_dir, relative.as_str());
    DavPaths { remote: relative, local }
}

fn covered(path: &str, roots: &Vec<String>) -> (r: bool)
    ensures
        r == under_any(path@, string_views(roots@)),
{
    let ghost list = string_views(roots@);
    let mut i: usize = 0;
    while i < roots.len()
        invariant
            i <= roots.len(),
            list == string_views(roots@),
            forall|j: int| 0 <= j < i ==> !path_under(path@, #[trigger] list[j]),
        decreases roots.len() - i,
    {
        let root = roots[i].as_str();
        assert(list[i as int] == root@);
        if is_under(path, root) {
            return true;
        }
        i += 1;
    }
    false
}

/// One sync: the settings and the manifest that the passes work on.
pub struct SyncService {
    config: Config,
    local_version: LocalVersion,
}

impl SyncService {
    /// The settings of the service.
    pub closed spec fn settings(&self) -> ConfigView {
        self.config@
    }

    /// The manifest as it stands.
    pub closed spec fn manifest(&self) -> ManifestView {
        manifest_of(self.local_version)
    }

    /// A service with the settings `config` that starts from the manifest
    /// `local_version`.
    pub fn init(config: Config, local_version: LocalVersion) -> (r: SyncService)
        ensures
            r.settings() == config@,
            r.manifest() == manifest_of(local_version),
            valid(r.manifest()),
    {
        let r = SyncService { config, local_version };
        r.manifest_is_valid();
        r
    }

    /// The settings of the service.
    pub fn config(&self) -> (r: &Config)
        ensures
            r@ == self.settings(),
    {
        &self.config
    }

    /// The manifest as it stands.
    pub fn local_version(&self) -> (r: &LocalVersion)
        ensures
            manifest_of(*r) == self.manifest(),
            valid(self.manifest()),
    {
        self.manifest_is_valid();
        &self.local_version
    }

    /// Learns that the manifest lists each of its hrefs once.
    fn manifest_is_valid(&self)
        ensures
            valid(self.manifest()),
    {
        let _ = self.local_version.len();
    }

    /// Whether `href` is to be skipped: whether its decoded form matches
    /// the black list.
    pub fn is_in_black_list(&self, href: &str) -> (r: AppResult<bool>)
        ensures
            r == black_listed(self.settings().black_list, href@),
    {
        match percent_decode(href) {
            Ok(decoded) => Ok(matches_black_list(decoded.as_str(), &self.config.black_list)),
            Err(error) => Err(error),
        }
    }

    /// The paths of `file_href` in a sync of `remote_dir`.
    pub fn define_paths(&self, remote_dir: &str, file_href: &Href) -> (r: AppResult<DavPaths>)
        ensures
            match r {
                Ok(paths) => dav_paths(self.settings(), remote_dir@, file_href@) == Ok::<
                    DavPathsView,
                    SyncError,
                >(paths@),
                Err(error) => dav_paths(self.settings(), remote_dir@, file_href@) == Err::<
                    DavPathsView,
                    SyncError,
                >(error),
            },
    {
        let base = followed_by(self.config.host.as_str(), remote_dir);
        let root = match url_root(base.as_str()) {
            Ok(root) => root,
            Err(error) => {
                return Err(error);
            },
        };
        let raw = match relative_to(root.as_str(), file_href.as_str()) {
            Ok(raw) => raw,
            Err(error) => {
                return Err(error);
            },
        };
        match percent_decode(raw) {
            Ok(relative) => Ok(paths_for(self.config.out_dir.as_str(), relative)),
            Err(error) => Err(error),
        }
    }

    /// Drops the entries of `to_delete` from the manifest, in order, and
    /// plans the removal of what they stand for. It stops with
    /// `SyncError::Invariant` at the first href that has no entry.
    pub fn delete_locals(&mut self, to_delete: Vec<String>) -> (r: AppResult<Vec<Deletion>>)
        ensures
            final(self).settings() == old(self).settings(),
            valid(final(self).manifest()),
            final(self).manifest() == delete_run(
                delete_start(old(self).manifest()),
                string_views(to_delete@),
            ).0.manifest,
            match r {
                Ok(plan) => {
                    &&& delete_run(delete_start(old(self).manifest()), string_views(to_delete@)).1
                    &&& deletion_views(plan@) == delete_run(
                        delete_start(old(self).manifest()),
                        string_views(to_delete@),
                    ).0.plan
                    &&& no_double_delete(deletion_views(plan@))
                },
                Err(error) => {
                    &&& error == SyncError::Invariant
                    &&& !delete_run(delete_start(old(self).manifest()), string_views(to_delete@)).1
                },
            },
    {
        self.manifest_is_valid();
        let ghost start = delete_start(self.manifest());
        let ghost all = string_views(to_delete@);
        let mut roots: Vec<String> = Vec::new();
        let mut plan: Vec<Deletion> = Vec::new();
        let mut i: usize = 0;
        proof {
            assert(string_views(roots@) =~= Seq::<Seq<char>>::empty());
            assert(deletion_views(plan@) =~= Seq::<DeletionView>::empty());
        }
        while i < to_delete.len()
            invariant
                i <= to_delete.len(),
                all == string_views(to_delete@),
                start == delete_start(old(self).manifest()),
                self.settings() == old(self).settings(),
                valid(self.manifest()),
                delete_run(start, all.take(i as int)) == (
                    DeleteState {
                        manifest: self.manifest(),
                        roots: string_views(roots@),
                        plan: deletion_views(plan@),
                    },
                    true,
                ),
                no_double_delete(deletion_views(plan@)),
                forall|k: int|
                    0 <= k < plan@.len() ==> match #[trigger] deletion_views(plan@)[k] {
                        DeletionView::Directory { path } => string_views(roots@).contains(path),
                        DeletionView::File { .. } => true,
                    },
            decreases to_delete.len() - i,
        {
            let href = &to_delete[i];
            let ghost state = DeleteState {
                manifest: self.manifest(),
                roots: string_views(roots@),
                plan: deletion_views(plan@),
            };
            proof {
                assert(all.take(i as int + 1).last() == href@);
                assert(all.take(i as int + 1).drop_last() =~= all.take(i as int));
            }
            match self.local_version.remove(href) {
                None => {
                    proof {
                        lemma_delete_run_stops(start, all, i as int + 1);
                    }
                    return Err(SyncError::Invariant);
                },
                Some(file) => {
                    if file.is_dir {
                        let ghost roots_before = roots@;
                        let ghost plan_before = plan@;
                        roots.push(file.path.clone());
                        plan.push(Deletion::Directory { path: file.path });
                        proof {
                            let path = state.manifest.files[href@].path;
                            assert(string_views(roots@) =~= string_views(roots_before).push(path));
                            assert(deletion_views(plan@) =~= deletion_views(plan_before).push(
                                DeletionView::Directory { path },
                            ));
                            assert forall|k: int| 0 <= k < plan@.len() implies match #[trigger] deletion_views(
                                plan@,
                            )[k] {
                                DeletionView::Directory { path } => string_views(roots@).contains(
                                    path,
                                ),
                                DeletionView::File { .. } => true,
                            } by {
                                if k < plan_before.len() {
                                    assert(deletion_views(plan@)[k] == deletion_views(
                                        plan_before,
                                    )[k]);
                                    match deletion_views(plan_before)[k] {
                                        DeletionView::Directory { path: earlier } => {
                                            let at = choose|at: int|
                                                0 <= at < string_views(roots_before).len()
                                                    && string_views(roots_before)[at] == earlier;
                                            assert(string_views(roots@)[at] == earlier);
                                        },
                                        DeletionView::File { .. } => {},
                                    }
                                } else {
                                    assert(string_views(roots@)[roots_before.len() as int] == path);
                                }
                            }
                        }
                    } else if !covered(file.path.as_str(), &roots) {
                        let ghost plan_before = plan@;
                        plan.push(Deletion::File { path: file.path });
                        proof {
                            let path = state.manifest.files[href@].path;
                            assert(deletion_views(plan@) =~= deletion_views(plan_before).push(
                                DeletionView::File { path },
                            ));
                            assert forall|a: int, b: int|
                                0 <= a < b < plan@.len() implies match (
                                #[trigger] deletion_views(plan@)[a],
                                #[trigger] deletion_views(plan@)[b],
                            ) {
                                (
                                    DeletionView::Directory { path: root },
                                    DeletionView::File { path },
                                ) => !path_under(path, root),
                                _ => true,
                            } by {
                                if b < plan_before.len() {
                                    assert(deletion_views(plan@)[a] == deletion_views(
                                        plan_before,
                                    )[a]);
                                    assert(deletion_views(plan@)[b] == deletion_views(
                                        plan_before,
                                    )[b]);
                                } else {
                                    assert(deletion_views(plan@)[a] == deletion_views(
                                        plan_before,
                                    )[a]);
                                    match deletion_views(plan_before)[a] {
                                        DeletionView::Directory { path: root } => {
                                            let at = choose|at: int|
                                                0 <= at < string_views(roots@).len()
                                                    && string_views(roots@)[at] == root;
                                            assert(string_views(roots@)[at] == root);
                                        },
                                        DeletionView::File { .. } => {},
                                    }
                                }
                            }
                        }
                    }
                },
            }
            i += 1;
        }
        proof {
            assert(all.take(i as int) =~= all);
        }
        Ok(plan)
    }

    /// Plans the creation of the listed directory `href` and records it in
    /// the manifest. For the listing root itself there is nothing to do.
    pub fn create_dir(&mut self, href: &Href, remote_dir: &str) -> (r: AppResult<Option<Fetch>>)
        ensures
            final(self).settings() == old(self).settings(),
            valid(final(self).manifest()),
            match r {
                Ok(Some(fetch)) => {
                    &&& directory_fetch(old(self).settings(), remote_dir@, href@) == Ok::<
                        Option<FetchView>,
                        SyncError,
                    >(Some(fetch@))
                    &&& final(self).manifest() == old(self).manifest().upsert(
                        fetch@.href(),
                        fetch@.entry(),
                    )
                },
                Ok(None) => {
                    &&& directory_fetch(old(self).settings(), remote_dir@, href@) == Ok::<
                        Option<FetchView>,
                        SyncError,
                    >(None)
                    &&& final(self).manifest() == old(self).manifest()
                },
                Err(error) => {
                    &&& directory_fetch(old(self).settings(), remote_dir@, href@) == Err::<
                        Option<FetchView>,
                        SyncError,
                    >(error)
                    &&& final(self).manifest() == old(self).manifest()
                },
            },
    {
        self.manifest_is_valid();
        let base = followed_by(self.config.host.as_str(), remote_dir);
        let root = match url_root(base.as_str()) {
            Ok(root) => root,
            Err(error) => {
                return Err(error);
            },
        };
        let raw = match relative_to(root.as_str(), href.as_str()) {
            Ok(raw) => raw,
            Err(error) => {
                return Err(error);
            },
        };
        if raw.is_empty() {
            return Ok(None);
        }
        let relative = match percent_decode(raw) {
            Ok(relative) => relative,
            Err(error) => {
                return Err(error);
            },
        };
        let path = join(self.config.out_dir.as_str(), relative.as_str());
        self.local_version.add(
            href.clone(),
            LocalFile { path: path.clone(), is_dir: true, last_modified: None },
        );
        Ok(Some(Fetch::CreateDir { href: href.clone(), path }))
    }

    /// Plans the download of the listed file `href` and records it in the
    /// manifest with the remote timestamp.
    pub fn download_file(&mut self, href: &Href, last_modified: Timestamp, remote_dir: &str) -> (r:
        AppResult<Fetch>)
        ensures
            final(self).settings() == old(self).settings(),
            valid(final(self).manifest()),
            match r {
                Ok(fetch) => {
                    &&& file_fetch(old(self).settings(), remote_dir@, href@, last_modified) == Ok::<
                        FetchView,
                        SyncError,
                    >(fetch@)
                    &&& final(self).manifest() == old(self).manifest().upsert(
                        fetch@.href(),
                        fetch@.entry(),
                    )
                },
                Err(error) => {
                    &&& file_fetch(old(self).settings(), remote_dir@, href@, last_modified) == Err::<
                        FetchView,
                        SyncError,
                    >(error)
                    &&& final(self).manifest() == old(self).manifest()
                },
            },
    {
        self.manifest_is_valid();
        let host_path = match url_root(self.config.host.as_str()) {
            Ok(host_path) => host_path,
            Err(error) => {
                return Err(error);
            },
        };
        let uri = match relative_to(host_path.as_str(), href.as_str()) {
            Ok(uri) => String::from_str(uri),
            Err(error) => {
                return Err(error);
            },
        };
        let paths = match self.define_paths(remote_dir, href) {
            Ok(paths) => paths,
            Err(error) => {
                return Err(error);
            },
        };
        self.local_version.add(
            href.clone(),
            LocalFile {
                path: paths.local.clone(),
                is_dir: false,
                last_modified: Some(last_modified),
            },
        );
        Ok(
            Fetch::Download {
                href: href.clone(),
                uri,
                remote: paths.remote,
                local: paths.local,
                last_modified,
            },
        )
    }

    /// Plans the fetch of each entity of `files`, in order, and records it
    /// in the manifest. Black-listed hrefs are passed over. It stops with
    /// the error of the first entity that gives one.
    pub fn apply_sync(&mut self, remote_dir: &str, files: Vec<RemoteEntity>) -> (r: AppResult<
        Vec<Fetch>,
    >)
        ensures
            final(self).settings() == old(self).settings(),
            valid(final(self).manifest()),
            final(self).manifest() == fetch_run(
                old(self).settings(),
                remote_dir@,
                fetch_start(old(self).manifest()),
                entity_views(files@),
            ).0.manifest,
            match r {
                Ok(plan) => {
                    &&& fetch_run(
                        old(self).settings(),
                        remote_dir@,
                        fetch_start(old(self).manifest()),
                        entity_views(files@),
                    ).1 is None
                    &&& fetch_views(plan@) == fetch_run(
                        old(self).settings(),
                        remote_dir@,
                        fetch_start(old(self).manifest()),
                        entity_views(files@),
                    ).0.plan
                },
                Err(error) => fetch_run(
                    old(self).settings(),
                    remote_dir@,
                    fetch_start(old(self).manifest()),
                    entity_views(files@),
                ).1 == Some(error),
            },
    {
        self.manifest_is_valid();
        let ghost config = self.settings();
        let ghost start = fetch_start(self.manifest());
        let ghost all = entity_views(files@);
        let mut plan: Vec<Fetch> = Vec::new();
        let mut i: usize = 0;
        proof {
            assert(fetch_views(plan@) =~= Seq::<FetchView>::empty());
        }
        while i < files.len()
            invariant
                i <= files.len(),
                all == entity_views(files@),
                config == old(self).settings(),
                start == fetch_start(old(self).manifest()),
                self.settings() == config,
                valid(self.manifest()),
                fetch_run(config, remote_dir@, start, all.take(i as int)) == (
                    FetchState { manifest: self.manifest(), plan: fetch_views(plan@) },
                    None::<SyncError>,
                ),
            decreases files.len() - i,
        {
            let entity = &files[i];
            proof {
                assert(all.take(i as int + 1).last() == entity@);
                assert(all.take(i as int + 1).drop_last() =~= all.take(i as int));
            }
            let skip = match self.is_in_black_list(entity.href().as_str()) {
                Ok(skip) => skip,
                Err(error) => {
                    proof {
                        lemma_fetch_run_stops(config, remote_dir@, start, all, i as int + 1);
                    }
                    return Err(error);
                },
            };
            if !skip {
                let planned = match entity {
                    RemoteEntity::File { href, last_modified } => {
                        match self.download_file(href, *last_modified, remote_dir) {
                            Ok(fetch) => Some(fetch),
                            Err(error) => {
                                proof {
                                    lemma_fetch_run_stops(
                                        config,
                                        remote_dir@,
                                        start,
                                        all,
                                        i as int + 1,
                                    );
                                }
                                return Err(error);
                            },
                        }
                    },
                    RemoteEntity::Directory { href } => {
                        match self.create_dir(href, remote_dir) {
                            Ok(planned) => planned,
                            Err(error) => {
                                proof {
                                    lemma_fetch_run_stops(
                                        config,
                                        remote_dir@,
                                        start,
                                        all,
                                        i as int + 1,
                                    );
                                }
                                return Err(error);
                            },
                        }
                    },
                };
                if let Some(fetch) = planned {
                    let ghost before = plan@;
                    plan.push(fetch);
                    assert(fetch_views(plan@) =~= fetch_views(before).push(fetch@));
                }
            }
            i += 1;
        }
        proof {
            assert(all.take(i as int) =~= all);
        }
        Ok(plan)
    }

    /// Plans one pass over the listing `server_files` of `remote_dir`:
    /// what only the manifest knows is dropped from it and its removal
    /// planned; what is new or changed on the remote side is recorded and
    /// its fetch planned. The caller carries out the plan in order and then
    /// persists the manifest; on an error it does neither.
    pub fn sync(&mut self, remote_dir: &str, server_files: Vec<RemoteEntity>) -> (r: AppResult<
        SyncPlan,
    >)
        ensures
            final(self).settings() == old(self).settings(),
            valid(final(self).manifest()),
            final(self).manifest() == pass(
                old(self).settings(),
                remote_dir@,
                old(self).manifest(),
                entity_views(server_files@),
            ).manifest,
            match r {
                Ok(plan) => {
                    let planned = pass(
                        old(self).settings(),
                        remote_dir@,
                        old(self).manifest(),
                        entity_views(server_files@),
                    );
                    &&& planned.error is None
                    &&& deletion_views(plan.deletions@) == planned.deletions
                    &&& fetch_views(plan.fetches@) == planned.fetches
                },
                Err(error) => pass(
                    old(self).settings(),
                    remote_dir@,
                    old(self).manifest(),
                    entity_views(server_files@),
                ).error == Some(error),
            },
    {
        self.manifest_is_valid();
        let server = ServerVersion::from_entities(server_files.as_slice());
        if !Version::reconcilable(&server, &self.local_version) {
            return Err(SyncError::KindChanged);
        }
        let service = VersionService::init(self.local_version.clone(), server_files);
        let to_delete = service.version().files_to_remove();
        let deletions = match self.delete_locals(to_delete) {
            Ok(deletions) => deletions,
            Err(error) => {
                return Err(error);
            },
        };
        let wanted = service.entities_to_download();
        let fetches = match self.apply_sync(remote_dir, wanted) {
            Ok(fetches) => fetches,
            Err(error) => {
                return Err(error);
            },
        };
        Ok(SyncPlan { deletions, fetches })
    }
}

} // verus!
