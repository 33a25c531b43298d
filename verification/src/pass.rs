//! What one pass does, as mathematics: the deletions and fetches that it
//! plans and the manifest that it leaves, as functions of the settings, the
//! manifest and the listing.

use crate::config::ConfigView;
use crate::href::decoded_text;
use crate::href_map::lists_keys;
use crate::href::path_of_url;
use crate::result::SyncError;
use crate::text::after_bytes;
use crate::text::is_substring;
use crate::text::join_path;
use crate::text::path_under;
use crate::text::splits_at;
use crate::versions::entity_wanted;
use crate::versions::is_local;
use crate::versions::listing_hrefs;
use crate::versions::listing_map;
use crate::versions::reconcilable;
use crate::versions::reconcile;
use crate::versions::reconcile_hrefs;
use crate::versions::LocalFileView;
use crate::versions::LocalVersion;
use crate::versions::RemoteEntityView;
use crate::versions::Timestamp;
use vstd::prelude::*;

verus! {

/// A manifest as a value: its entries and the order of its hrefs.
pub struct ManifestView {
    pub files: Map<Seq<char>, LocalFileView>,
    pub hrefs: Seq<Seq<char>>,
}

impl ManifestView {
    /// The manifest with `entry` stored for `href`.
    pub open spec fn upsert(self, href: Seq<char>, entry: LocalFileView) -> ManifestView {
        ManifestView {
            files: self.files.insert(href, entry),
            hrefs: if self.files.contains_key(href) {
                self.hrefs
            } else {
                self.hrefs.push(href)
            },
        }
    }

    /// The manifest without `href`.
    pub open spec fn without(self, href: Seq<char>) -> ManifestView {
        ManifestView { files: self.files.remove(href), hrefs: self.hrefs.remove_value(href) }
    }
}

/// A manifest is valid where its list of hrefs holds each href of its
/// entries once. Every manifest that the library hands out is valid.
pub open spec fn valid(manifest: ManifestView) -> bool {
    lists_keys(manifest.hrefs, manifest.files)
}

/// The value of a manifest.
pub open spec fn manifest_of(local: LocalVersion) -> ManifestView {
    ManifestView { files: local@, hrefs: local.hrefs() }
}

/// The decoded path matches the black list: it equals or contains one of
/// the fragments.
pub open spec fn excluded_by(decoded: Seq<char>, black_list: Seq<Seq<char>>) -> bool {
    exists|i: int|
        0 <= i < black_list.len() && (decoded == #[trigger] black_list[i] || is_substring(
            black_list[i],
            decoded,
        ))
}

/// Whether `href` is to be skipped, or the error of decoding it.
pub open spec fn black_listed(black_list: Seq<Seq<char>>, href: Seq<char>) -> Result<
    bool,
    SyncError,
> {
    match decoded_text(href) {
        Ok(decoded) => Ok(excluded_by(decoded, black_list)),
        Err(error) => Err(error),
    }
}

/// `href` without its first bytes, as many as `root` has.
pub open spec fn cut_root(root: Seq<char>, href: Seq<char>) -> Result<Seq<char>, SyncError> {
    let n = vstd::utf8::encode_utf8(root).len() as int;
    if splits_at(href, n) {
        Ok(after_bytes(href, n))
    } else {
        Err(SyncError::OutsideRoot)
    }
}

/// The part of `href` below the path of the URL `base`, still encoded.
pub open spec fn below(base: Seq<char>, href: Seq<char>) -> Result<Seq<char>, SyncError> {
    match path_of_url(base) {
        Ok(root) => cut_root(root, href),
        Err(error) => Err(error),
    }
}

/// The remote-relative and the local path of an href.
pub struct DavPathsView {
    pub remote: Seq<char>,
    pub local: Seq<char>,
}

/// The paths that belong to the decoded relative path `relative`.
pub open spec fn paths_in(out_dir: Seq<char>, relative: Seq<char>) -> DavPathsView {
    DavPathsView { remote: relative, local: join_path(out_dir, relative) }
}

/// The paths of `href` in a sync of `remote_dir`: the part of the href
/// below the listing root, decoded, and that path within the output
/// directory.
pub open spec fn dav_paths(config: ConfigView, remote_dir: Seq<char>, href: Seq<char>) -> Result<
    DavPathsView,
    SyncError,
> {
    match below(config.host + remote_dir, href) {
        Ok(raw) => match decoded_text(raw) {
            Ok(relative) => Ok(paths_in(config.out_dir, relative)),
            Err(error) => Err(error),
        },
        Err(error) => Err(error),
    }
}

/// A planned change of the local tree that brings something in.
pub enum FetchView {
    /// Create the directory `path`.
    CreateDir { href: Seq<char>, path: Seq<char> },
    /// Download `uri` from the host and write it to `local`.
    Download {
        href: Seq<char>,
        uri: Seq<char>,
        remote: Seq<char>,
        local: Seq<char>,
        last_modified: Timestamp,
    },
}

impl FetchView {
    /// The href that is fetched.
    pub open spec fn href(self) -> Seq<char> {
        match self {
            FetchView::CreateDir { href, .. } => href,
            FetchView::Download { href, .. } => href,
        }
    }

    /// The manifest entry that records the fetch.
    pub open spec fn entry(self) -> LocalFileView {
        match self {
            FetchView::CreateDir { path, .. } => LocalFileView {
                path,
                is_dir: true,
                last_modified: None,
            },
            FetchView::Download { local, last_modified, .. } => LocalFileView {
                path: local,
                is_dir: false,
                last_modified: Some(last_modified),
            },
        }
    }
}

/// What is to be done for a listed directory that is not black-listed:
/// nothing where it is the listing root itself, else its creation.
pub open spec fn directory_fetch(config: ConfigView, remote_dir: Seq<char>, href: Seq<char>) -> Result<
    Option<FetchView>,
    SyncError,
> {
    match below(config.host + remote_dir, href) {
        Ok(raw) => if raw.len() == 0 {
            Ok(None)
        } else {
            match decoded_text(raw) {
                Ok(relative) => Ok(
                    Some(FetchView::CreateDir { href, path: join_path(config.out_dir, relative) }),
                ),
                Err(error) => Err(error),
            }
        },
        Err(error) => Err(error),
    }
}

/// What is to be done for a listed file that is not black-listed: its
/// download from the part of its href below the host's path.
pub open spec fn file_fetch(
    config: ConfigView,
    remote_dir: Seq<char>,
    href: Seq<char>,
    last_modified: Timestamp,
) -> Result<FetchView, SyncError> {
    match below(config.host, href) {
        Ok(uri) => match dav_paths(config, remote_dir, href) {
            Ok(paths) => Ok(
                FetchView::Download {
                    href,
                    uri,
                    remote: paths.remote,
                    local: paths.local,
                    last_modified,
                },
            ),
            Err(error) => Err(error),
        },
        Err(error) => Err(error),
    }
}

/// What is to be done for an entity that is to be fetched.
pub open spec fn fetch_of(config: ConfigView, remote_dir: Seq<char>, entity: RemoteEntityView) -> Result<
    Option<FetchView>,
    SyncError,
> {
    match black_listed(config.black_list, entity.href()) {
        Ok(true) => Ok(None),
        Ok(false) => match entity {
            RemoteEntityView::Directory { href } => directory_fetch(config, remote_dir, href),
            RemoteEntityView::File { href, last_modified } => match file_fetch(
                config,
                remote_dir,
                href,
                last_modified,
            ) {
                Ok(fetch) => Ok(Some(fetch)),
                Err(error) => Err(error),
            },
        },
        Err(error) => Err(error),
    }
}

/// The manifest and the fetches planned so far.
pub struct FetchState {
    pub manifest: ManifestView,
    pub plan: Seq<FetchView>,
}

impl FetchState {
    /// The state after `fetch` has been planned and recorded.
    pub open spec fn with(self, fetch: FetchView) -> FetchState {
        FetchState {
            manifest: self.manifest.upsert(fetch.href(), fetch.entry()),
            plan: self.plan.push(fetch),
        }
    }
}

/// Plans the fetches of `entities` in order, from `start` on. It stops at
/// the first entity that gives an error and returns the state reached with
/// that error.
pub open spec fn fetch_run(
    config: ConfigView,
    remote_dir: Seq<char>,
    start: FetchState,
    entities: Seq<RemoteEntityView>,
) -> (FetchState, Option<SyncError>)
    decreases entities.len(),
{
    if entities.len() == 0 {
        (start, None)
    } else {
        let (state, error) = fetch_run(config, remote_dir, start, entities.drop_last());
        if error is Some {
            (state, error)
        } else {
            match fetch_of(config, remote_dir, entities.last()) {
                Err(error) => (state, Some(error)),
                Ok(None) => (state, None),
                Ok(Some(fetch)) => (state.with(fetch), None),
            }
        }
    }
}

/// Once a run has stopped with an error, more entities change nothing.
pub proof fn lemma_fetch_run_stops(
    config: ConfigView,
    remote_dir: Seq<char>,
    start: FetchState,
    entities: Seq<RemoteEntityView>,
    k: int,
)
    requires
        0 <= k <= entities.len(),
        fetch_run(config, remote_dir, start, entities.take(k)).1 is Some,
    ensures
        fetch_run(config, remote_dir, start, entities) == fetch_run(
            config,
            remote_dir,
            start,
            entities.take(k),
        ),
    decreases entities.len() - k,
{
    if k < entities.len() {
        assert(entities.take(k + 1).drop_last() =~= entities.take(k));
        lemma_fetch_run_stops(config, remote_dir, start, entities, k + 1);
    } else {
        assert(entities.take(k) =~= entities);
    }
}

/// A planned removal from the local tree.
pub enum DeletionView {
    /// Remove the directory `path` with all that is in it.
    Directory { path: Seq<char> },
    /// Remove the file `path`.
    File { path: Seq<char> },
}

/// `path` is one of `roots` or lies below one.
pub open spec fn under_any(path: Seq<char>, roots: Seq<Seq<char>>) -> bool {
    exists|i: int| 0 <= i < roots.len() && path_under(path, #[trigger] roots[i])
}

/// The manifest, the directories whose removal is planned, and the
/// removals planned so far.
pub struct DeleteState {
    pub manifest: ManifestView,
    pub roots: Seq<Seq<char>>,
    pub plan: Seq<DeletionView>,
}

/// Drops the entry of `href` and plans the removal of what it stands for:
/// of a directory always, of a file unless it lies under a directory whose
/// removal is planned already. `None` where the manifest has no such entry.
pub open spec fn delete_step(state: DeleteState, href: Seq<char>) -> Option<DeleteState> {
    if !state.manifest.files.contains_key(href) {
        None
    } else {
        let entry = state.manifest.files[href];
        let manifest = state.manifest.without(href);
        if entry.is_dir {
            Some(
                DeleteState {
                    manifest,
                    roots: state.roots.push(entry.path),
                    plan: state.plan.push(DeletionView::Directory { path: entry.path }),
                },
            )
        } else if under_any(entry.path, state.roots) {
            Some(DeleteState { manifest, roots: state.roots, plan: state.plan })
        } else {
            Some(
                DeleteState {
                    manifest,
                    roots: state.roots,
                    plan: state.plan.push(DeletionView::File { path: entry.path }),
                },
            )
        }
    }
}

/// Takes the steps for `hrefs` in order, from `start` on. It stops at the
/// first href that the manifest does not hold and returns the state
/// reached, with `false`.
pub open spec fn delete_run(start: DeleteState, hrefs: Seq<Seq<char>>) -> (DeleteState, bool)
    decreases hrefs.len(),
{
    if hrefs.len() == 0 {
        (start, true)
    } else {
        let (state, complete) = delete_run(start, hrefs.drop_last());
        if !complete {
            (state, false)
        } else {
            match delete_step(state, hrefs.last()) {
                None => (state, false),
                Some(next) => (next, true),
            }
        }
    }
}

/// Once a run has stopped, more hrefs change nothing.
pub proof fn lemma_delete_run_stops(start: DeleteState, hrefs: Seq<Seq<char>>, k: int)
    requires
        0 <= k <= hrefs.len(),
        !delete_run(start, hrefs.take(k)).1,
    ensures
        delete_run(start, hrefs) == delete_run(start, hrefs.take(k)),
    decreases hrefs.len() - k,
{
    if k < hrefs.len() {
        assert(hrefs.take(k + 1).drop_last() =~= hrefs.take(k));
        lemma_delete_run_stops(start, hrefs, k + 1);
    } else {
        assert(hrefs.take(k) =~= hrefs);
    }
}

/// The state in which deleting starts.
pub open spec fn delete_start(manifest: ManifestView) -> DeleteState {
    DeleteState { manifest, roots: Seq::empty(), plan: Seq::empty() }
}

/// The state in which fetching starts.
pub open spec fn fetch_start(manifest: ManifestView) -> FetchState {
    FetchState { manifest, plan: Seq::empty() }
}

/// No file is removed after a directory that it lies under.
pub open spec fn no_double_delete(plan: Seq<DeletionView>) -> bool {
    forall|i: int, j: int|
        0 <= i < j < plan.len() ==> match (#[trigger] plan[i], #[trigger] plan[j]) {
            (DeletionView::Directory { path: root }, DeletionView::File { path }) => !path_under(
                path,
                root,
            ),
            _ => true,
        }
}

/// The outcome of a pass: the manifest it leaves and, where `error` is
/// `None`, the removals and fetches to carry out, in this order.
pub struct PassView {
    pub manifest: ManifestView,
    pub deletions: Seq<DeletionView>,
    pub fetches: Seq<FetchView>,
    pub error: Option<SyncError>,
}

/// One pass over the listing `entities`: reconcile, drop and plan the
/// removal of what only the manifest knows, then plan and record the
/// fetch of what is new or changed on the remote side.
pub open spec fn pass(
    config: ConfigView,
    remote_dir: Seq<char>,
    manifest: ManifestView,
    entities: Seq<RemoteEntityView>,
) -> PassView {
    let server = listing_map(entities);
    if !reconcilable(manifest.files, server) {
        PassView {
            manifest,
            deletions: Seq::empty(),
            fetches: Seq::empty(),
            error: Some(SyncError::KindChanged),
        }
    } else {
        let statuses = reconcile(manifest.files, server);
        let order = reconcile_hrefs(manifest.hrefs, manifest.files, listing_hrefs(entities));
        let (deleted, complete) = delete_run(delete_start(manifest), order.filter(is_local(statuses)));
        if !complete {
            PassView {
                manifest: deleted.manifest,
                deletions: deleted.plan,
                fetches: Seq::empty(),
                error: Some(SyncError::Invariant),
            }
        } else {
            let (fetched, error) = fetch_run(
                config,
                remote_dir,
                fetch_start(deleted.manifest),
                entities.filter(entity_wanted(statuses)),
            );
            PassView {
                manifest: fetched.manifest,
                deletions: deleted.plan,
                fetches: fetched.plan,
                error,
            }
        }
    }
}

} // verus!
