//! What holds of every pass.

use crate::config::ConfigView;
use crate::href_map::lists_keys;
use crate::pass::black_listed;
use crate::pass::delete_run;
use crate::pass::delete_start;
use crate::pass::delete_step;
use crate::pass::fetch_of;
use crate::pass::fetch_run;
use crate::pass::fetch_start;
use crate::pass::no_double_delete;
use crate::pass::pass;
use crate::pass::under_any;
use crate::pass::valid;
use crate::pass::DeleteState;
use crate::pass::DeletionView;
use crate::pass::FetchState;
use crate::pass::FetchView;
use crate::pass::ManifestView;
use crate::pass::PassView;
use crate::result::SyncError;
use crate::text::path_under;
use crate::versions::absent_from;
use crate::versions::entity_wanted;
use crate::versions::is_local;
use crate::versions::is_wanted;
use crate::versions::listing_hrefs;
use crate::versions::listing_map;
use crate::versions::reconcilable;
use crate::versions::reconcile;
use crate::versions::reconcile_hrefs;
use crate::versions::status_of;
use crate::versions::LocalFileView;
use crate::versions::RemoteEntityView;
use crate::versions::Status;
use vstd::prelude::*;

verus! {

/// Storing an entry keeps a manifest valid.
pub proof fn lemma_upsert_valid(manifest: ManifestView, href: Seq<char>, entry: LocalFileView)
    requires
        valid(manifest),
    ensures
        valid(manifest.upsert(href, entry)),
{
    let after = manifest.upsert(href, entry);
    if manifest.files.contains_key(href) {
        assert(manifest.hrefs.contains(href));
        assert forall|key: Seq<char>| after.hrefs.contains(key) <==> after.files.contains_key(
            key,
        ) by {}
    } else {
        assert(!manifest.hrefs.contains(href));
        let n = manifest.hrefs.len() as int;
        assert(after.hrefs[n] == href);
        assert forall|i: int, j: int| 0 <= i < after.hrefs.len() && 0 <= j < after.hrefs.len() && i
            != j implies after.hrefs[i] != after.hrefs[j] by {
            if i < n {
                assert(manifest.hrefs[i] == after.hrefs[i]);
                assert(manifest.hrefs.contains(after.hrefs[i]));
            }
            if j < n {
                assert(manifest.hrefs[j] == after.hrefs[j]);
                assert(manifest.hrefs.contains(after.hrefs[j]));
            }
        }
        assert forall|key: Seq<char>| after.hrefs.contains(key) <==> after.files.contains_key(
            key,
        ) by {
            if after.hrefs.contains(key) {
                let i = choose|i: int| 0 <= i < after.hrefs.len() && after.hrefs[i] == key;
                if i < n {
                    assert(manifest.hrefs[i] == key);
                    assert(manifest.hrefs.contains(key));
                }
            }
            if manifest.hrefs.contains(key) {
                let i = choose|i: int| 0 <= i < manifest.hrefs.len() && manifest.hrefs[i] == key;
                assert(after.hrefs[i] == key);
            }
        }
    }
}

/// Dropping an entry keeps a manifest valid.
pub proof fn lemma_without_valid(manifest: ManifestView, href: Seq<char>)
    requires
        valid(manifest),
    ensures
        valid(manifest.without(href)),
{
    let after = manifest.without(href);
    manifest.hrefs.index_of_first_ensures(href);
    match manifest.hrefs.index_of_first(href) {
        None => {
            assert(after.files =~= manifest.files);
        },
        Some(at) => {
            let before = manifest.hrefs;
            assert(after.hrefs == before.remove(at));
            assert forall|i: int| 0 <= i < after.hrefs.len() implies after.hrefs[i] == before[if i
                < at {
                i
            } else {
                i + 1
            }] by {}
            assert forall|i: int, j: int| 0 <= i < after.hrefs.len() && 0 <= j < after.hrefs.len()
                && i != j implies after.hrefs[i] != after.hrefs[j] by {
                let i0 = if i < at {
                    i
                } else {
                    i + 1
                };
                let j0 = if j < at {
                    j
                } else {
                    j + 1
                };
                assert(after.hrefs[i] == before[i0]);
                assert(after.hrefs[j] == before[j0]);
            }
            assert forall|key: Seq<char>| after.hrefs.contains(key) <==> after.files.contains_key(
                key,
            ) by {
                if after.hrefs.contains(key) {
                    let i = choose|i: int| 0 <= i < after.hrefs.len() && after.hrefs[i] == key;
                    let i0 = if i < at {
                        i
                    } else {
                        i + 1
                    };
                    assert(before[i0] == key);
                    assert(before.contains(key));
                }
                if after.files.contains_key(key) {
                    assert(before.contains(key));
                    let i0 = choose|i: int| 0 <= i < before.len() && before[i] == key;
                    let i = if i0 < at {
                        i0
                    } else {
                        i0 - 1
                    };
                    assert(after.hrefs[i] == key);
                }
            }
        },
    }
}

/// Every directory whose removal is planned is among the roots.
pub open spec fn roots_cover(roots: Seq<Seq<char>>, plan: Seq<DeletionView>) -> bool {
    forall|k: int|
        0 <= k < plan.len() ==> match #[trigger] plan[k] {
            DeletionView::Directory { path } => roots.contains(path),
            DeletionView::File { .. } => true,
        }
}

/// A step keeps the manifest valid and the plan free of double deletes.
pub proof fn lemma_delete_step(state: DeleteState, href: Seq<char>)
    requires
        valid(state.manifest),
        roots_cover(state.roots, state.plan),
        no_double_delete(state.plan),
        state.manifest.files.contains_key(href),
    ensures
        delete_step(state, href) is Some,
        valid(delete_step(state, href).unwrap().manifest),
        roots_cover(delete_step(state, href).unwrap().roots, delete_step(state, href).unwrap().plan),
        no_double_delete(delete_step(state, href).unwrap().plan),
        delete_step(state, href).unwrap().manifest.files == state.manifest.files.remove(href),
{
    lemma_without_valid(state.manifest, href);
    let next = delete_step(state, href).unwrap();
    let entry = state.manifest.files[href];
    let n = state.plan.len() as int;
    if entry.is_dir {
        assert(next.roots[state.roots.len() as int] == entry.path);
        assert forall|k: int| 0 <= k < next.plan.len() implies match #[trigger] next.plan[k] {
            DeletionView::Directory { path } => next.roots.contains(path),
            DeletionView::File { .. } => true,
        } by {
            if k < n {
                assert(next.plan[k] == state.plan[k]);
                match state.plan[k] {
                    DeletionView::Directory { path } => {
                        let at = choose|at: int| 0 <= at < state.roots.len() && state.roots[at] == path;
                        assert(next.roots[at] == path);
                    },
                    DeletionView::File { .. } => {},
                }
            }
        }
        assert forall|i: int, j: int| 0 <= i < j < next.plan.len() implies match (
            #[trigger] next.plan[i],
            #[trigger] next.plan[j],
        ) {
            (DeletionView::Directory { path: root }, DeletionView::File { path }) => !path_under(
                path,
                root,
            ),
            _ => true,
        } by {
            if j < n {
                assert(next.plan[i] == state.plan[i]);
                assert(next.plan[j] == state.plan[j]);
            }
        }
    } else if under_any(entry.path, state.roots) {
    } else {
        assert forall|k: int| 0 <= k < next.plan.len() implies match #[trigger] next.plan[k] {
            DeletionView::Directory { path } => next.roots.contains(path),
            DeletionView::File { .. } => true,
        } by {
            if k < n {
                assert(next.plan[k] == state.plan[k]);
            }
        }
        assert forall|i: int, j: int| 0 <= i < j < next.plan.len() implies match (
            #[trigger] next.plan[i],
            #[trigger] next.plan[j],
        ) {
            (DeletionView::Directory { path: root }, DeletionView::File { path }) => !path_under(
                path,
                root,
            ),
            _ => true,
        } by {
            assert(next.plan[i] == state.plan[i]);
            if j < n {
                assert(next.plan[j] == state.plan[j]);
            } else {
                match state.plan[i] {
                    DeletionView::Directory { path: root } => {
                        let at = choose|at: int| 0 <= at < state.roots.len() && state.roots[at] == root;
                        assert(state.roots[at] == root);
                    },
                    DeletionView::File { .. } => {},
                }
            }
        }
    }
}

/// What a run of deletions does. It completes exactly where `hrefs` names
/// entries of the manifest and none of them twice; it then leaves the
/// manifest without them. Whether it completes or not, the manifest stays
/// valid, no entry changes, and no file is removed after a directory that
/// it lies under.
pub proof fn lemma_delete_run(start: DeleteState, hrefs: Seq<Seq<char>>)
    requires
        valid(start.manifest),
        roots_cover(start.roots, start.plan),
        no_double_delete(start.plan),
    ensures
        valid(delete_run(start, hrefs).0.manifest),
        roots_cover(delete_run(start, hrefs).0.roots, delete_run(start, hrefs).0.plan),
        no_double_delete(delete_run(start, hrefs).0.plan),
        forall|href: Seq<char>| #[trigger]
            delete_run(start, hrefs).0.manifest.files.contains_key(href)
                ==> start.manifest.files.contains_key(href) && delete_run(
                start,
                hrefs,
            ).0.manifest.files[href] == start.manifest.files[href],
        delete_run(start, hrefs).1 <==> hrefs.no_duplicates() && forall|i: int|
            0 <= i < hrefs.len() ==> start.manifest.files.contains_key(#[trigger] hrefs[i]),
        delete_run(start, hrefs).1 ==> forall|href: Seq<char>| #[trigger]
            delete_run(start, hrefs).0.manifest.files.contains_key(href)
                <==> start.manifest.files.contains_key(href) && !hrefs.contains(href),
    decreases hrefs.len(),
{
    if hrefs.len() > 0 {
        let before = hrefs.drop_last();
        let last = hrefs.last();
        lemma_delete_run(start, before);
        let (state, complete) = delete_run(start, before);
        assert forall|i: int| 0 <= i < before.len() implies before[i] == hrefs[i] by {}
        if complete {
            if state.manifest.files.contains_key(last) {
                lemma_delete_step(state, last);
                let next = delete_step(state, last).unwrap();
                assert(!before.contains(last));
                assert(hrefs.no_duplicates()) by {
                    assert forall|i: int, j: int|
                        0 <= i < hrefs.len() && 0 <= j < hrefs.len() && i != j implies hrefs[i]
                        != hrefs[j] by {
                        if i < before.len() && j < before.len() {
                            assert(before[i] != before[j]);
                        } else if i < before.len() {
                            assert(before.contains(before[i]));
                        } else {
                            assert(before.contains(before[j]));
                        }
                    }
                }
                assert forall|href: Seq<char>| #[trigger]
                    next.manifest.files.contains_key(href) <==> start.manifest.files.contains_key(
                        href,
                    ) && !hrefs.contains(href) by {
                    if hrefs.contains(href) {
                        let i = choose|i: int| 0 <= i < hrefs.len() && hrefs[i] == href;
                        if i < before.len() {
                            assert(before[i] == href);
                            assert(before.contains(href));
                        }
                    }
                    if before.contains(href) {
                        let i = choose|i: int| 0 <= i < before.len() && before[i] == href;
                        assert(hrefs[i] == href);
                    }
                    assert(hrefs[hrefs.len() - 1] == last);
                }
            } else {
                if start.manifest.files.contains_key(last) {
                    assert(before.contains(last));
                    let i = choose|i: int| 0 <= i < before.len() && before[i] == last;
                    assert(hrefs[i] == hrefs[hrefs.len() - 1]);
                    assert(!hrefs.no_duplicates());
                } else {
                    assert(hrefs[hrefs.len() - 1] == last);
                }
            }
        } else {
            if before.no_duplicates() {
                let i = choose|i: int|
                    0 <= i < before.len() && !start.manifest.files.contains_key(#[trigger] before[i]);
                assert(hrefs[i] == before[i]);
            } else {
                let (i, j) = choose|i: int, j: int|
                    0 <= i < before.len() && 0 <= j < before.len() && i != j && before[i]
                        == before[j];
                assert(hrefs[i] == hrefs[j]);
            }
        }
    }
}

/// No double delete: whatever is deleted, and in whatever order, no file
/// is removed after a directory that it lies under; and deleting hrefs
/// that the manifest holds, each once, does not fail.
pub proof fn lemma_no_double_delete(manifest: ManifestView, hrefs: Seq<Seq<char>>)
    requires
        valid(manifest),
    ensures
        no_double_delete(delete_run(delete_start(manifest), hrefs).0.plan),
        hrefs.no_duplicates() && (forall|i: int|
            0 <= i < hrefs.len() ==> manifest.files.contains_key(#[trigger] hrefs[i]))
            ==> delete_run(delete_start(manifest), hrefs).1,
{
    lemma_delete_run(delete_start(manifest), hrefs);
}

/// Partition: the reconciliation gives a status to exactly the hrefs that
/// the manifest or the listing knows, and the four statuses divide them by
/// four conditions of which exactly one holds of each href.
pub proof fn lemma_status_partition(
    local: Map<Seq<char>, LocalFileView>,
    server: Map<Seq<char>, RemoteEntityView>,
    href: Seq<char>,
)
    ensures
        reconcile(local, server).contains_key(href) <==> local.contains_key(href)
            || server.contains_key(href),
        reconcile(local, server).contains_key(href) ==> {
            let status = reconcile(local, server)[href];
            let stored = local.contains_key(href);
            let listed = server.contains_key(href);
            let same = match server[href] {
                RemoteEntityView::Directory { .. } => true,
                RemoteEntityView::File { last_modified, .. } => local[href].last_modified == Some(
                    last_modified,
                ),
            };
            &&& status == Status::Local <==> stored && !listed
            &&& status == Status::Server <==> !stored && listed
            &&& status == Status::OutOfDate <==> stored && listed && !same
            &&& status == Status::Sync <==> stored && listed && same
        },
        !(is_local(reconcile(local, server))(href) && is_wanted(reconcile(local, server))(href)),
{
}

/// What a filter keeps: the members that meet the predicate, and no member
/// twice where there was none twice before.
pub proof fn lemma_filter_members<A>(s: Seq<A>, pred: spec_fn(A) -> bool)
    ensures
        forall|x: A| #[trigger] s.filter(pred).contains(x) <==> s.contains(x) && pred(x),
        s.no_duplicates() ==> s.filter(pred).no_duplicates(),
    decreases s.len(),
{
    reveal(Seq::filter);
    if s.len() > 0 {
        let before = s.drop_last();
        let last = s.last();
        lemma_filter_members(before, pred);
        let kept = before.filter(pred);
        let out = s.filter(pred);
        assert forall|x: A| #[trigger] out.contains(x) <==> s.contains(x) && pred(x) by {
            if out.contains(x) {
                let i = choose|i: int| 0 <= i < out.len() && out[i] == x;
                if i < kept.len() {
                    assert(kept[i] == x);
                    assert(kept.contains(x));
                    let j = choose|j: int| 0 <= j < before.len() && before[j] == x;
                    assert(s[j] == x);
                } else {
                    assert(s[s.len() - 1] == x);
                }
            }
            if s.contains(x) && pred(x) {
                let j = choose|j: int| 0 <= j < s.len() && s[j] == x;
                if j < before.len() {
                    assert(before[j] == x);
                    assert(before.contains(x));
                    assert(kept.contains(x));
                    let i = choose|i: int| 0 <= i < kept.len() && kept[i] == x;
                    assert(out[i] == x);
                } else {
                    assert(out[out.len() - 1] == x);
                }
            }
        }
        if s.no_duplicates() {
            assert forall|i: int, j: int|
                0 <= i < before.len() && 0 <= j < before.len() && i != j implies before[i]
                != before[j] by {
                assert(s[i] != s[j]);
            }
            if pred(last) {
                assert(!kept.contains(last)) by {
                    if kept.contains(last) {
                        assert(before.contains(last));
                        let j = choose|j: int| 0 <= j < before.len() && before[j] == last;
                        assert(s[j] == s[s.len() - 1]);
                    }
                }
                assert forall|i: int, j: int|
                    0 <= i < out.len() && 0 <= j < out.len() && i != j implies out[i] != out[j] by {
                    if i < kept.len() && j < kept.len() {
                        assert(kept[i] != kept[j]);
                    } else if i < kept.len() {
                        assert(kept.contains(kept[i]));
                    } else {
                        assert(kept.contains(kept[j]));
                    }
                }
            }
        }
    }
}

/// A listing as a mapping: its hrefs are those that are listed, each is
/// listed in `listing_hrefs` once, and each stands for an entity of the
/// listing that has this href.
pub proof fn lemma_listing(entities: Seq<RemoteEntityView>)
    ensures
        lists_keys(listing_hrefs(entities), listing_map(entities)),
        forall|k: int|
            0 <= k < entities.len() ==> listing_map(entities).contains_key(
                (#[trigger] entities[k]).href(),
            ),
        forall|href: Seq<char>| #[trigger]
            listing_map(entities).contains_key(href) ==> listing_map(entities)[href].href() == href
                && entities.contains(listing_map(entities)[href]),
    decreases entities.len(),
{
    if entities.len() > 0 {
        let before = entities.drop_last();
        let last = entities.last();
        lemma_listing(before);
        let hrefs = listing_hrefs(before);
        let after = listing_hrefs(entities);
        assert forall|k: int| 0 <= k < entities.len() implies listing_map(entities).contains_key(
            (#[trigger] entities[k]).href(),
        ) by {
            if k < before.len() {
                assert(before[k] == entities[k]);
            }
        }
        assert forall|href: Seq<char>| #[trigger]
            listing_map(entities).contains_key(href) implies listing_map(entities)[href].href()
            == href && entities.contains(listing_map(entities)[href]) by {
            if href == last.href() {
                assert(entities[entities.len() - 1] == last);
            } else {
                let e = listing_map(before)[href];
                let j = choose|j: int| 0 <= j < before.len() && before[j] == e;
                assert(entities[j] == e);
            }
        }
        lemma_upsert_valid(
            ManifestView { files: Map::<Seq<char>, LocalFileView>::empty(), hrefs: Seq::empty() },
            last.href(),
            LocalFileView { path: Seq::empty(), is_dir: true, last_modified: None },
        );
        if hrefs.contains(last.href()) {
            assert forall|key: Seq<char>| after.contains(key) <==> listing_map(
                entities,
            ).contains_key(key) by {}
        } else {
            let n = hrefs.len() as int;
            assert(after[n] == last.href());
            assert forall|i: int, j: int|
                0 <= i < after.len() && 0 <= j < after.len() && i != j implies after[i]
                != after[j] by {
                if i < n {
                    assert(hrefs[i] == after[i]);
                    assert(hrefs.contains(after[i]));
                }
                if j < n {
                    assert(hrefs[j] == after[j]);
                    assert(hrefs.contains(after[j]));
                }
            }
            assert forall|key: Seq<char>| after.contains(key) <==> listing_map(
                entities,
            ).contains_key(key) by {
                if after.contains(key) {
                    let i = choose|i: int| 0 <= i < after.len() && after[i] == key;
                    if i < n {
                        assert(hrefs[i] == key);
                        assert(hrefs.contains(key));
                    }
                }
                if hrefs.contains(key) {
                    let i = choose|i: int| 0 <= i < hrefs.len() && hrefs[i] == key;
                    assert(after[i] == key);
                }
            }
        }
    }
}

/// What is planned for an entity is planned for its href, and only where
/// the href is not black-listed; for a file that is not black-listed
/// something is planned unless there is an error; and a planned download
/// records the remote timestamp.
pub proof fn lemma_fetch_of(config: ConfigView, remote_dir: Seq<char>, entity: RemoteEntityView)
    ensures
        match fetch_of(config, remote_dir, entity) {
            Ok(Some(fetch)) => {
                &&& fetch.href() == entity.href()
                &&& black_listed(config.black_list, entity.href()) == Ok::<bool, SyncError>(false)
                &&& match entity {
                    RemoteEntityView::File { last_modified, .. } => fetch.entry().last_modified
                        == Some(last_modified),
                    RemoteEntityView::Directory { .. } => true,
                }
            },
            Ok(None) => match entity {
                RemoteEntityView::File { .. } => black_listed(config.black_list, entity.href())
                    == Ok::<bool, SyncError>(true),
                RemoteEntityView::Directory { .. } => true,
            },
            Err(_) => true,
        },
        black_listed(config.black_list, entity.href()) == Ok::<bool, SyncError>(true)
            ==> fetch_of(config, remote_dir, entity) == Ok::<Option<FetchView>, SyncError>(None),
        fetch_of(config, remote_dir, entity) matches Err(error) ==> fetch_error(error),
{
}

/// The errors that planning a fetch can give.
pub open spec fn fetch_error(error: SyncError) -> bool {
    error == SyncError::Url || error == SyncError::Encoding || error == SyncError::OutsideRoot
}

/// What the fetch phase of a pass does, from a valid manifest on, with
/// the entities of `entities` whose href is wanted by `statuses`.
pub proof fn lemma_fetch_wanted(
    config: ConfigView,
    remote_dir: Seq<char>,
    start: FetchState,
    entities: Seq<RemoteEntityView>,
    statuses: Map<Seq<char>, Status>,
)
    requires
        valid(start.manifest),
    ensures
        ({
            let run = fetch_run(
                config,
                remote_dir,
                start,
                entities.filter(entity_wanted(statuses)),
            );
            let files = run.0.manifest.files;
            let listed = listing_map(entities);
            &&& valid(run.0.manifest)
            &&& run.1 matches Some(error) ==> fetch_error(error)
            &&& start.plan.len() <= run.0.plan.len()
            &&& forall|i: int| 0 <= i < start.plan.len() ==> run.0.plan[i] == start.plan[i]
            &&& forall|i: int|
                start.plan.len() <= i < run.0.plan.len() ==> black_listed(
                    config.black_list,
                    (#[trigger] run.0.plan[i]).href(),
                ) == Ok::<bool, SyncError>(false)
            &&& forall|href: Seq<char>|
                start.manifest.files.contains_key(href) ==> #[trigger] files.contains_key(href)
            &&& forall|href: Seq<char>| #[trigger]
                files.contains_key(href) ==> start.manifest.files.contains_key(href)
                    || listed.contains_key(href)
            &&& forall|href: Seq<char>|
                (!is_wanted(statuses)(href) || black_listed(config.black_list, href) == Ok::<
                    bool,
                    SyncError,
                >(true)) && #[trigger] files.contains_key(href)
                    ==> start.manifest.files.contains_key(href) && files[href]
                    == start.manifest.files[href]
            &&& run.1 is None ==> forall|k: int|
                0 <= k < entities.len() && entity_wanted(statuses)(#[trigger] entities[k]) ==> {
                    &&& fetch_of(config, remote_dir, entities[k]) is Ok
                    &&& fetch_of(config, remote_dir, entities[k]) matches Ok(Some(_))
                        ==> files.contains_key(entities[k].href())
                }
            &&& run.1 is None ==> forall|href: Seq<char>|
                #[trigger] listed.contains_key(href) && is_wanted(statuses)(href) ==> (fetch_of(
                    config,
                    remote_dir,
                    listed[href],
                ) matches Ok(Some(fetch)) ==> files.contains_key(href) && files[href]
                    == fetch.entry())
        }),
    decreases entities.len(),
{
    reveal(Seq::filter);
    let wanted = entity_wanted(statuses);
    if entities.len() > 0 {
        let before = entities.drop_last();
        let last = entities.last();
        lemma_fetch_wanted(config, remote_dir, start, before, statuses);
        lemma_fetch_of(config, remote_dir, last);
        lemma_listing(before);
        lemma_listing(entities);
        let prev = fetch_run(config, remote_dir, start, before.filter(wanted));
        let run = fetch_run(config, remote_dir, start, entities.filter(wanted));
        let files = run.0.manifest.files;
        let listed = listing_map(entities);
        assert forall|k: int| 0 <= k < before.len() implies before[k] == entities[k] by {}
        if wanted(last) {
            let kept = before.filter(wanted).push(last);
            assert(entities.filter(wanted) == kept);
            assert(kept.drop_last() =~= before.filter(wanted));
            assert(kept.last() == last);
            if prev.1 is None {
                match fetch_of(config, remote_dir, last) {
                    Ok(Some(fetch)) => {
                        lemma_upsert_valid(prev.0.manifest, fetch.href(), fetch.entry());
                        assert(run.0 == prev.0.with(fetch));
                        assert(run.0.plan[prev.0.plan.len() as int] == fetch);
                    },
                    _ => {},
                }
            }
        } else {
            assert(entities.filter(wanted) == before.filter(wanted));
        }
        assert forall|href: Seq<char>| #[trigger]
            files.contains_key(href) implies start.manifest.files.contains_key(href)
            || listed.contains_key(href) by {
            if prev.0.manifest.files.contains_key(href) {
            }
        }
        if run.1 is None {
            assert forall|k: int|
                0 <= k < entities.len() && wanted(#[trigger] entities[k]) implies {
                &&& fetch_of(config, remote_dir, entities[k]) is Ok
                &&& fetch_of(config, remote_dir, entities[k]) matches Ok(Some(_))
                    ==> files.contains_key(entities[k].href())
            } by {
                if k < before.len() {
                    assert(before[k] == entities[k]);
                    assert(wanted(before[k]));
                }
            }
            assert forall|href: Seq<char>|
                #[trigger] listed.contains_key(href) && is_wanted(statuses)(href) implies (fetch_of(
                config,
                remote_dir,
                listed[href],
            ) matches Ok(Some(fetch)) ==> files.contains_key(href) && files[href]
                == fetch.entry()) by {
                if href != last.href() {
                    assert(listing_map(before).contains_key(href));
                    assert(listed[href] == listing_map(before)[href]);
                }
            }
        }
    }
}

/// Blacklist containment: a pass plans no fetch for a black-listed href
/// and never writes one to the manifest. Where the manifest holds such an
/// href after the pass, it holds the entry that it held before.
pub proof fn lemma_black_list_containment(
    config: ConfigView,
    remote_dir: Seq<char>,
    manifest: ManifestView,
    entities: Seq<RemoteEntityView>,
    href: Seq<char>,
)
    requires
        valid(manifest),
        black_listed(config.black_list, href) == Ok::<bool, SyncError>(true),
    ensures
        forall|i: int|
            0 <= i < pass(config, remote_dir, manifest, entities).fetches.len() ==> (#[trigger] pass(
                config,
                remote_dir,
                manifest,
                entities,
            ).fetches[i]).href() != href,
        pass(config, remote_dir, manifest, entities).manifest.files.contains_key(href)
            ==> manifest.files.contains_key(href) && pass(
            config,
            remote_dir,
            manifest,
            entities,
        ).manifest.files[href] == manifest.files[href],
{
    let server = listing_map(entities);
    if reconcilable(manifest.files, server) {
        let statuses = reconcile(manifest.files, server);
        let order = reconcile_hrefs(manifest.hrefs, manifest.files, listing_hrefs(entities));
        let to_remove = order.filter(is_local(statuses));
        lemma_delete_run(delete_start(manifest), to_remove);
        let deleted = delete_run(delete_start(manifest), to_remove);
        if deleted.1 {
            lemma_fetch_wanted(
                config,
                remote_dir,
                fetch_start(deleted.0.manifest),
                entities,
                statuses,
            );
        }
    }
}

/// A pass keeps a valid manifest valid, its removals never fail for want
/// of an entry, and no file is removed after a directory that it lies
/// under.
pub proof fn lemma_pass_sound(
    config: ConfigView,
    remote_dir: Seq<char>,
    manifest: ManifestView,
    entities: Seq<RemoteEntityView>,
)
    requires
        valid(manifest),
    ensures
        valid(pass(config, remote_dir, manifest, entities).manifest),
        pass(config, remote_dir, manifest, entities).error != Some(SyncError::Invariant),
        no_double_delete(pass(config, remote_dir, manifest, entities).deletions),
{
    let server = listing_map(entities);
    if reconcilable(manifest.files, server) {
        let statuses = reconcile(manifest.files, server);
        let listed = listing_hrefs(entities);
        let order = reconcile_hrefs(manifest.hrefs, manifest.files, listed);
        let to_remove = order.filter(is_local(statuses));
        lemma_listing(entities);
        lemma_local_hrefs(manifest, entities);
        lemma_delete_run(delete_start(manifest), to_remove);
        let deleted = delete_run(delete_start(manifest), to_remove);
        assert forall|i: int| 0 <= i < to_remove.len() implies manifest.files.contains_key(
            #[trigger] to_remove[i],
        ) by {
            assert(to_remove.contains(to_remove[i]));
        }
        lemma_fetch_wanted(config, remote_dir, fetch_start(deleted.0.manifest), entities, statuses);
    }
}

/// The hrefs that a pass removes are those of the manifest that the
/// listing does not know, each of them once.
pub proof fn lemma_local_hrefs(manifest: ManifestView, entities: Seq<RemoteEntityView>)
    requires
        valid(manifest),
    ensures
        ({
            let server = listing_map(entities);
            let statuses = reconcile(manifest.files, server);
            let order = reconcile_hrefs(manifest.hrefs, manifest.files, listing_hrefs(entities));
            let to_remove = order.filter(is_local(statuses));
            &&& to_remove.no_duplicates()
            &&& forall|href: Seq<char>| #[trigger]
                to_remove.contains(href) <==> manifest.files.contains_key(href)
                    && !server.contains_key(href)
        }),
{
    let server = listing_map(entities);
    let statuses = reconcile(manifest.files, server);
    let listed = listing_hrefs(entities);
    let extra = listed.filter(absent_from(manifest.files));
    let order = manifest.hrefs + extra;
    let to_remove = order.filter(is_local(statuses));
    lemma_listing(entities);
    lemma_filter_members(listed, absent_from(manifest.files));
    lemma_filter_members(manifest.hrefs, is_local(statuses));
    lemma_filter_members(extra, is_local(statuses));
    Seq::filter_distributes_over_add(manifest.hrefs, extra, is_local(statuses));
    let kept = manifest.hrefs.filter(is_local(statuses));
    let none = extra.filter(is_local(statuses));
    assert(none =~= Seq::<Seq<char>>::empty()) by {
        if none.len() > 0 {
            assert(none.contains(none[0]));
            assert(extra.contains(none[0]));
            assert(listed.contains(none[0]));
        }
    }
    assert(to_remove =~= kept);
    assert forall|href: Seq<char>| #[trigger]
        to_remove.contains(href) <==> manifest.files.contains_key(href) && !server.contains_key(
            href,
        ) by {
        if manifest.files.contains_key(href) && !server.contains_key(href) {
            assert(manifest.hrefs.contains(href));
            assert(is_local(statuses)(href));
        }
        if to_remove.contains(href) {
            assert(manifest.hrefs.contains(href));
        }
    }
}

/// Entities for which nothing is to be done leave a run where it started.
pub proof fn lemma_fetch_run_idle(
    config: ConfigView,
    remote_dir: Seq<char>,
    start: FetchState,
    entities: Seq<RemoteEntityView>,
)
    requires
        forall|k: int|
            0 <= k < entities.len() ==> fetch_of(config, remote_dir, #[trigger] entities[k]) == Ok::<
                Option<FetchView>,
                SyncError,
            >(None),
    ensures
        fetch_run(config, remote_dir, start, entities) == (start, None::<SyncError>),
    decreases entities.len(),
{
    if entities.len() > 0 {
        let before = entities.drop_last();
        assert forall|k: int| 0 <= k < before.len() implies fetch_of(
            config,
            remote_dir,
            #[trigger] before[k],
        ) == Ok::<Option<FetchView>, SyncError>(None) by {
            assert(before[k] == entities[k]);
        }
        lemma_fetch_run_idle(config, remote_dir, start, before);
        assert(entities.last() == entities[entities.len() - 1]);
    }
}

/// What the removals of a pass leave: the entries of the hrefs that the
/// listing knows, unchanged.
pub proof fn lemma_kept(manifest: ManifestView, entities: Seq<RemoteEntityView>)
    requires
        valid(manifest),
    ensures
        ({
            let server = listing_map(entities);
            let to_remove = reconcile_hrefs(
                manifest.hrefs,
                manifest.files,
                listing_hrefs(entities),
            ).filter(is_local(reconcile(manifest.files, server)));
            let run = delete_run(delete_start(manifest), to_remove);
            &&& run.1
            &&& valid(run.0.manifest)
            &&& forall|href: Seq<char>| #[trigger]
                run.0.manifest.files.contains_key(href) <==> manifest.files.contains_key(href)
                    && server.contains_key(href)
            &&& forall|href: Seq<char>| #[trigger]
                run.0.manifest.files.contains_key(href) ==> run.0.manifest.files[href]
                    == manifest.files[href]
        }),
{
    let server = listing_map(entities);
    let to_remove = reconcile_hrefs(manifest.hrefs, manifest.files, listing_hrefs(entities)).filter(
        is_local(reconcile(manifest.files, server)),
    );
    lemma_local_hrefs(manifest, entities);
    lemma_delete_run(delete_start(manifest), to_remove);
    assert forall|i: int| 0 <= i < to_remove.len() implies manifest.files.contains_key(
        #[trigger] to_remove[i],
    ) by {
        assert(to_remove.contains(to_remove[i]));
    }
}

/// The manifest that a pass leaves where it went through.
pub open spec fn left_by(
    config: ConfigView,
    remote_dir: Seq<char>,
    manifest: ManifestView,
    entities: Seq<RemoteEntityView>,
) -> ManifestView {
    pass(config, remote_dir, manifest, entities).manifest
}

/// After a pass that went through, what the listing knows as a file is
/// stored with a timestamp.
pub proof fn lemma_settled(
    config: ConfigView,
    remote_dir: Seq<char>,
    manifest: ManifestView,
    entities: Seq<RemoteEntityView>,
    href: Seq<char>,
)
    requires
        valid(manifest),
        pass(config, remote_dir, manifest, entities).error is None,
        listing_map(entities).contains_key(href),
        listing_map(entities)[href] is File,
        left_by(config, remote_dir, manifest, entities).files.contains_key(href),
    ensures
        left_by(config, remote_dir, manifest, entities).files[href].last_modified is Some,
{
    let server = listing_map(entities);
    let statuses = reconcile(manifest.files, server);
    let to_remove = reconcile_hrefs(manifest.hrefs, manifest.files, listing_hrefs(entities)).filter(
        is_local(statuses),
    );
    lemma_listing(entities);
    lemma_kept(manifest, entities);
    let kept = delete_run(delete_start(manifest), to_remove).0.manifest;
    lemma_fetch_wanted(config, remote_dir, fetch_start(kept), entities, statuses);
    let after = left_by(config, remote_dir, manifest, entities).files;
    let entity = server[href];
    let k = choose|k: int| 0 <= k < entities.len() && entities[k] == entity;
    assert(entities[k].href() == href);
    lemma_fetch_of(config, remote_dir, entity);
    if is_wanted(statuses)(href) {
        assert(entity_wanted(statuses)(entities[k]));
        assert(fetch_of(config, remote_dir, entity) is Ok);
        match fetch_of(config, remote_dir, entity) {
            Ok(Some(fetch)) => {
                assert(after[href] == fetch.entry());
            },
            _ => {
                assert(black_listed(config.black_list, href) == Ok::<bool, SyncError>(true));
                assert(kept.files.contains_key(href));
                assert(after[href] == manifest.files[href]);
            },
        }
    } else {
        assert(kept.files.contains_key(href));
        assert(after[href] == manifest.files[href]);
    }
}

/// After a pass that went through, nothing is to be done for any entity
/// of the listing that is still wanted.
pub proof fn lemma_nothing_to_fetch(
    config: ConfigView,
    remote_dir: Seq<char>,
    manifest: ManifestView,
    entities: Seq<RemoteEntityView>,
    k: int,
)
    requires
        valid(manifest),
        pass(config, remote_dir, manifest, entities).error is None,
        0 <= k < entities.len(),
        entity_wanted(
            reconcile(
                left_by(config, remote_dir, manifest, entities).files,
                listing_map(entities),
            ),
        )(entities[k]),
    ensures
        fetch_of(config, remote_dir, entities[k]) == Ok::<Option<FetchView>, SyncError>(None),
{
    let server = listing_map(entities);
    let statuses = reconcile(manifest.files, server);
    let to_remove = reconcile_hrefs(manifest.hrefs, manifest.files, listing_hrefs(entities)).filter(
        is_local(statuses),
    );
    let href = entities[k].href();
    lemma_listing(entities);
    lemma_kept(manifest, entities);
    let kept = delete_run(delete_start(manifest), to_remove).0.manifest;
    lemma_fetch_wanted(config, remote_dir, fetch_start(kept), entities, statuses);
    let after = left_by(config, remote_dir, manifest, entities).files;
    lemma_fetch_of(config, remote_dir, entities[k]);
    assert(server.contains_key(href));
    if !is_wanted(statuses)(href) {
        assert(manifest.files.contains_key(href));
        assert(kept.files.contains_key(href));
        assert(after.contains_key(href));
        assert(after[href] == manifest.files[href]);
        assert(status_of(after, server, href) == status_of(manifest.files, server, href));
    }
    assert(entity_wanted(statuses)(entities[k]));
    assert(fetch_of(config, remote_dir, entities[k]) is Ok);
    if fetch_of(config, remote_dir, entities[k]) matches Ok(Some(_)) {
        assert(after.contains_key(href));
        let last = server[href];
        let j = choose|j: int| 0 <= j < entities.len() && entities[j] == last;
        assert(entities[j].href() == href);
        assert(entity_wanted(statuses)(entities[j]));
        lemma_fetch_of(config, remote_dir, last);
        assert(fetch_of(config, remote_dir, last) is Ok);
        match last {
            RemoteEntityView::Directory { .. } => {},
            RemoteEntityView::File { last_modified, .. } => {
                match fetch_of(config, remote_dir, last) {
                    Ok(Some(fetch)) => {
                        assert(after[href] == fetch.entry());
                    },
                    _ => {},
                }
            },
        }
    }
}

/// Idempotence: after a pass that went through, a second pass over the
/// same listing plans no removal and no fetch, and leaves the manifest as
/// the first pass left it.
pub proof fn lemma_second_pass_idle(
    config: ConfigView,
    remote_dir: Seq<char>,
    manifest: ManifestView,
    entities: Seq<RemoteEntityView>,
)
    requires
        valid(manifest),
        pass(config, remote_dir, manifest, entities).error is None,
    ensures
        pass(config, remote_dir, left_by(config, remote_dir, manifest, entities), entities)
            == (PassView {
            manifest: left_by(config, remote_dir, manifest, entities),
            deletions: Seq::empty(),
            fetches: Seq::empty(),
            error: None,
        }),
{
    let server = listing_map(entities);
    let after = left_by(config, remote_dir, manifest, entities);
    lemma_pass_sound(config, remote_dir, manifest, entities);
    assert(reconcilable(after.files, server)) by {
        assert forall|href: Seq<char>|
            server.contains_key(href) && server[href] is File && after.files.contains_key(
                href,
            ) implies after.files[href].last_modified is Some by {
            lemma_settled(config, remote_dir, manifest, entities, href);
        }
    }
    let statuses_after = reconcile(after.files, server);
    let to_remove_after = reconcile_hrefs(after.hrefs, after.files, listing_hrefs(entities)).filter(
        is_local(statuses_after),
    );
    assert(to_remove_after =~= Seq::<Seq<char>>::empty()) by {
        lemma_local_hrefs(after, entities);
        lemma_keys_listed(config, remote_dir, manifest, entities);
        if to_remove_after.len() > 0 {
            assert(to_remove_after.contains(to_remove_after[0]));
        }
    }
    let wanted_after = entities.filter(entity_wanted(statuses_after));
    assert forall|i: int| 0 <= i < wanted_after.len() implies fetch_of(
        config,
        remote_dir,
        #[trigger] wanted_after[i],
    ) == Ok::<Option<FetchView>, SyncError>(None) by {
        lemma_filter_members(entities, entity_wanted(statuses_after));
        let entity = wanted_after[i];
        assert(wanted_after.contains(entity));
        let k = choose|k: int| 0 <= k < entities.len() && entities[k] == entity;
        lemma_nothing_to_fetch(config, remote_dir, manifest, entities, k);
    }
    lemma_fetch_run_idle(config, remote_dir, fetch_start(after), wanted_after);
}

/// After a pass, the manifest holds only hrefs that the listing knows.
pub proof fn lemma_keys_listed(
    config: ConfigView,
    remote_dir: Seq<char>,
    manifest: ManifestView,
    entities: Seq<RemoteEntityView>,
)
    requires
        valid(manifest),
        pass(config, remote_dir, manifest, entities).error is None,
    ensures
        forall|href: Seq<char>| #[trigger]
            left_by(config, remote_dir, manifest, entities).files.contains_key(href)
                ==> listing_map(entities).contains_key(href),
{
    let server = listing_map(entities);
    let statuses = reconcile(manifest.files, server);
    let to_remove = reconcile_hrefs(manifest.hrefs, manifest.files, listing_hrefs(entities)).filter(
        is_local(statuses),
    );
    lemma_kept(manifest, entities);
    let kept = delete_run(delete_start(manifest), to_remove).0.manifest;
    lemma_fetch_wanted(config, remote_dir, fetch_start(kept), entities, statuses);
}

} // verus!
