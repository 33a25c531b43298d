//! The manifest of earlier releases, which stored only a path per href,
//! and its migration to the present one.

use crate::config::Config;
use crate::config::ConfigView;
use crate::href_map::lists_keys;
use crate::href_map::HrefMap;
use crate::pass::dav_paths;
use crate::pass::manifest_of;
use crate::pass::ManifestView;
use crate::result::AppResult;
use crate::result::SyncError;
use crate::sync_service::SyncService;
use crate::versions::entity_views;
use crate::versions::Href;
use crate::versions::LocalFile;
use crate::versions::LocalFileView;
use crate::versions::RemoteEntity;
use crate::versions::RemoteEntityView;
use vstd::prelude::*;

verus! {

/// The values of the paths of an old manifest, href by href.
pub open spec fn path_views(paths: Map<Seq<char>, String>) -> Map<Seq<char>, Seq<char>> {
    paths.map_values(|p: String| p@)
}

/// The old manifest: for each href, the local path of its copy.
pub struct LocalVersion {
    paths: HrefMap<String>,
}

impl View for LocalVersion {
    type V = Map<Seq<char>, Seq<char>>;

    closed spec fn view(&self) -> Map<Seq<char>, Seq<char>> {
        path_views(self.paths@)
    }
}

impl LocalVersion {
    /// The empty manifest.
    pub fn new() -> (r: Self)
        ensures
            r@ == Map::<Seq<char>, Seq<char>>::empty(),
    {
        let r = LocalVersion { paths: HrefMap::new() };
        assert(r@ =~= Map::<Seq<char>, Seq<char>>::empty());
        r
    }

    /// Stores `path` as the local path of `href`.
    pub fn add(&mut self, href: Href, path: String)
        ensures
            final(self)@ == old(self)@.insert(href@, path@),
    {
        self.paths.insert(href, path);
        assert(final(self)@ =~= old(self)@.insert(href@, path@));
    }

    /// The local path stored for `href`, if any.
    pub fn get(&self, href: &str) -> (r: Option<&String>)
        ensures
            match r {
                Some(path) => self@.contains_key(href@) && path@ == self@[href@],
                None => !self@.contains_key(href@),
            },
    {
        self.paths.get(href)
    }
}

/// The entry that the present manifest holds for a listed entity whose
/// local path is `path`.
pub open spec fn migrated_entry(entity: RemoteEntityView, path: Seq<char>) -> LocalFileView {
    match entity {
        RemoteEntityView::File { last_modified, .. } => LocalFileView {
            path,
            is_dir: false,
            last_modified: Some(last_modified),
        },
        RemoteEntityView::Directory { .. } => LocalFileView {
            path,
            is_dir: true,
            last_modified: None,
        },
    }
}

/// The present manifest of what the old one knows: an entry for each
/// listed entity whose href the old manifest holds, with its local path
/// by the present rules and the listed kind and timestamp. It stops at the
/// first such entity whose paths cannot be had and returns the manifest
/// built so far with the error.
pub open spec fn migrate(
    config: ConfigView,
    remote_dir: Seq<char>,
    known: Map<Seq<char>, Seq<char>>,
    entities: Seq<RemoteEntityView>,
) -> (ManifestView, Option<SyncError>)
    decreases entities.len(),
{
    if entities.len() == 0 {
        (ManifestView { files: Map::empty(), hrefs: Seq::empty() }, None)
    } else {
        let (manifest, error) = migrate(config, remote_dir, known, entities.drop_last());
        let entity = entities.last();
        if error is Some || !known.contains_key(entity.href()) {
            (manifest, error)
        } else {
            match dav_paths(config, remote_dir, entity.href()) {
                Ok(paths) => (
                    manifest.upsert(entity.href(), migrated_entry(entity, paths.local)),
                    None,
                ),
                Err(error) => (manifest, Some(error)),
            }
        }
    }
}

/// Once a migration has stopped with an error, more entities change
/// nothing.
pub proof fn lemma_migrate_stops(
    config: ConfigView,
    remote_dir: Seq<char>,
    known: Map<Seq<char>, Seq<char>>,
    entities: Seq<RemoteEntityView>,
    k: int,
)
    requires
        0 <= k <= entities.len(),
        migrate(config, remote_dir, known, entities.take(k)).1 is Some,
    ensures
        migrate(config, remote_dir, known, entities) == migrate(
            config,
            remote_dir,
            known,
            entities.take(k),
        ),
    decreases entities.len() - k,
{
    if k < entities.len() {
        assert(entities.take(k + 1).drop_last() =~= entities.take(k));
        lemma_migrate_stops(config, remote_dir, known, entities, k + 1);
    } else {
        assert(entities.take(k) =~= entities);
    }
}

impl SyncService {
    /// A service with the settings `config` that starts from an empty
    /// manifest.
    pub fn init_with_empty_db(config: Config) -> (r: SyncService)
        ensures
            r.settings() == config@,
            r.manifest() == (ManifestView {
                files: Map::<Seq<char>, LocalFileView>::empty(),
                hrefs: Seq::<Seq<char>>::empty(),
            }),
    {
        SyncService::init(config, crate::versions::LocalVersion::new())
    }

    /// Builds the present manifest from the old one, `old_db`, and the
    /// listing `server_files` of `remote_dir`.
    pub fn migrate_db(
        &self,
        old_db: &LocalVersion,
        remote_dir: &str,
        server_files: Vec<RemoteEntity>,
    ) -> (r: AppResult<crate::versions::LocalVersion>)
        ensures
            match r {
                Ok(manifest) => {
                    &&& migrate(
                        self.settings(),
                        remote_dir@,
                        old_db@,
                        entity_views(server_files@),
                    ).1 is None
                    &&& manifest_of(manifest) == migrate(
                        self.settings(),
                        remote_dir@,
                        old_db@,
                        entity_views(server_files@),
                    ).0
                    &&& lists_keys(manifest.hrefs(), manifest@)
                },
                Err(error) => migrate(
                    self.settings(),
                    remote_dir@,
                    old_db@,
                    entity_views(server_files@),
                ).1 == Some(error),
            },
    {
        let ghost all = entity_views(server_files@);
        let mut new_version = crate::versions::LocalVersion::new();
        let mut i: usize = 0;
        while i < server_files.len()
            invariant
                i <= server_files.len(),
                all == entity_views(server_files@),
                migrate(self.settings(), remote_dir@, old_db@, all.take(i as int)) == (
                    manifest_of(new_version),
                    None::<SyncError>,
                ),
                lists_keys(new_version.hrefs(), new_version@),
            decreases server_files.len() - i,
        {
            let entity = &server_files[i];
            proof {
                assert(all.take(i as int + 1).last() == entity@);
                assert(all.take(i as int + 1).drop_last() =~= all.take(i as int));
            }
            if old_db.get(entity.href().as_str()).is_some() {
                let paths = match self.define_paths(remote_dir, entity.href()) {
                    Ok(paths) => paths,
                    Err(error) => {
                        proof {
                            lemma_migrate_stops(
                                self.settings(),
                                remote_dir@,
                                old_db@,
                                all,
                                i as int + 1,
                            );
                        }
                        return Err(error);
                    },
                };
                let local = match entity {
                    RemoteEntity::File { last_modified, .. } => LocalFile {
                        path: paths.local,
                        is_dir: false,
                        last_modified: Some(*last_modified),
                    },
                    RemoteEntity::Directory { .. } => LocalFile {
                        path: paths.local,
                        is_dir: true,
                        last_modified: None,
                    },
                };
                new_version.add(entity.href().clone(), local);
            }
            i += 1;
        }
        proof {
            assert(all.take(i as int) =~= all);
        }
        Ok(new_version)
    }
}

} // verus!
