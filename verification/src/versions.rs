//! The local manifest, the remote listing, and their reconciliation.

use crate::href_map::lists_keys;
use crate::href_map::HrefMap;
use vstd::prelude::*;

verus! {

/// A remote reference: the raw string that identifies a remote resource.
pub type Href = String;

/// A point in time: whole seconds since the Unix epoch and the nanoseconds
/// within that second. Two timestamps are the same instant exactly when
/// both fields agree.
#[derive(Debug, Clone, Copy, PartialEq, Eq, Structural)]
pub struct Timestamp {
    pub secs: i64,
    pub nanos: u32,
}

/// What the manifest believes is on disk for an href.
#[derive(Debug, PartialEq, Eq)]
pub struct LocalFile {
    pub path: String,
    pub is_dir: bool,
    pub last_modified: Option<Timestamp>,
}

/// The mathematical value of a [`LocalFile`].
pub struct LocalFileView {
    pub path: Seq<char>,
    pub is_dir: bool,
    pub last_modified: Option<Timestamp>,
}

impl View for LocalFile {
    type V = LocalFileView;

    open spec fn view(&self) -> LocalFileView {
        LocalFileView {
            path: self.path@,
            is_dir: self.is_dir,
            last_modified: self.last_modified,
        }
    }
}

impl Clone for LocalFile {
    fn clone(&self) -> (r: Self)
        ensures
            r@ == self@,
    {
        LocalFile {
            path: self.path.clone(),
            is_dir: self.is_dir,
            last_modified: self.last_modified,
        }
    }
}

/// One entry of a remote listing.
#[derive(Debug, PartialEq, Eq)]
pub enum RemoteEntity {
    File { href: String, last_modified: Timestamp },
    Directory { href: String },
}

/// The mathematical value of a [`RemoteEntity`].
pub enum RemoteEntityView {
    File { href: Seq<char>, last_modified: Timestamp },
    Directory { href: Seq<char> },
}

impl RemoteEntityView {
    /// The href that the entity is listed under.
    pub open spec fn href(self) -> Seq<char> {
        match self {
            RemoteEntityView::File { href, .. } => href,
            RemoteEntityView::Directory { href } => href,
        }
    }
}

impl View for RemoteEntity {
    type V = RemoteEntityView;

    open spec fn view(&self) -> RemoteEntityView {
        match self {
            RemoteEntity::File { href, last_modified } => RemoteEntityView::File {
                href: href@,
                last_modified: *last_modified,
            },
            RemoteEntity::Directory { href } => RemoteEntityView::Directory { href: href@ },
        }
    }
}

impl Clone for RemoteEntity {
    fn clone(&self) -> (r: Self)
        ensures
            r@ == self@,
    {
        match self {
            RemoteEntity::File { href, last_modified } => RemoteEntity::File {
                href: href.clone(),
                last_modified: *last_modified,
            },
            RemoteEntity::Directory { href } => RemoteEntity::Directory { href: href.clone() },
        }
    }
}

impl RemoteEntity {
    /// The href that the entity is listed under.
    pub fn href(&self) -> (r: &String)
        ensures
            r@ == self@.href(),
    {
        match self {
            RemoteEntity::File { href, .. } => href,
            RemoteEntity::Directory { href } => href,
        }
    }
}

/// The values of a listing, entity by entity.
pub open spec fn entity_views(entities: Seq<RemoteEntity>) -> Seq<RemoteEntityView> {
    entities.map_values(|e: RemoteEntity| e@)
}

/// The values of a list of strings.
pub open spec fn string_views(strings: Seq<String>) -> Seq<Seq<char>> {
    strings.map_values(|s: String| s@)
}

/// The values of a manifest's files, href by href.
pub open spec fn file_views(files: Map<Seq<char>, LocalFile>) -> Map<Seq<char>, LocalFileView> {
    files.map_values(|f: LocalFile| f@)
}

/// The manifest: for each href, what the last pass left on disk.
///
/// Its value is the mapping from href to entry. `hrefs()` lists the hrefs
/// of that mapping once each, in the order in which they were added.
pub struct LocalVersion {
    files: HrefMap<LocalFile>,
}

impl View for LocalVersion {
    type V = Map<Seq<char>, LocalFileView>;

    closed spec fn view(&self) -> Map<Seq<char>, LocalFileView> {
        file_views(self.files@)
    }
}

impl LocalVersion {
    /// The hrefs of the manifest, oldest first.
    pub closed spec fn hrefs(&self) -> Seq<Seq<char>> {
        self.files.keys()
    }

    /// The empty manifest.
    pub fn new() -> (r: Self)
        ensures
            r@ == Map::<Seq<char>, LocalFileView>::empty(),
            r.hrefs() == Seq::<Seq<char>>::empty(),
            lists_keys(r.hrefs(), r@),
    {
        let r = LocalVersion { files: HrefMap::new() };
        assert(r@ =~= Map::<Seq<char>, LocalFileView>::empty());
        r
    }

    /// The number of entries. `hrefs()` lists the hrefs of the manifest
    /// once each.
    pub fn len(&self) -> (r: usize)
        ensures
            r == self.hrefs().len(),
            lists_keys(self.hrefs(), self@),
    {
        self.files.len()
    }

    /// The href at position `i` of `hrefs()`.
    pub fn href(&self, i: usize) -> (r: &Href)
        requires
            i < self.hrefs().len(),
        ensures
            r@ == self.hrefs()[i as int],
    {
        self.files.key(i)
    }

    /// The entry of the href at position `i` of `hrefs()`.
    pub fn file(&self, i: usize) -> (r: &LocalFile)
        requires
            i < self.hrefs().len(),
        ensures
            self@.contains_key(self.hrefs()[i as int]),
            r@ == self@[self.hrefs()[i as int]],
    {
        self.files.value(i)
    }

    /// The entry stored for `href`, if any.
    pub fn get(&self, href: &str) -> (r: Option<&LocalFile>)
        ensures
            match r {
                Some(file) => self@.contains_key(href@) && file@ == self@[href@],
                None => !self@.contains_key(href@),
            },
    {
        self.files.get(href)
    }

    /// Stores `file` as the entry of `href`, in place of any earlier one.
    pub fn add(&mut self, href: Href, file: LocalFile)
        ensures
            final(self)@ == old(self)@.insert(href@, file@),
            final(self).hrefs() == if old(self)@.contains_key(href@) {
                old(self).hrefs()
            } else {
                old(self).hrefs().push(href@)
            },
            lists_keys(final(self).hrefs(), final(self)@),
    {
        self.files.insert(href, file);
        assert(final(self)@ =~= old(self)@.insert(href@, file@));
    }

    /// Drops the entry of `href` and returns it.
    pub fn remove(&mut self, href: &Href) -> (r: Option<LocalFile>)
        ensures
            final(self)@ == old(self)@.remove(href@),
            final(self).hrefs() == old(self).hrefs().remove_value(href@),
            lists_keys(final(self).hrefs(), final(self)@),
            match r {
                Some(file) => old(self)@.contains_key(href@) && file@ == old(self)@[href@],
                None => {
                    &&& !old(self)@.contains_key(href@)
                    &&& final(self)@ == old(self)@
                    &&& final(self).hrefs() == old(self).hrefs()
                },
            },
    {
        let r = self.files.remove(href.as_str());
        assert(final(self)@ =~= old(self)@.remove(href@));
        r
    }
}

impl Clone for LocalVersion {
    fn clone(&self) -> (r: Self)
        ensures
            r@ == self@,
            r.hrefs() == self.hrefs(),
    {
        let mut files: HrefMap<LocalFile> = HrefMap::new();
        let n = self.files.len();
        let mut i: usize = 0;
        while i < n
            invariant
                i <= n,
                n == self.files.keys().len(),
                lists_keys(self.files.keys(), self.files@),
                lists_keys(files.keys(), files@),
                files.keys() == self.files.keys().take(i as int),
                forall|href: Seq<char>| #[trigger]
                    files@.contains_key(href) ==> files@[href]@ == self.files@[href]@,
            decreases n - i,
        {
            let href = self.files.key(i).clone();
            let file = self.files.value(i).clone();
            proof {
                let keys = self.files.keys();
                assert(keys.take(i as int + 1) =~= keys.take(i as int).push(keys[i as int]));
                if keys.take(i as int).contains(keys[i as int]) {
                    let j = choose|j: int| 0 <= j < i && keys.take(i as int)[j] == keys[i as int];
                    assert(keys[j] == keys[i as int]);
                }
            }
            files.push_new(href, file);
            i += 1;
        }
        let r = LocalVersion { files };
        proof {
            assert(self.files.keys().take(n as int) =~= self.files.keys());
            assert(r@ =~= self@);
        }
        r
    }
}

/// How an href stands after the manifest and a listing have been compared.
#[derive(Debug, Copy, Clone, PartialEq, Eq, Structural)]
pub enum Status {
    /// Only the manifest knows the href: the local copy is to be deleted.
    Local,
    /// Only the listing knows the href: it is to be fetched.
    Server,
    /// Both know the href, it is a remote file, and its timestamp is not
    /// the stored one: it is to be fetched again.
    OutOfDate,
    /// Both know the href and nothing is to be done.
    Sync,
}

/// The mapping that a listing stands for: each listed href with the last
/// entity that is listed under it.
pub open spec fn listing_map(entities: Seq<RemoteEntityView>) -> Map<Seq<char>, RemoteEntityView>
    decreases entities.len(),
{
    if entities.len() == 0 {
        Map::empty()
    } else {
        listing_map(entities.drop_last()).insert(entities.last().href(), entities.last())
    }
}

/// The hrefs of a listing, once each, in the order of their first
/// appearance.
pub open spec fn listing_hrefs(entities: Seq<RemoteEntityView>) -> Seq<Seq<char>>
    decreases entities.len(),
{
    if entities.len() == 0 {
        Seq::empty()
    } else {
        let before = listing_hrefs(entities.drop_last());
        if before.contains(entities.last().href()) {
            before
        } else {
            before.push(entities.last().href())
        }
    }
}

/// The status of `href`, given the manifest `local` and the listing
/// `server`. An href that neither knows counts as `Local`; it is not in
/// the domain of [`reconcile`].
pub open spec fn status_of(
    local: Map<Seq<char>, LocalFileView>,
    server: Map<Seq<char>, RemoteEntityView>,
    href: Seq<char>,
) -> Status {
    if !server.contains_key(href) {
        Status::Local
    } else if !local.contains_key(href) {
        Status::Server
    } else {
        match server[href] {
            RemoteEntityView::Directory { .. } => Status::Sync,
            RemoteEntityView::File { last_modified, .. } => if local[href].last_modified == Some(
                last_modified,
            ) {
                Status::Sync
            } else {
                Status::OutOfDate
            },
        }
    }
}

/// The status of every href that the manifest or the listing knows.
pub open spec fn reconcile(
    local: Map<Seq<char>, LocalFileView>,
    server: Map<Seq<char>, RemoteEntityView>,
) -> Map<Seq<char>, Status> {
    Map::new(
        |href: Seq<char>| local.contains_key(href) || server.contains_key(href),
        |href: Seq<char>| status_of(local, server, href),
    )
}

/// The hrefs that `map` does not hold.
pub open spec fn absent_from<V>(map: Map<Seq<char>, V>) -> spec_fn(Seq<char>) -> bool {
    |href: Seq<char>| !map.contains_key(href)
}

/// The order in which a reconciliation lists its hrefs: those of the
/// manifest first, then those that only the listing knows.
pub open spec fn reconcile_hrefs(
    local_hrefs: Seq<Seq<char>>,
    local: Map<Seq<char>, LocalFileView>,
    server_hrefs: Seq<Seq<char>>,
) -> Seq<Seq<char>> {
    local_hrefs + server_hrefs.filter(absent_from(local))
}

/// Every href that is listed as a file and stored in the manifest is
/// stored there with a timestamp. Where this fails the kind of a resource
/// has changed between passes, and no status is defined for it.
pub open spec fn reconcilable(
    local: Map<Seq<char>, LocalFileView>,
    server: Map<Seq<char>, RemoteEntityView>,
) -> bool {
    forall|href: Seq<char>|
        #![trigger server.contains_key(href)]
        #![trigger local.contains_key(href)]
        server.contains_key(href) && server[href] is File && local.contains_key(href)
            ==> local[href].last_modified is Some
}

/// The hrefs with status `Local`.
pub open spec fn is_local(statuses: Map<Seq<char>, Status>) -> spec_fn(Seq<char>) -> bool {
    |href: Seq<char>| statuses.contains_key(href) && statuses[href] == Status::Local
}

/// The hrefs with status `Server` or `OutOfDate`.
pub open spec fn is_wanted(statuses: Map<Seq<char>, Status>) -> spec_fn(Seq<char>) -> bool {
    |href: Seq<char>|
        statuses.contains_key(href) && (statuses[href] == Status::Server || statuses[href]
            == Status::OutOfDate)
}

/// The entities whose href has status `Server` or `OutOfDate`.
pub open spec fn entity_wanted(statuses: Map<Seq<char>, Status>) -> spec_fn(
    RemoteEntityView,
) -> bool {
    |entity: RemoteEntityView| is_wanted(statuses)(entity.href())
}

/// The values of the entities that a server version refers to.
pub open spec fn entity_ref_views(files: Map<Seq<char>, &RemoteEntity>) -> Map<
    Seq<char>,
    RemoteEntityView,
> {
    files.map_values(|e: &RemoteEntity| e@)
}

/// A listing, indexed by href.
pub struct ServerVersion<'a> {
    pub files: HrefMap<&'a RemoteEntity>,
}

impl<'a> View for ServerVersion<'a> {
    type V = Map<Seq<char>, RemoteEntityView>;

    open spec fn view(&self) -> Map<Seq<char>, RemoteEntityView> {
        entity_ref_views(self.files@)
    }
}

impl<'a> ServerVersion<'a> {
    /// The hrefs of the listing, once each, in order of first appearance.
    pub open spec fn hrefs(&self) -> Seq<Seq<char>> {
        self.files.keys()
    }

    /// Indexes a listing by href. Where an href is listed more than once,
    /// the last entity stands for it.
    pub fn from_entities(server_files: &'a [RemoteEntity]) -> (r: ServerVersion<'a>)
        ensures
            r@ == listing_map(entity_views(server_files@)),
            r.hrefs() == listing_hrefs(entity_views(server_files@)),
            lists_keys(r.hrefs(), r@),
    {
        let ghost all = entity_views(server_files@);
        let mut files: HrefMap<&'a RemoteEntity> = HrefMap::new();
        assert(entity_ref_views(files@) =~= listing_map(all.take(0)));
        let mut i: usize = 0;
        while i < server_files.len()
            invariant
                i <= server_files.len(),
                all == entity_views(server_files@),
                entity_ref_views(files@) == listing_map(all.take(i as int)),
                files.keys() == listing_hrefs(all.take(i as int)),
                lists_keys(files.keys(), files@),
            decreases server_files.len() - i,
        {
            let entity = &server_files[i];
            let href = entity.href().clone();
            proof {
                assert(all.take(i as int + 1).drop_last() =~= all.take(i as int));
                assert(all.take(i as int + 1).last() == entity@);
            }
            let ghost before = files@;
            files.insert(href, entity);
            proof {
                assert(entity_ref_views(files@) =~= entity_ref_views(before).insert(
                    entity@.href(),
                    entity@,
                ));
            }
            i += 1;
        }
        proof {
            assert(all.take(i as int) =~= all);
            assert(lists_keys(files.keys(), entity_ref_views(files@)));
        }
        ServerVersion { files }
    }
}

/// The outcome of comparing the manifest with a listing: a status for
/// every href that either of them knows.
pub struct Version {
    paths: HrefMap<Status>,
}

impl View for Version {
    type V = Map<Seq<char>, Status>;

    closed spec fn view(&self) -> Map<Seq<char>, Status> {
        self.paths@
    }
}

impl Version {
    /// The hrefs that have a status, once each: those of the manifest in
    /// its order, then those that only the listing knows, in its order.
    pub closed spec fn hrefs(&self) -> Seq<Seq<char>> {
        self.paths.keys()
    }

    /// Whether every stored entry that `server` lists as a file has a
    /// timestamp to compare with.
    pub fn reconcilable(server: &ServerVersion, local: &LocalVersion) -> (r: bool)
        ensures
            r == reconcilable(local@, server@),
    {
        let n = server.files.len();
        let mut i: usize = 0;
        while i < n
            invariant
                i <= n,
                n == server.hrefs().len(),
                lists_keys(server.hrefs(), server.files@),
                forall|j: int|
                    #![trigger server.hrefs()[j]]
                    0 <= j < i ==> {
                        let href = server.hrefs()[j];
                        server@[href] is File && local@.contains_key(href)
                            ==> local@[href].last_modified is Some
                    },
            decreases n - i,
        {
            let href = server.files.key(i);
            let entity = server.files.value(i);
            if let RemoteEntity::File { .. } = entity {
                if let Some(stored) = local.get(href.as_str()) {
                    if stored.last_modified.is_none() {
                        proof {
                            assert(server@.contains_key(href@));
                        }
                        return false;
                    }
                }
            }
            i += 1;
        }
        proof {
            assert forall|href: Seq<char>|
                server@.contains_key(href) && server@[href] is File && local@.contains_key(
                    href,
                ) implies local@[href].last_modified is Some by {
                assert(server.hrefs().contains(href));
                let j = choose|j: int| 0 <= j < server.hrefs().len() && server.hrefs()[j] == href;
                assert(server.hrefs()[j] == href);
            }
        }
        true
    }

    /// Compares the manifest `local` with the listing `server`.
    pub fn new(server: &ServerVersion, local: &LocalVersion) -> (r: Self)
        requires
            reconcilable(local@, server@),
        ensures
            r@ == reconcile(local@, server@),
            r.hrefs() == reconcile_hrefs(local.hrefs(), local@, server.hrefs()),
            lists_keys(r.hrefs(), r@),
    {
        let mut paths: HrefMap<Status> = HrefMap::new();
        let n = local.len();
        let mut i: usize = 0;
        while i < n
            invariant
                i <= n,
                n == local.hrefs().len(),
                lists_keys(local.hrefs(), local@),
                lists_keys(paths.keys(), paths@),
                paths.keys() == local.hrefs().take(i as int),
                forall|href: Seq<char>| #[trigger]
                    paths@.contains_key(href) ==> paths@[href] == Status::Local,
            decreases n - i,
        {
            let href = local.href(i).clone();
            proof {
                let keys = local.hrefs();
                assert(keys.take(i as int + 1) =~= keys.take(i as int).push(keys[i as int]));
                if keys.take(i as int).contains(keys[i as int]) {
                    let j = choose|j: int| 0 <= j < i && keys.take(i as int)[j] == keys[i as int];
                    assert(keys[j] == keys[i as int]);
                }
            }
            paths.push_new(href, Status::Local);
            i += 1;
        }
        proof {
            assert(local.hrefs().take(n as int) =~= local.hrefs());
        }
        let m = server.files.len();
        let ghost skeys = server.hrefs();
        proof {
            reveal(Seq::filter);
            assert(skeys.take(0).filter(absent_from(local@)) =~= Seq::<Seq<char>>::empty());
            assert(paths.keys() =~= local.hrefs() + skeys.take(0).filter(absent_from(local@)));
        }
        let mut j: usize = 0;
        while j < m
            invariant
                j <= m,
                m == skeys.len(),
                skeys == server.hrefs(),
                reconcilable(local@, server@),
                lists_keys(skeys, server.files@),
                lists_keys(local.hrefs(), local@),
                lists_keys(paths.keys(), paths@),
                paths.keys() == local.hrefs() + skeys.take(j as int).filter(absent_from(local@)),
                forall|href: Seq<char>| #[trigger]
                    paths@.contains_key(href) <==> local@.contains_key(href) || skeys.take(
                        j as int,
                    ).contains(href),
                forall|href: Seq<char>| #[trigger]
                    paths@.contains_key(href) ==> paths@[href] == if skeys.take(j as int).contains(
                        href,
                    ) {
                        status_of(local@, server@, href)
                    } else {
                        Status::Local
                    },
            decreases m - j,
        {
            let href = server.files.key(j);
            let entity = server.files.value(j);
            let ghost done = skeys.take(j as int);
            let ghost next = skeys.take(j as int + 1);
            proof {
                assert(next =~= done.push(skeys[j as int]));
                assert(next.drop_last() =~= done);
                reveal(Seq::filter);
                if done.contains(skeys[j as int]) {
                    let k = choose|k: int| 0 <= k < j && done[k] == skeys[j as int];
                    assert(skeys[k] == skeys[j as int]);
                }
                assert(skeys.contains(href@));
                assert forall|h: Seq<char>| next.contains(h) <==> done.contains(h) || h
                    == href@ by {
                    if done.contains(h) {
                        let k = choose|k: int| 0 <= k < done.len() && done[k] == h;
                        assert(next[k] == h);
                    }
                    if next.contains(h) {
                        let k = choose|k: int| 0 <= k < next.len() && next[k] == h;
                        if k < j {
                            assert(done[k] == h);
                        }
                    }
                    assert(next[j as int] == href@);
                }
            }
            match local.get(href.as_str()) {
                Some(stored) => {
                    let status = match entity {
                        RemoteEntity::File { last_modified, .. } => {
                            let known = stored.last_modified.unwrap();
                            if known.secs == last_modified.secs && known.nanos
                                == last_modified.nanos {
                                Status::Sync
                            } else {
                                Status::OutOfDate
                            }
                        },
                        RemoteEntity::Directory { .. } => Status::Sync,
                    };
                    paths.insert(href.clone(), status);
                },
                None => {
                    paths.push_new(href.clone(), Status::Server);
                },
            }
            j += 1;
        }
        proof {
            assert(skeys.take(m as int) =~= skeys);
            assert(paths@ =~= reconcile(local@, server@));
        }
        Version { paths }
    }

    /// The number of hrefs that have a status. `hrefs()` lists each of
    /// them once.
    pub fn len(&self) -> (r: usize)
        ensures
            r == self.hrefs().len(),
            lists_keys(self.hrefs(), self@),
    {
        self.paths.len()
    }

    /// The status of `href`, if it has one.
    pub fn status(&self, href: &str) -> (r: Option<Status>)
        ensures
            match r {
                Some(status) => self@.contains_key(href@) && self@[href@] == status,
                None => !self@.contains_key(href@),
            },
    {
        match self.paths.get(href) {
            Some(status) => Some(*status),
            None => None,
        }
    }

    /// The hrefs whose local copy is to be deleted: those with status
    /// `Local`, in the order of `hrefs()`.
    pub fn files_to_remove(&self) -> (r: Vec<Href>)
        ensures
            string_views(r@) == self.hrefs().filter(is_local(self@)),
    {
        let mut paths: Vec<Href> = Vec::new();
        let n = self.paths.len();
        let mut i: usize = 0;
        proof {
            reveal(Seq::filter);
            assert(string_views(paths@) =~= self.hrefs().take(0).filter(is_local(self@)));
        }
        while i < n
            invariant
                i <= n,
                n == self.hrefs().len(),
                string_views(paths@) == self.hrefs().take(i as int).filter(is_local(self@)),
            decreases n - i,
        {
            let status = self.paths.value(i);
            proof {
                reveal(Seq::filter);
                assert(self.hrefs().take(i as int + 1).drop_last() =~= self.hrefs().take(i as int));
            }
            if *status == Status::Local {
                let href = self.paths.key(i).clone();
                let ghost before = paths@;
                paths.push(href);
                assert(string_views(paths@) =~= string_views(before).push(href@));
            }
            i += 1;
        }
        proof {
            assert(self.hrefs().take(n as int) =~= self.hrefs());
        }
        paths
    }

    /// The hrefs that are to be fetched: those with status `Server` or
    /// `OutOfDate`, in the order of `hrefs()`.
    pub fn files_to_download(&self) -> (r: Vec<Href>)
        ensures
            string_views(r@) == self.hrefs().filter(is_wanted(self@)),
    {
        let mut paths: Vec<Href> = Vec::new();
        let n = self.paths.len();
        let mut i: usize = 0;
        proof {
            reveal(Seq::filter);
            assert(string_views(paths@) =~= self.hrefs().take(0).filter(is_wanted(self@)));
        }
        while i < n
            invariant
                i <= n,
                n == self.hrefs().len(),
                string_views(paths@) == self.hrefs().take(i as int).filter(is_wanted(self@)),
            decreases n - i,
        {
            let status = self.paths.value(i);
            proof {
                reveal(Seq::filter);
                assert(self.hrefs().take(i as int + 1).drop_last() =~= self.hrefs().take(i as int));
            }
            if *status == Status::Server || *status == Status::OutOfDate {
                let href = self.paths.key(i).clone();
                let ghost before = paths@;
                paths.push(href);
                assert(string_views(paths@) =~= string_views(before).push(href@));
            }
            i += 1;
        }
        proof {
            assert(self.hrefs().take(n as int) =~= self.hrefs());
        }
        paths
    }
}

/// A listing together with its reconciliation against the manifest.
pub struct VersionService {
    version: Version,
    entities: Vec<RemoteEntity>,
}

impl VersionService {
    /// The listing that the service was made from.
    pub closed spec fn listing(&self) -> Seq<RemoteEntityView> {
        entity_views(self.entities@)
    }

    /// The status of every href that the manifest or the listing knows.
    pub closed spec fn statuses(&self) -> Map<Seq<char>, Status> {
        self.version@
    }

    /// The hrefs that have a status, in the order in which `version()`
    /// lists them.
    pub closed spec fn hrefs(&self) -> Seq<Seq<char>> {
        self.version.hrefs()
    }

    /// Reconciles the manifest `local` with the listing `entities`.
    pub fn init(local: LocalVersion, entities: Vec<RemoteEntity>) -> (r: Self)
        requires
            reconcilable(local@, listing_map(entity_views(entities@))),
        ensures
            r.listing() == entity_views(entities@),
            r.statuses() == reconcile(local@, listing_map(entity_views(entities@))),
            r.hrefs() == reconcile_hrefs(
                local.hrefs(),
                local@,
                listing_hrefs(entity_views(entities@)),
            ),
            lists_keys(r.hrefs(), r.statuses()),
    {
        let server_version = ServerVersion::from_entities(entities.as_slice());
        let version = Version::new(&server_version, &local);
        Self { version, entities }
    }

    /// The entities that are to be fetched: those of the listing, in its
    /// order, whose href has status `Server` or `OutOfDate`.
    pub fn entities_to_download(&self) -> (r: Vec<RemoteEntity>)
        ensures
            entity_views(r@) == self.listing().filter(entity_wanted(self.statuses())),
    {
        let mut wanted: Vec<RemoteEntity> = Vec::new();
        let n = self.entities.len();
        let mut i: usize = 0;
        proof {
            reveal(Seq::filter);
            assert(entity_views(wanted@) =~= self.listing().take(0).filter(
                entity_wanted(self.statuses()),
            ));
        }
        while i < n
            invariant
                i <= n,
                n == self.entities.len(),
                entity_views(wanted@) == self.listing().take(i as int).filter(
                    entity_wanted(self.statuses()),
                ),
            decreases n - i,
        {
            let entity = &self.entities[i];
            proof {
                reveal(Seq::filter);
                assert(self.listing().take(i as int + 1).drop_last() =~= self.listing().take(
                    i as int,
                ));
                assert(self.listing().take(i as int + 1).last() == entity@);
            }
            let fetch = match self.version.status(entity.href().as_str()) {
                Some(Status::Server) => true,
                Some(Status::OutOfDate) => true,
                _ => false,
            };
            if fetch {
                let copy = entity.clone();
                let ghost before = wanted@;
                wanted.push(copy);
                assert(entity_views(wanted@) =~= entity_views(before).push(entity@));
            }
            i += 1;
        }
        proof {
            assert(self.listing().take(n as int) =~= self.listing());
        }
        wanted
    }

    /// The reconciliation.
    pub fn version(&self) -> (r: &Version)
        ensures
            r@ == self.statuses(),
            r.hrefs() == self.hrefs(),
            lists_keys(r.hrefs(), r@),
    {
        let _ = self.version.len();
        &self.version
    }
}

} // verus!
