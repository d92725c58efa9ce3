//! The workspace database manager: maps view ids to database ids through the
//! workspace index, and keeps one open handle per database id in a cache.
use vstd::prelude::*;
use dashmap::DashMap;
use crate::body::{DatabaseMeta, WorkspaceDatabaseBody, dedup, index_has_required_data, link, strs};
use crate::index_codec::fits;
use crate::database::{
    CreateDatabaseParams, CreateViewParams, Database, DatabaseData, DatabaseError, DatabaseModel,
    param_view_ids, view_ids, view_from_params,
};
use vstd::string::{StringExecFns, StrSliceExecFns};
use crate::proto::{CollabType, EncodedCollab};

verus! {

#[verifier::external_type_specification]
#[verifier::external_body]
#[verifier::reject_recursive_types(K)]
#[verifier::reject_recursive_types(V)]
#[verifier::reject_recursive_types(S)]
pub struct ExDashMap<K, V, S>(DashMap<K, V, S>);

/// The cache of open databases, keyed by database id.
pub type DatabaseCache = DashMap<String, Database>;

/// What the cache of open databases holds, by database id.
pub uninterp spec fn cached_databases(m: DatabaseCache) -> Map<Seq<char>, Database>;

/// A cache that holds nothing.
pub open spec fn no_databases() -> Map<Seq<char>, Database> {
    Map::empty()
}

/// Relies on `DashMap::new`: a new map holds nothing.
#[verifier::external_body]
fn cache_new() -> (r: DatabaseCache)
    ensures
        cached_databases(r) == no_databases(),
{
    DashMap::new()
}

/// Relies on `DashMap::remove`: the entry under `key` leaves the map and its
/// value is handed back.
#[verifier::external_body]
fn cache_take(m: &mut DatabaseCache, key: &str) -> (r: Option<Database>)
    ensures
        cached_databases(*final(m)) == cached_databases(*old(m)).remove(key@),
        r == (if cached_databases(*old(m)).contains_key(key@) {
            Some(cached_databases(*old(m))[key@])
        } else {
            None
        }),
{
    m.remove(key).map(|(_, v)| v)
}

/// Relies on `DashMap::insert`: `value` is stored under `key`, replacing
/// what was there.
#[verifier::external_body]
fn cache_put(m: &mut DatabaseCache, key: String, value: Database)
    ensures
        cached_databases(*final(m)) == cached_databases(*old(m)).insert(key@, value),
{
    m.insert(key, value);
}

/// Builds the document of an object; implemented by the embedding
/// application (in memory for tests, on disk or remote in production).
pub trait DatabaseCollabService {
    /// What the object `object_id` holds; a new, empty object when `is_new`.
    fn build_collab(&self, object_id: &str, object_type: CollabType, is_new: bool) -> Result<
        DatabaseData,
        DatabaseError,
    >;
}

/// Durable storage of objects; implemented by the embedding application.
pub trait DatabaseCollabPersistenceService {
    fn delete_collab(&self, object_id: &str) -> Result<(), DatabaseError>;

    fn is_collab_exist(&self, object_id: &str) -> bool;

    fn flush_collabs(&self, encoded_collabs: Vec<(String, EncodedCollab)>) -> Result<
        (),
        DatabaseError,
    >;

    /// What storage holds of the object, if anything.
    fn load_collab(&self, object_id: &str) -> Option<DatabaseData>;

    /// Splits `row_ids` into those that exist and those that do not.
    fn is_row_exist_partition(&self, row_ids: Vec<String>) -> (Vec<String>, Vec<String>);
}

/// Loads objects from disk through an optional persistence service.
pub struct CollabPersistenceImpl<P> {
    pub persistence: Option<P>,
}

impl<P: DatabaseCollabPersistenceService> CollabPersistenceImpl<P> {
    /// What storage holds of the object; nothing without a persistence service.
    pub fn load_collab_from_disk(&self, object_id: &str) -> (r: Option<DatabaseData>)
        ensures
            self.persistence is None ==> r is None,
    {
        match &self.persistence {
            Some(p) => p.load_collab(object_id),
            None => None,
        }
    }
}

/// The models of the cached databases.
pub open spec fn cache_models(c: Map<Seq<char>, Database>) -> Map<Seq<char>, DatabaseModel> {
    c.map_values(|d: Database| d@)
}

/// The databases of a workspace: the index from database id to linked view
/// ids, and the cache of open databases.
pub struct WorkspaceDatabase<C, P> {
    object_id: String,
    body: WorkspaceDatabaseBody,
    collab_service: C,
    persistence: Option<P>,
    databases: DatabaseCache,
    handles_built: u64,
}

impl<C: DatabaseCollabService, P: DatabaseCollabPersistenceService> WorkspaceDatabase<C, P> {
    /// The index: linked view ids by database id.
    pub closed spec fn index(&self) -> Map<Seq<char>, Seq<Seq<char>>> {
        self.body@
    }

    /// The open databases, by database id.
    pub closed spec fn cache(&self) -> Map<Seq<char>, DatabaseModel> {
        cache_models(cached_databases(self.databases))
    }

    /// How many database handles have been constructed.
    pub closed spec fn built(&self) -> u64 {
        self.handles_built
    }

    pub closed spec fn has_persistence(&self) -> bool {
        self.persistence is Some
    }

    /// The index is well formed; every open database is well formed, is in
    /// the index, is cached under its own id, and was constructed earlier.
    pub closed spec fn wf(&self) -> bool {
        &&& self.body.wf()
        &&& forall|k: Seq<char>| #[trigger]
            cached_databases(self.databases).contains_key(k) ==> {
                let d = cached_databases(self.databases)[k];
                &&& d.wf()
                &&& d.database_id@ == k
                &&& d.serial < self.handles_built
                &&& self.body@.contains_key(k)
            }
    }

    /// What the invariant says in terms of the index and the cache.
    pub proof fn lemma_wf(&self)
        requires
            self.wf(),
        ensures
            forall|k: Seq<char>| #[trigger] self.index().contains_key(k) ==> self.index()[k].no_duplicates(),
            forall|k: Seq<char>| #[trigger]
                self.cache().contains_key(k) ==> self.index().contains_key(k) && self.cache()[k].database_id
                    == k && self.cache()[k].serial < self.built(),
    {
        self.body.lemma_wf();
    }

    /// A manager over an index, with no database open.
    pub fn open(object_id: &str, body: WorkspaceDatabaseBody, collab_service: C, persistence: Option<P>) -> (r: Self)
        requires
            body.wf(),
        ensures
            r.wf(),
            r.index() == body@,
            r.cache() == Map::<Seq<char>, DatabaseModel>::empty(),
            r.built() == 0,
            r.has_persistence() == persistence is Some,
    {
        let r = WorkspaceDatabase {
            object_id: object_id.to_owned(),
            body,
            collab_service,
            persistence,
            databases: cache_new(),
            handles_built: 0,
        };
        proof {
            assert(r.cache() =~= Map::<Seq<char>, DatabaseModel>::empty());
        }
        r
    }

    /// The open database `database_id`, opening it on a miss; `None` when the
    /// id is not in the index or the database cannot be opened. On a miss the
    /// database is built through the collab service and, when the persistence
    /// service does not hold it yet, its first screen of rows is loaded. At
    /// most one handle is constructed per id: a cached one is always reused.
    pub fn get_or_create_database(&mut self, database_id: &str) -> (r: Option<Database>)
        requires
            old(self).wf(),
        ensures
            final(self).wf(),
            get_or_create_post(*old(self), *final(self), database_id@, r),
    {
        if !self.body.contains(database_id) {
            return None;
        }
        let ghost c0 = cached_databases(self.databases);
        match cache_take(&mut self.databases, database_id) {
            Some(db) => {
                let r = db.copy();
                cache_put(&mut self.databases, database_id.to_owned(), db);
                proof {
                    assert(cached_databases(self.databases) =~= c0);
                }
                Some(r)
            },
            None => {
                proof {
                    assert(cached_databases(self.databases) =~= c0);
                }
                let is_exist = match &self.persistence {
                    Some(p) => p.is_collab_exist(database_id),
                    None => {
                        return None;
                    },
                };
                if self.handles_built == u64::MAX {
                    return None;
                }
                let loaded = self.collab_service.build_collab(database_id, CollabType::Database, false);
                let database = match Database::open_loaded(database_id, loaded, is_exist, self.handles_built) {
                    Some(db) => db,
                    None => {
                        return None;
                    },
                };
                self.handles_built = self.handles_built + 1;
                let r = database.copy();
                cache_put(&mut self.databases, database_id.to_owned(), database);
                proof {
                    assert(self.cache() =~= cache_models(c0).insert(database_id@, r@));
                }
                Some(r)
            },
        }
    }

    /// The id of the first database, in registration order, that links `view_id`.
    pub fn get_database_id_with_view_id(&self, view_id: &str) -> (r: Option<String>)
        requires
            self.wf(),
        ensures
            r is None <==> forall|k: Seq<char>| #[trigger]
                self.index().contains_key(k) ==> !self.index()[k].contains(view_id@),
            r matches Some(id) ==> self.index().contains_key(id@) && self.index()[id@].contains(view_id@),
    {
        match self.body.get_database_meta_with_view_id(view_id) {
            Some(meta) => {
                proof {
                    assert(self.index().contains_key(meta.database_id@));
                    assert(self.index()[meta.database_id@].contains(view_id@));
                }
                Some(meta.database_id)
            },
            None => None,
        }
    }

    /// The database that `view_id` belongs to, opened if needed.
    pub fn get_database_with_view_id(&mut self, view_id: &str) -> (r: Option<Database>)
        requires
            old(self).wf(),
        ensures
            final(self).wf(),
            final(self).index() == old(self).index(),
            final(self).has_persistence() == old(self).has_persistence(),
            (forall|k: Seq<char>| #[trigger]
                old(self).index().contains_key(k) ==> !old(self).index()[k].contains(view_id@)) ==> r is None
                && *final(self) == *old(self),
            all_linking_open(old(self).index(), old(self).cache(), view_id@) ==> r is Some,
            r matches Some(db) ==> old(self).index().contains_key(db@.database_id) && old(
                self,
            ).index()[db@.database_id].contains(view_id@) && get_or_create_post(
                *old(self),
                *final(self),
                db@.database_id,
                r,
            ),
    {
        let database_id = match self.get_database_id_with_view_id(view_id) {
            Some(id) => id,
            None => {
                return None;
            },
        };
        let r = self.get_or_create_database(database_id.as_str());
        r
    }

    /// Removes a database from the index and the cache, and asks the
    /// persistence service to delete it; a failure there is not reported,
    /// as the index alone decides what exists.
    pub fn delete_database(&mut self, database_id: &str)
        requires
            old(self).wf(),
        ensures
            final(self).wf(),
            final(self).index() == old(self).index().remove(database_id@),
            final(self).cache() == old(self).cache().remove(database_id@),
            final(self).built() == old(self).built(),
            final(self).has_persistence() == old(self).has_persistence(),
    {
        self.body.delete_database(database_id);
        if let Some(p) = &self.persistence {
            let _ = p.delete_collab(database_id);
        }
        let ghost c0 = cached_databases(self.databases);
        let _ = cache_take(&mut self.databases, database_id);
        proof {
            assert(self.cache() =~= cache_models(c0).remove(database_id@));
        }
    }

    /// Drops the open handle of a database; the index and storage stay.
    pub fn close_database(&mut self, database_id: &str)
        requires
            old(self).wf(),
        ensures
            final(self).wf(),
            final(self).index() == old(self).index(),
            final(self).cache() == old(self).cache().remove(database_id@),
            final(self).built() == old(self).built(),
            final(self).has_persistence() == old(self).has_persistence(),
    {
        let ghost c0 = cached_databases(self.databases);
        let _ = cache_take(&mut self.databases, database_id);
        proof {
            assert(self.cache() =~= cache_models(c0).remove(database_id@));
        }
    }

    /// Registers a database with the given views, repeats dropped.
    pub fn track_database(&mut self, database_id: &str, database_view_ids: Vec<String>)
        requires
            old(self).wf(),
        ensures
            final(self).wf(),
            final(self).index() == old(self).index().insert(database_id@, dedup(strs(database_view_ids@))),
            final(self).cache() == old(self).cache(),
            final(self).built() == old(self).built(),
            final(self).has_persistence() == old(self).has_persistence(),
    {
        self.body.add_database(database_id, &database_view_ids);
    }

    /// Every entry of the index, each once.
    pub fn get_all_database_meta(&self) -> (r: Vec<DatabaseMeta>)
        requires
            self.wf(),
        ensures
            forall|i: int|
                0 <= i < r@.len() ==> self.index().contains_key((#[trigger] r@[i]).database_id@)
                    && strs(r@[i].linked_views@) == self.index()[r@[i].database_id@],
            forall|k: Seq<char>| #[trigger]
                self.index().contains_key(k) ==> exists|i: int|
                    0 <= i < r@.len() && (#[trigger] r@[i]).database_id@ == k,
            forall|i: int, j: int|
                0 <= i < r@.len() && 0 <= j < r@.len() && i != j ==> (#[trigger] r@[i]).database_id@
                    != (#[trigger] r@[j]).database_id@,
    {
        self.body.get_all_database_meta()
    }

    /// The index entries in registration order.
    pub closed spec fn listing(&self) -> Seq<(Seq<char>, Seq<Seq<char>>)> {
        self.body.listing()
    }

    /// Whether the index carries its required data: no database id and no
    /// linked view id is empty.
    pub fn validate(&self) -> (r: Result<(), DatabaseError>)
        requires
            self.wf(),
        ensures
            r is Ok <==> index_has_required_data(self.index()),
            r matches Err(e) ==> e == DatabaseError::NoRequiredData,
    {
        if self.body.has_required_data() {
            Ok(())
        } else {
            Err(DatabaseError::NoRequiredData)
        }
    }

    /// Hands the encoded index to the persistence service for a durable
    /// write, after checking its required data.
    pub fn flush_workspace_database(&self) -> (r: Result<(), DatabaseError>)
        requires
            self.wf(),
        ensures
            !index_has_required_data(self.index()) ==> r == Err::<(), DatabaseError>(
                DatabaseError::NoRequiredData,
            ),
            index_has_required_data(self.index()) && !self.has_persistence() ==> r matches Err(
                DatabaseError::Internal(_),
            ),
            index_has_required_data(self.index()) && self.has_persistence() && !fits(self.listing())
                ==> r matches Err(DatabaseError::Internal(_)),
    {
        if let Err(e) = self.validate() {
            return Err(e);
        }
        let persistence = match &self.persistence {
            Some(p) => p,
            None => {
                return Err(DatabaseError::Internal("collab persistence is not found".to_owned()));
            },
        };
        let doc_state = match self.body.encode() {
            Some(b) => b,
            None => {
                return Err(DatabaseError::Internal("the index is too large to encode".to_owned()));
            },
        };
        let encoded = EncodedCollab { state_vector: Vec::new(), doc_state, encoder_version: 1 };
        let mut batch: Vec<(String, EncodedCollab)> = Vec::new();
        batch.push((self.object_id.clone(), encoded));
        persistence.flush_collabs(batch)
    }

    /// Registers and opens a new database. Its linked views are the inline
    /// view and the views of `params`, each once, the inline view first. The
    /// index entry stays even when building the database then fails.
    pub fn create_database(&mut self, params: CreateDatabaseParams) -> (r: Result<Database, DatabaseError>)
        requires
            old(self).wf(),
        ensures
            final(self).wf(),
            final(self).has_persistence() == old(self).has_persistence(),
            params.database_id@.len() == 0 ==> r == Err::<Database, DatabaseError>(DatabaseError::InvalidParams)
                && final(self).index() == old(self).index(),
            params.database_id@.len() > 0 ==> final(self).index() == old(self).index().insert(
                params.database_id@,
                linked_views_of(params),
            ),
            r is Err ==> final(self).cache() == old(self).cache() && final(self).built() == old(self).built(),
            r matches Err(e) ==> (e == DatabaseError::InvalidParams && params.database_id@.len() == 0)
                || (e is Internal && params.database_id@.len() > 0),
            r matches Ok(db) ==> {
                &&& db.wf()
                &&& db@.database_id == params.database_id@
                &&& db@.inline_view_id == params.inline_view_id@
                &&& db@.views.dom() == param_view_ids(params.views@).to_set().insert(params.inline_view_id@)
                &&& db@.row_ids == strs(params.row_ids@)
                &&& db@.serial == old(self).built()
                &&& final(self).built() == old(self).built() + 1
                &&& final(self).cache() == old(self).cache().insert(params.database_id@, db@)
            },
    {
        if params.database_id.as_str().unicode_len() == 0 {
            return Err(DatabaseError::InvalidParams);
        }
        let mut linked: Vec<String> = Vec::new();
        linked.push(params.inline_view_id.clone());
        let mut i: usize = 0;
        while i < params.views.len()
            invariant
                0 <= i <= params.views@.len(),
                strs(linked@) == seq![params.inline_view_id@] + param_view_ids(params.views@).take(i as int),
            decreases params.views@.len() - i,
        {
            let ghost before = strs(linked@);
            linked.push(params.views[i].view_id.clone());
            proof {
                assert(strs(linked@) =~= before.push(params.views@[i as int].view_id@));
                assert(param_view_ids(params.views@).take(i + 1) =~= param_view_ids(params.views@).take(
                    i as int,
                ).push(params.views@[i as int].view_id@));
                assert(strs(linked@) =~= seq![params.inline_view_id@] + param_view_ids(params.views@).take(
                    i + 1,
                ));
            }
            i = i + 1;
        }
        proof {
            assert(param_view_ids(params.views@).take(i as int) =~= param_view_ids(params.views@));
        }
        self.body.add_database(params.database_id.as_str(), &linked);
        if self.handles_built == u64::MAX {
            return Err(DatabaseError::Internal("too many database handles".to_owned()));
        }
        if let Err(_) = self.collab_service.build_collab(
            params.database_id.as_str(),
            CollabType::Database,
            true,
        ) {
            return Err(DatabaseError::Internal("cannot build the database".to_owned()));
        }
        let database_id = params.database_id.clone();
        let ghost c0 = cached_databases(self.databases);
        let database = Database::create_with_view(params, self.handles_built);
        self.handles_built = self.handles_built + 1;
        let r = database.copy();
        cache_put(&mut self.databases, database_id, database);
        proof {
            assert(self.cache() =~= cache_models(c0).insert(r@.database_id, r@));
        }
        Ok(r)
    }

    /// Links a new view to an existing database and creates it there. A view
    /// id already linked stays linked once.
    pub fn create_database_linked_view(&mut self, params: CreateViewParams) -> (r: Result<(), DatabaseError>)
        requires
            old(self).wf(),
        ensures
            final(self).wf(),
            final(self).has_persistence() == old(self).has_persistence(),
            linked_view_post(*old(self), *final(self), params, r),
    {
        let params = match params.validate() {
            Ok(p) => p,
            Err(e) => {
                return Err(e);
            },
        };
        let database_id = params.database_id.clone();
        match self.get_or_create_database(database_id.as_str()) {
            None => Err(DatabaseError::DatabaseNotExist),
            Some(_) => {
                proof {
                    assert(self.cache().contains_key(database_id@));
                    assert(cached_databases(self.databases).contains_key(database_id@));
                }
                self.body.link_view(database_id.as_str(), params.view_id.as_str());
                let ghost c0 = cached_databases(self.databases);
                let mut db = match cache_take(&mut self.databases, database_id.as_str()) {
                    Some(db) => db,
                    None => {
                        proof {
                            assert(false);
                        }
                        return Err(DatabaseError::DatabaseNotExist);
                    },
                };
                proof {
                    assert(c0.contains_key(database_id@));
                }
                db.create_linked_view(params);
                cache_put(&mut self.databases, database_id, db);
                Ok(())
            },
        }
    }

    /// Deletes a view of a database; deleting the inline view deletes the
    /// whole database.
    pub fn delete_view(&mut self, database_id: &str, view_id: &str)
        requires
            old(self).wf(),
        ensures
            final(self).wf(),
            delete_view_post(*old(self), *final(self), database_id@, view_id@),
    {
        let ghost s0 = *self;
        match self.get_or_create_database(database_id) {
            None => {},
            Some(_) => {
                proof {
                    assert(self.cache().contains_key(database_id@));
                    assert(cached_databases(self.databases).contains_key(database_id@));
                }
                let ghost c0 = cached_databases(self.databases);
                let ghost m0 = self.cache();
                let mut db = match cache_take(&mut self.databases, database_id) {
                    Some(db) => db,
                    None => {
                        proof {
                            assert(false);
                        }
                        return;
                    },
                };
                proof {
                    assert(db@ == m0[database_id@]);
                }
                db.delete_view(view_id);
                let inline = db.is_inline_view(view_id);
                let ghost dm = db@;
                cache_put(&mut self.databases, database_id.to_owned(), db);
                proof {
                    assert(self.cache() =~= m0.insert(database_id@, dm));
                    if s0.cache().contains_key(database_id@) {
                        assert(m0 == s0.cache());
                        assert(dm == (DatabaseModel {
                            views: s0.cache()[database_id@].views.remove(view_id@),
                            ..s0.cache()[database_id@]
                        }));
                    }
                }
                if inline {
                    self.delete_database(database_id);
                }
            },
        }
    }

    /// Everything the database of `view_id` holds, opening it if needed.
    pub fn get_database_data(&mut self, view_id: &str) -> (r: Result<DatabaseData, DatabaseError>)
        requires
            old(self).wf(),
        ensures
            final(self).wf(),
            final(self).index() == old(self).index(),
            final(self).has_persistence() == old(self).has_persistence(),
            (forall|k: Seq<char>| #[trigger]
                old(self).index().contains_key(k) ==> !old(self).index()[k].contains(view_id@)) ==> r
                == Err::<DatabaseData, DatabaseError>(DatabaseError::DatabaseNotExist),
            all_linking_open(old(self).index(), old(self).cache(), view_id@) ==> r is Ok,
            r matches Err(e) ==> e == DatabaseError::DatabaseNotExist,
            r matches Ok(data) ==> holds_data(final(self).cache(), final(self).index(), view_id@, data),
    {
        match self.get_database_with_view_id(view_id) {
            Some(db) => {
                let data = db.get_database_data();
                proof {
                    assert(final(self).cache().contains_key(db@.database_id));
                    assert(final(self).cache()[db@.database_id] == db@);
                }
                Ok(data)
            },
            None => Err(DatabaseError::DatabaseNotExist),
        }
    }

    /// A copy of the database of `view_id` under fresh ids: the database id,
    /// every view id and every row id get one suffix, longer than any id of
    /// the source or of the index, so none of them collides.
    pub fn duplicate_database(&mut self, view_id: &str) -> (r: Result<Database, DatabaseError>)
        requires
            old(self).wf(),
        ensures
            final(self).wf(),
            final(self).has_persistence() == old(self).has_persistence(),
            (forall|k: Seq<char>| #[trigger]
                old(self).index().contains_key(k) ==> !old(self).index()[k].contains(view_id@)) ==> r
                == Err::<Database, DatabaseError>(DatabaseError::DatabaseNotExist),
            r matches Ok(db) ==> {
                &&& !old(self).index().contains_key(db@.database_id)
                &&& final(self).cache().contains_key(db@.database_id)
                &&& final(self).cache()[db@.database_id] == db@
                &&& exists|src: Seq<char>|
                    #![trigger final(self).cache()[src]]
                    final(self).cache().contains_key(src) && final(self).index()[src].contains(view_id@)
                        && ids_disjoint(db@, final(self).cache()[src])
            },
    {
        let data = match self.get_database_data(view_id) {
            Ok(d) => d,
            Err(e) => {
                return Err(e);
            },
        };
        let ghost mid = *self;
        let ghost src = data.database_id@;
        let n = self.longest_id(&data);
        if n >= usize::MAX - 1 {
            return Err(DatabaseError::Internal("ids too long to copy".to_owned()));
        }
        let suffix = filler(n + 1);
        let params = CreateDatabaseParams::from_database_data(&data, suffix.as_str());
        let ghost pv = params;
        proof {
            mid.lemma_wf();
            assert(params.database_id@.len() > n);
            assert(!mid.index().contains_key(params.database_id@));
        }
        let r = self.create_database(params);
        proof {
            if r is Ok {
                let db = r->Ok_0;
                assert(mid.cache().contains_key(src));
                assert(src != db@.database_id);
                assert(self.cache()[src] == mid.cache()[src]);
                assert(self.index()[src] == mid.index()[src]);
                let s = mid.cache()[src];
                assert forall|k: Seq<char>| db@.views.contains_key(k) implies !s.views.contains_key(k) by {
                    if k != pv.inline_view_id@ {
                        let i = choose|i: int| 0 <= i < param_view_ids(pv.views@).len() && param_view_ids(pv.views@)[i] == k;
                        assert(k == view_ids(data.views@)[i] + suffix@);
                    }
                    if s.views.contains_key(k) {
                        assert(view_ids(data.views@).to_set().contains(k));
                        let j = choose|j: int| 0 <= j < view_ids(data.views@).len() && view_ids(data.views@)[j] == k;
                        assert(data.views@[j].id@ == k);
                    }
                }
                assert forall|a: int, b: int| 0 <= a < db@.row_ids.len() && 0 <= b < s.row_ids.len() implies
                    db@.row_ids[a] != s.row_ids[b] by {
                    assert(db@.row_ids[a] == strs(data.row_ids@)[a] + suffix@);
                    assert(s.row_ids[b] == data.row_ids@[b]@);
                }
                assert(ids_disjoint(db@, self.cache()[src]));
            }
        }
        r
    }

    /// A bound on the length of every id of `data` and of the index.
    fn longest_id(&self, data: &DatabaseData) -> (r: usize)
        requires
            self.wf(),
        ensures
            forall|k: Seq<char>| #[trigger] self.index().contains_key(k) ==> k.len() <= r,
            data.database_id@.len() <= r,
            forall|i: int| 0 <= i < data.views@.len() ==> (#[trigger] data.views@[i]).id@.len() <= r,
            forall|i: int| 0 <= i < data.row_ids@.len() ==> (#[trigger] data.row_ids@[i])@.len() <= r,
    {
        let mut r = self.body.longest_id();
        let n = data.database_id.as_str().unicode_len();
        if n > r {
            r = n;
        }
        let m = crate::body::longest_text(&data.row_ids);
        if m > r {
            r = m;
        }
        let mut i: usize = 0;
        while i < data.views.len()
            invariant
                0 <= i <= data.views@.len(),
                forall|k: Seq<char>| #[trigger] self.index().contains_key(k) ==> k.len() <= r,
                data.database_id@.len() <= r,
                forall|j: int| 0 <= j < data.row_ids@.len() ==> (#[trigger] data.row_ids@[j])@.len() <= r,
                forall|j: int| 0 <= j < i ==> (#[trigger] data.views@[j]).id@.len() <= r,
            decreases data.views@.len() - i,
        {
            let k = data.views[i].id.as_str().unicode_len();
            if k > r {
                r = k;
            }
            i = i + 1;
        }
        r
    }
}

/// The linked views a new database gets: its inline view, then the views
/// of its parameters, each once.
pub open spec fn linked_views_of(params: CreateDatabaseParams) -> Seq<Seq<char>> {
    dedup(seq![params.inline_view_id@] + param_view_ids(params.views@))
}

/// Some database links `view_id`, and every database that does is open.
pub open spec fn all_linking_open(
    index: Map<Seq<char>, Seq<Seq<char>>>,
    cache: Map<Seq<char>, DatabaseModel>,
    view_id: Seq<char>,
) -> bool {
    &&& exists|k: Seq<char>| #[trigger] index.contains_key(k) && index[k].contains(view_id)
    &&& forall|k: Seq<char>| #[trigger] index.contains_key(k) && index[k].contains(view_id) ==> cache.contains_key(k)
}

/// `data` is what the open database that links `view_id` holds.
pub open spec fn holds_data(
    cache: Map<Seq<char>, DatabaseModel>,
    index: Map<Seq<char>, Seq<Seq<char>>>,
    view_id: Seq<char>,
    data: DatabaseData,
) -> bool {
    let src = data.database_id@;
    &&& cache.contains_key(src)
    &&& index.contains_key(src)
    &&& index[src].contains(view_id)
    &&& cache[src].inline_view_id == data.inline_view_id@
    &&& cache[src].views.dom() == view_ids(data.views@).to_set()
    &&& cache[src].row_ids == strs(data.row_ids@)
}

/// No id of `a` (database, view or row) is an id of the same kind in `b`.
pub open spec fn ids_disjoint(a: DatabaseModel, b: DatabaseModel) -> bool {
    &&& a.database_id != b.database_id
    &&& forall|k: Seq<char>| a.views.contains_key(k) ==> !b.views.contains_key(k)
    &&& forall|i: int, j: int| 0 <= i < a.row_ids.len() && 0 <= j < b.row_ids.len() ==> a.row_ids[i] != b.row_ids[j]
}

/// What `delete_view(id, view_id)` leaves: an id outside the index changes
/// nothing; deleting the inline view of an open database removes the
/// database from the index and the cache; deleting another view of an open
/// database removes that view only.
pub open spec fn delete_view_post<C: DatabaseCollabService, P: DatabaseCollabPersistenceService>(
    s0: WorkspaceDatabase<C, P>,
    s1: WorkspaceDatabase<C, P>,
    id: Seq<char>,
    view_id: Seq<char>,
) -> bool {
    &&& s1.has_persistence() == s0.has_persistence()
    &&& !s0.index().contains_key(id) ==> s1.index() == s0.index() && s1.cache() == s0.cache()
    &&& s0.cache().contains_key(id) && s0.cache()[id].inline_view_id == view_id ==> !s1.index().contains_key(id)
        && !s1.cache().contains_key(id)
    &&& s0.cache().contains_key(id) && s0.cache()[id].inline_view_id != view_id ==> {
        &&& s1.index() == s0.index()
        &&& s1.cache() == s0.cache().insert(id, DatabaseModel { views: s0.cache()[id].views.remove(view_id), ..s0.cache()[id] })
    }
    &&& s1.index().contains_key(id) ==> s1.index() == s0.index()
}

/// What `create_database_linked_view(params)` leaves and returns: invalid
/// parameters change nothing; a database outside the index is an error; an
/// open database always gets the view; on success the view id is linked
/// (once) and the view is in the open database.
pub open spec fn linked_view_post<C: DatabaseCollabService, P: DatabaseCollabPersistenceService>(
    s0: WorkspaceDatabase<C, P>,
    s1: WorkspaceDatabase<C, P>,
    params: CreateViewParams,
    r: Result<(), DatabaseError>,
) -> bool {
    let id = params.database_id@;
    let v = params.view_id@;
    &&& s1.has_persistence() == s0.has_persistence()
    &&& !(id.len() > 0 && v.len() > 0) ==> r == Err::<(), DatabaseError>(DatabaseError::InvalidParams) && s1 == s0
    &&& id.len() > 0 && v.len() > 0 && !s0.index().contains_key(id) ==> r == Err::<(), DatabaseError>(
        DatabaseError::DatabaseNotExist,
    )
    &&& id.len() > 0 && v.len() > 0 && s0.index().contains_key(id) && s0.cache().contains_key(id) ==> r is Ok
    &&& r matches Err(e) ==> s1.index() == s0.index() && (e == DatabaseError::InvalidParams || e
        == DatabaseError::DatabaseNotExist)
    &&& r is Ok ==> {
        &&& s0.index().contains_key(id)
        &&& s1.index() == s0.index().insert(id, link(s0.index()[id], v))
        &&& s1.cache().contains_key(id)
        &&& s1.cache()[id].views.contains_key(v)
        &&& s1.cache()[id].views[v] == view_from_params(params, id)
    }
}

/// Linking the same view id to a database twice leaves it among the
/// database's linked views exactly once.
pub proof fn lemma_link_view_twice<C: DatabaseCollabService, P: DatabaseCollabPersistenceService>(
    s0: WorkspaceDatabase<C, P>,
    s1: WorkspaceDatabase<C, P>,
    s2: WorkspaceDatabase<C, P>,
    first: CreateViewParams,
    second: CreateViewParams,
    first_result: Result<(), DatabaseError>,
    second_result: Result<(), DatabaseError>,
)
    requires
        s0.wf(),
        linked_view_post(s0, s1, first, first_result),
        linked_view_post(s1, s2, second, second_result),
        first_result is Ok,
        second_result is Ok,
        first.database_id@ == second.database_id@,
        first.view_id@ == second.view_id@,
    ensures
        s2.index()[first.database_id@] == s1.index()[first.database_id@],
        s2.index()[first.database_id@].contains(first.view_id@),
        forall|i: int, j: int|
            0 <= i < s2.index()[first.database_id@].len() && 0 <= j < s2.index()[first.database_id@].len()
                && s2.index()[first.database_id@][i] == first.view_id@ && s2.index()[first.database_id@][j]
                == first.view_id@ ==> i == j,
{
    let id = first.database_id@;
    let v = first.view_id@;
    s0.lemma_wf();
    crate::body::lemma_link_twice(s0.index()[id], v);
}

/// Deleting the inline view of an open database removes the database from
/// the index and the cache, after which opening it by id gives `None`.
pub proof fn lemma_inline_view_deletion<C: DatabaseCollabService, P: DatabaseCollabPersistenceService>(
    s0: WorkspaceDatabase<C, P>,
    s1: WorkspaceDatabase<C, P>,
    s2: WorkspaceDatabase<C, P>,
    id: Seq<char>,
    view_id: Seq<char>,
    r: Option<Database>,
)
    requires
        s0.cache().contains_key(id),
        s0.cache()[id].inline_view_id == view_id,
        delete_view_post(s0, s1, id, view_id),
        get_or_create_post(s1, s2, id, r),
    ensures
        !s1.index().contains_key(id),
        !s1.cache().contains_key(id),
        r is None,
{
}

/// After the first `k` of a run of `get_or_create_database(id)` calls: a
/// database open at the start stays open, handed out as it is, with nothing
/// constructed; otherwise, either nothing was constructed and nothing handed
/// out, or one handle was constructed and every handle handed out is it.
pub open spec fn single_construction<C: DatabaseCollabService, P: DatabaseCollabPersistenceService>(
    s0: WorkspaceDatabase<C, P>,
    sk: WorkspaceDatabase<C, P>,
    results: Seq<Option<Database>>,
    id: Seq<char>,
) -> bool {
    &&& sk.index() == s0.index()
    &&& s0.cache().contains_key(id) ==> {
        &&& sk.cache().contains_key(id)
        &&& sk.cache()[id] == s0.cache()[id]
        &&& sk.built() == s0.built()
        &&& forall|j: int| 0 <= j < results.len() && #[trigger] results[j] is Some ==> results[j]->Some_0@ == s0.cache()[id]
    }
    &&& !s0.cache().contains_key(id) ==> {
        &&& sk.cache().contains_key(id) ==> sk.built() == s0.built() + 1 && forall|j: int|
            0 <= j < results.len() && #[trigger] results[j] is Some ==> results[j]->Some_0@ == sk.cache()[id]
        &&& !sk.cache().contains_key(id) ==> sk.built() == s0.built() && forall|j: int|
            0 <= j < results.len() ==> #[trigger] results[j] is None
    }
}

proof fn lemma_single_construction_prefix<C: DatabaseCollabService, P: DatabaseCollabPersistenceService>(
    states: Seq<WorkspaceDatabase<C, P>>,
    results: Seq<Option<Database>>,
    id: Seq<char>,
    k: int,
)
    requires
        states.len() == results.len() + 1,
        forall|i: int| 0 <= i < results.len() ==> get_or_create_post(#[trigger] states[i], states[i + 1], id, results[i]),
        0 <= k <= results.len(),
    ensures
        single_construction(states[0], states[k], results.take(k), id),
    decreases k,
{
    if k == 0 {
        assert(results.take(0) =~= Seq::<Option<Database>>::empty());
    } else {
        lemma_single_construction_prefix(states, results, id, k - 1);
        assert(get_or_create_post(states[k - 1], states[k], id, results[k - 1]));
        let prev = results.take(k - 1);
        assert(results.take(k) =~= prev.push(results[k - 1]));
        assert forall|j: int| 0 <= j < k - 1 implies results.take(k)[j] == prev[j] by {}
    }
}

/// However many times `get_or_create_database(id)` is called in a row, at
/// most one handle is constructed, and every handle handed out is the same
/// one: the same contents under the same construction number.
pub proof fn lemma_single_construction<C: DatabaseCollabService, P: DatabaseCollabPersistenceService>(
    states: Seq<WorkspaceDatabase<C, P>>,
    results: Seq<Option<Database>>,
    id: Seq<char>,
)
    requires
        states.len() == results.len() + 1,
        forall|i: int| 0 <= i < results.len() ==> get_or_create_post(#[trigger] states[i], states[i + 1], id, results[i]),
    ensures
        states.last().built() <= states[0].built() + 1,
        forall|i: int, j: int|
            0 <= i < results.len() && 0 <= j < results.len() && #[trigger] results[i] is Some
                && #[trigger] results[j] is Some ==> results[i]->Some_0@ == results[j]->Some_0@,
{
    let n = results.len() as int;
    lemma_single_construction_prefix(states, results, id, n);
    assert(results.take(n) =~= results);
    assert(states.last() == states[n]);
}

/// A string of `n` characters.
fn filler(n: usize) -> (r: String)
    ensures
        r@.len() == n,
{
    let mut s = String::new();
    let mut i: usize = 0;
    proof {
        reveal_strlit("~");
    }
    while i < n
        invariant
            0 <= i <= n,
            s@.len() == i,
            "~"@.len() == 1,
        decreases n - i,
    {
        s.append("~");
        i = i + 1;
    }
    s
}

/// What `get_or_create_database(id)` leaves and returns: the index is kept;
/// an id outside the index gives `None`; a cached database is handed out as
/// it is; on a miss either nothing changes and `None` comes back, or exactly
/// one handle is constructed, numbered by the construction count, cached and
/// handed out.
pub open spec fn get_or_create_post<C: DatabaseCollabService, P: DatabaseCollabPersistenceService>(
    s0: WorkspaceDatabase<C, P>,
    s1: WorkspaceDatabase<C, P>,
    id: Seq<char>,
    r: Option<Database>,
) -> bool {
    &&& s1.index() == s0.index()
    &&& s1.has_persistence() == s0.has_persistence()
    &&& r matches Some(db) ==> db.wf()
    &&& !s0.index().contains_key(id) ==> r is None && s1.cache() == s0.cache() && s1.built() == s0.built()
    &&& s0.index().contains_key(id) && s0.cache().contains_key(id) ==> {
        &&& r matches Some(db) && db@ == s0.cache()[id]
        &&& s1.cache() == s0.cache()
        &&& s1.built() == s0.built()
    }
    &&& s0.index().contains_key(id) && !s0.cache().contains_key(id) ==> {
        &&& r is None ==> s1.cache() == s0.cache() && s1.built() == s0.built()
        &&& r matches Some(db) ==> {
            &&& db.wf()
            &&& db@.database_id == id
            &&& db@.serial == s0.built()
            &&& s1.built() == s0.built() + 1
            &&& s1.cache() == s0.cache().insert(id, db@)
        }
        &&& !s0.has_persistence() ==> r is None
    }
}

} // verus!
