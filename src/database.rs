//! One database: its views and rows, how it is created from parameters or
//! opened from loaded data, and how a copy with fresh ids is derived.
use vstd::prelude::*;
use vstd::string::StringExecFns;
use vstd::string::StrSliceExecFns;
use crate::body::{copy_strings, strs};
use crate::text::same_text;
use crate::views::{DatabaseLayout, DatabaseView, DatabaseViewModel, ViewMap};

verus! {

/// Errors of the workspace and database operations.
#[derive(Clone, Debug, PartialEq, Eq)]
pub enum DatabaseError {
    /// The requested database or view cannot be resolved.
    DatabaseNotExist,
    /// An object lacks data its type requires.
    NoRequiredData,
    /// An id that must not be empty is empty.
    InvalidParams,
    /// A collaborator failed.
    Internal(String),
}

/// Rows loaded when a database that was not on disk is first opened.
pub const FIRST_SCREEN_ROW_COUNT: usize = 50;

/// Parameters of a new view.
pub struct CreateViewParams {
    pub database_id: String,
    pub view_id: String,
    pub name: String,
    pub layout: DatabaseLayout,
}

impl CreateViewParams {
    /// The parameters, provided both ids are non-empty.
    pub fn validate(self) -> (r: Result<Self, DatabaseError>)
        ensures
            r is Ok <==> (self.database_id@.len() > 0 && self.view_id@.len() > 0),
            r matches Ok(p) ==> p == self,
            r matches Err(e) ==> e == DatabaseError::InvalidParams,
    {
        if self.database_id.as_str().unicode_len() == 0 || self.view_id.as_str().unicode_len() == 0 {
            Err(DatabaseError::InvalidParams)
        } else {
            Ok(self)
        }
    }
}

/// Parameters of a new database.
pub struct CreateDatabaseParams {
    pub database_id: String,
    pub inline_view_id: String,
    pub views: Vec<CreateViewParams>,
    pub row_ids: Vec<String>,
}

/// The view ids of a set of view parameters.
pub open spec fn param_view_ids(views: Seq<CreateViewParams>) -> Seq<Seq<char>> {
    views.map_values(|p: CreateViewParams| p.view_id@)
}

/// Everything a database holds, as plain values.
pub struct DatabaseData {
    pub database_id: String,
    pub inline_view_id: String,
    pub views: Vec<DatabaseView>,
    pub row_ids: Vec<String>,
}

/// The view ids of a list of views.
pub open spec fn view_ids(views: Seq<DatabaseView>) -> Seq<Seq<char>> {
    views.map_values(|v: DatabaseView| v.id@)
}

/// What a database holds, as mathematical values.
pub struct DatabaseModel {
    pub database_id: Seq<char>,
    pub inline_view_id: Seq<char>,
    pub views: Map<Seq<char>, DatabaseViewModel>,
    pub row_ids: Seq<Seq<char>>,
    pub loaded_rows: nat,
    pub serial: u64,
}

/// An open database: its views, its rows in order, how many rows are loaded,
/// and the number under which it was constructed.
pub struct Database {
    pub database_id: String,
    pub inline_view_id: String,
    pub views: ViewMap,
    pub row_ids: Vec<String>,
    pub loaded_rows: usize,
    pub serial: u64,
}

impl View for Database {
    type V = DatabaseModel;

    open spec fn view(&self) -> DatabaseModel {
        DatabaseModel {
            database_id: self.database_id@,
            inline_view_id: self.inline_view_id@,
            views: self.views@,
            row_ids: strs(self.row_ids@),
            loaded_rows: self.loaded_rows as nat,
            serial: self.serial,
        }
    }
}

/// The view a database gets for view parameters `p`.
pub open spec fn view_from_params(p: CreateViewParams, database_id: Seq<char>) -> DatabaseViewModel {
    DatabaseViewModel {
        id: p.view_id@,
        database_id,
        name: p.name@,
        layout: p.layout,
        layout_settings: Map::empty(),
        filters: Seq::empty(),
        group_settings: Seq::empty(),
        sorts: Seq::empty(),
        field_orders: Seq::empty(),
        row_orders: Seq::empty(),
    }
}

/// `v` is the view made for id `k` from one of the parameters `ps`.
pub open spec fn made_from_params(
    ps: Seq<CreateViewParams>,
    database_id: Seq<char>,
    k: Seq<char>,
    v: DatabaseViewModel,
) -> bool {
    exists|a: int| 0 <= a < ps.len() && (#[trigger] ps[a]).view_id@ == k && v == view_from_params(ps[a], database_id)
}

/// A view built from `p` for database `database_id`.
fn view_of_params(p: &CreateViewParams, database_id: &String) -> (r: DatabaseView)
    ensures
        r.wf(),
        r@ == view_from_params(*p, database_id@),
{
    let r = DatabaseView::new(p.view_id.clone(), database_id.clone(), p.name.clone(), p.layout);
    r
}

impl Database {
    pub open spec fn wf(&self) -> bool {
        &&& self.views.wf()
        &&& self.loaded_rows <= self.row_ids@.len()
    }

    /// A new database built from `params`: one view per view parameter, the
    /// inline view included; a default grid view stands for an inline view
    /// that has no parameters. No row is loaded yet.
    pub fn create_with_view(params: CreateDatabaseParams, serial: u64) -> (r: Self)
        ensures
            r.wf(),
            r@.database_id == params.database_id@,
            r@.inline_view_id == params.inline_view_id@,
            r@.views.dom() == param_view_ids(params.views@).to_set().insert(params.inline_view_id@),
            forall|k: Seq<char>| #[trigger]
                r@.views.contains_key(k) ==> made_from_params(params.views@, params.database_id@, k, r@.views[k])
                    || (k == params.inline_view_id@ && !param_view_ids(params.views@).contains(k)),
            r@.row_ids == strs(params.row_ids@),
            r@.loaded_rows == 0,
            r@.serial == serial,
    {
        let mut views = ViewMap::new();
        let ghost ps = params.views@;
        let ghost pids = param_view_ids(ps);
        let mut i: usize = 0;
        proof {
            assert(views@.dom() =~= pids.take(0).to_set());
        }
        while i < params.views.len()
            invariant
                ps == params.views@,
                pids == param_view_ids(ps),
                0 <= i <= ps.len(),
                views.wf(),
                views@.dom() == pids.take(i as int).to_set(),
                forall|k: Seq<char>| #[trigger]
                    views@.contains_key(k) ==> made_from_params(ps, params.database_id@, k, views@[k]),
            decreases ps.len() - i,
        {
            let v = view_of_params(&params.views[i], &params.database_id);
            views.insert_view(v);
            proof {
                assert(pids.take(i + 1) =~= pids.take(i as int).push(pids[i as int]));
                pids.take(i as int).lemma_push_to_set_commute(pids[i as int]);
                assert(views@.dom() =~= pids.take(i + 1).to_set());
                assert(ps[i as int].view_id@ == pids[i as int]);
            }
            i = i + 1;
        }
        proof {
            assert(pids.take(i as int) =~= pids);
        }
        let ghost before = views@;
        if !views.get_view(params.inline_view_id.as_str()).is_some() {
            let v = DatabaseView::new(
                params.inline_view_id.clone(),
                params.database_id.clone(),
                String::new(),
                DatabaseLayout::Grid,
            );
            views.insert_view(v);
        }
        proof {
            assert(views@.dom() =~= pids.to_set().insert(params.inline_view_id@));
            assert forall|k: Seq<char>| #[trigger] views@.contains_key(k) implies made_from_params(
                ps,
                params.database_id@,
                k,
                views@[k],
            ) || (k == params.inline_view_id@ && !pids.contains(k)) by {
                if before.contains_key(k) && views@[k] == before[k] {
                } else {
                    assert(!before.contains_key(params.inline_view_id@));
                    assert(!pids.to_set().contains(k));
                }
            }
        }
        Database {
            database_id: params.database_id,
            inline_view_id: params.inline_view_id,
            views,
            row_ids: params.row_ids,
            loaded_rows: 0,
            serial,
        }
    }

    /// A database holding what was loaded, provided every view in it is well
    /// formed; no row is loaded yet.
    pub fn open_with_data(data: DatabaseData, serial: u64) -> (r: Result<Self, DatabaseError>)
        ensures
            r is Ok <==> forall|i: int| 0 <= i < data.views@.len() ==> (#[trigger] data.views@[i]).wf(),
            r matches Err(e) ==> e == DatabaseError::NoRequiredData,
            r matches Ok(db) ==> {
                &&& db.wf()
                &&& db@.database_id == data.database_id@
                &&& db@.inline_view_id == data.inline_view_id@
                &&& db@.views.dom() == view_ids(data.views@).to_set()
                &&& db@.row_ids == strs(data.row_ids@)
                &&& db@.loaded_rows == 0
                &&& db@.serial == serial
            },
    {
        let mut views = ViewMap::new();
        let ghost vs = data.views@;
        let ghost ids = view_ids(vs);
        let mut i: usize = 0;
        proof {
            assert(views@.dom() =~= ids.take(0).to_set());
        }
        while i < data.views.len()
            invariant
                vs == data.views@,
                ids == view_ids(vs),
                0 <= i <= vs.len(),
                forall|j: int| 0 <= j < i ==> (#[trigger] vs[j]).wf(),
                views.wf(),
                views@.dom() == ids.take(i as int).to_set(),
            decreases vs.len() - i,
        {
            if !data.views[i].is_well_formed() {
                return Err(DatabaseError::NoRequiredData);
            }
            let v = data.views[i].copy();
            views.insert_view(v);
            proof {
                assert(ids.take(i + 1) =~= ids.take(i as int).push(ids[i as int]));
                ids.take(i as int).lemma_push_to_set_commute(ids[i as int]);
                assert(views@.dom() =~= ids.take(i + 1).to_set());
            }
            i = i + 1;
        }
        proof {
            assert(ids.take(i as int) =~= ids);
        }
        Ok(
            Database {
                database_id: data.database_id,
                inline_view_id: data.inline_view_id,
                views,
                row_ids: data.row_ids,
                loaded_rows: 0,
                serial,
            },
        )
    }

    /// The handle for database `database_id` made from what the collab
    /// service loaded: `None` when loading failed or a loaded view is not
    /// well formed. A database that was not on disk gets its first screen of
    /// rows loaded.
    pub fn open_loaded(
        database_id: &str,
        loaded: Result<DatabaseData, DatabaseError>,
        on_disk: bool,
        serial: u64,
    ) -> (r: Option<Self>)
        ensures
            r is Some <==> (loaded matches Ok(data) && forall|i: int|
                0 <= i < data.views@.len() ==> (#[trigger] data.views@[i]).wf()),
            r matches Some(db) ==> loaded matches Ok(data) && {
                &&& db.wf()
                &&& db@.database_id == database_id@
                &&& db@.inline_view_id == data.inline_view_id@
                &&& db@.views.dom() == view_ids(data.views@).to_set()
                &&& db@.row_ids == strs(data.row_ids@)
                &&& db@.loaded_rows == (if on_disk {
                    0
                } else if data.row_ids@.len() < FIRST_SCREEN_ROW_COUNT {
                    data.row_ids@.len()
                } else {
                    FIRST_SCREEN_ROW_COUNT as nat
                })
                &&& db@.serial == serial
            },
    {
        let data = match loaded {
            Ok(d) => d,
            Err(_) => {
                return None;
            },
        };
        let ghost d = data;
        let mut database = match Database::open_with_data(data, serial) {
            Ok(db) => db,
            Err(_) => {
                return None;
            },
        };
        proof {
            assert(database.row_ids@.len() == strs(database.row_ids@).len());
            assert(strs(d.row_ids@).len() == d.row_ids@.len());
        }
        database.database_id = database_id.to_owned();
        if !on_disk {
            database.load_first_screen_rows();
        }
        Some(database)
    }

    /// Loads the first window of rows rather than all of them.
    pub fn load_first_screen_rows(&mut self)
        requires
            old(self).wf(),
        ensures
            final(self).wf(),
            final(self)@ == (DatabaseModel {
                loaded_rows: if old(self).row_ids@.len() < FIRST_SCREEN_ROW_COUNT {
                    old(self).row_ids@.len()
                } else {
                    FIRST_SCREEN_ROW_COUNT as nat
                },
                ..old(self)@
            }),
    {
        let n = self.row_ids.len();
        self.loaded_rows = if n < FIRST_SCREEN_ROW_COUNT {
            n
        } else {
            FIRST_SCREEN_ROW_COUNT
        };
    }

    /// Whether `view_id` is the inline view, whose deletion deletes the database.
    pub fn is_inline_view(&self, view_id: &str) -> (r: bool)
        ensures
            r == (self.inline_view_id@ == view_id@),
    {
        same_text(self.inline_view_id.as_str(), view_id)
    }

    /// Adds a view of this database, replacing one with the same id.
    pub fn create_linked_view(&mut self, params: CreateViewParams)
        requires
            old(self).wf(),
        ensures
            final(self).wf(),
            final(self)@ == (DatabaseModel {
                views: old(self)@.views.insert(
                    params.view_id@,
                    view_from_params(params, old(self).database_id@),
                ),
                ..old(self)@
            }),
    {
        let v = view_of_params(&params, &self.database_id);
        self.views.insert_view(v);
    }

    /// Removes a view of this database.
    pub fn delete_view(&mut self, view_id: &str)
        requires
            old(self).wf(),
        ensures
            final(self).wf(),
            final(self)@ == (DatabaseModel { views: old(self)@.views.remove(view_id@), ..old(self)@ }),
    {
        self.views.delete_view(view_id);
    }

    /// Everything the database holds.
    pub fn get_database_data(&self) -> (r: DatabaseData)
        requires
            self.wf(),
        ensures
            r.database_id@ == self.database_id@,
            r.inline_view_id@ == self.inline_view_id@,
            r.row_ids@ == self.row_ids@,
            view_ids(r.views@).to_set() == self@.views.dom(),
            forall|i: int|
                0 <= i < r.views@.len() ==> (#[trigger] r.views@[i]).wf() && r.views@[i]@
                    == self@.views[r.views@[i].id@],
    {
        let views = self.views.get_all_views();
        proof {
            assert(view_ids(views@).to_set() =~= self@.views.dom()) by {
                assert forall|k: Seq<char>| #[trigger] self@.views.contains_key(k) implies view_ids(
                    views@,
                ).to_set().contains(k) by {
                    let i = choose|i: int| 0 <= i < views@.len() && (#[trigger] views@[i]).id@ == k;
                    assert(view_ids(views@)[i] == k);
                }
                assert forall|k: Seq<char>| #[trigger] view_ids(views@).to_set().contains(k) implies self@.views.contains_key(k) by {
                    let i = choose|i: int| 0 <= i < view_ids(views@).len() && view_ids(views@)[i] == k;
                    assert(views@[i].id@ == k);
                }
            }
        }
        DatabaseData {
            database_id: self.database_id.clone(),
            inline_view_id: self.inline_view_id.clone(),
            views,
            row_ids: copy_strings(&self.row_ids),
        }
    }

    /// An equal, independent database.
    pub fn copy(&self) -> (r: Self)
        requires
            self.wf(),
        ensures
            r.wf(),
            r@ == self@,
    {
        Database {
            database_id: self.database_id.clone(),
            inline_view_id: self.inline_view_id.clone(),
            views: self.views.copy(),
            row_ids: copy_strings(&self.row_ids),
            loaded_rows: self.loaded_rows,
            serial: self.serial,
        }
    }
}

/// `s` followed by `suffix`.
fn with_suffix(s: &String, suffix: &str) -> (r: String)
    ensures
        r@ == s@ + suffix@,
{
    s.clone().concat(suffix)
}

/// The ids of a copy: each id of `data` followed by `suffix`.
pub open spec fn suffixed(ids: Seq<Seq<char>>, suffix: Seq<char>) -> Seq<Seq<char>> {
    ids.map_values(|s: Seq<char>| s + suffix)
}

impl CreateDatabaseParams {
    /// Parameters of a copy of `data` in which every id (database, views,
    /// rows) is the id in `data` followed by `suffix`.
    pub fn from_database_data(data: &DatabaseData, suffix: &str) -> (r: Self)
        ensures
            r.database_id@ == data.database_id@ + suffix@,
            r.inline_view_id@ == data.inline_view_id@ + suffix@,
            param_view_ids(r.views@) == suffixed(view_ids(data.views@), suffix@),
            forall|i: int|
                0 <= i < r.views@.len() ==> (#[trigger] r.views@[i]).name@ == data.views@[i].name@
                    && r.views@[i].layout == data.views@[i].layout && r.views@[i].database_id@
                    == r.database_id@,
            strs(r.row_ids@) == suffixed(strs(data.row_ids@), suffix@),
    {
        let database_id = with_suffix(&data.database_id, suffix);
        let mut views: Vec<CreateViewParams> = Vec::new();
        let mut i: usize = 0;
        while i < data.views.len()
            invariant
                0 <= i <= data.views@.len(),
                database_id@ == data.database_id@ + suffix@,
                views@.len() == i,
                forall|j: int|
                    0 <= j < i ==> (#[trigger] views@[j]).view_id@ == data.views@[j].id@ + suffix@
                        && views@[j].name@ == data.views@[j].name@ && views@[j].layout
                        == data.views@[j].layout && views@[j].database_id@ == database_id@,
            decreases data.views@.len() - i,
        {
            let v = &data.views[i];
            views.push(
                CreateViewParams {
                    database_id: database_id.clone(),
                    view_id: with_suffix(&v.id, suffix),
                    name: v.name.clone(),
                    layout: v.layout,
                },
            );
            i = i + 1;
        }
        let mut row_ids: Vec<String> = Vec::new();
        let mut j: usize = 0;
        while j < data.row_ids.len()
            invariant
                0 <= j <= data.row_ids@.len(),
                row_ids@.len() == j,
                forall|t: int| 0 <= t < j ==> (#[trigger] row_ids@[t])@ == data.row_ids@[t]@ + suffix@,
            decreases data.row_ids@.len() - j,
        {
            row_ids.push(with_suffix(&data.row_ids[j], suffix));
            j = j + 1;
        }
        proof {
            assert(param_view_ids(views@) =~= suffixed(view_ids(data.views@), suffix@));
            assert(strs(row_ids@) =~= suffixed(strs(data.row_ids@), suffix@));
        }
        CreateDatabaseParams {
            database_id,
            inline_view_id: with_suffix(&data.inline_view_id, suffix),
            views,
            row_ids,
        }
    }
}

/// A suffix longer than `n` characters makes every suffixed id longer than
/// any id of at most `n` characters, so no suffixed id equals one of them.
pub proof fn lemma_suffixed_ids_fresh(ids: Seq<Seq<char>>, others: Seq<Seq<char>>, suffix: Seq<char>, n: nat)
    requires
        suffix.len() > n,
        forall|i: int| 0 <= i < others.len() ==> (#[trigger] others[i]).len() <= n,
    ensures
        forall|i: int, j: int|
            0 <= i < ids.len() && 0 <= j < others.len() ==> (#[trigger] suffixed(ids, suffix)[i])
                != (#[trigger] others[j]),
{
    assert forall|i: int, j: int|
        0 <= i < ids.len() && 0 <= j < others.len() implies (#[trigger] suffixed(ids, suffix)[i])
        != (#[trigger] others[j]) by {
        assert(suffixed(ids, suffix)[i].len() == ids[i].len() + suffix.len());
    }
}

} // verus!
