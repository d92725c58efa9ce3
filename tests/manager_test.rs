use collab_database::body::WorkspaceDatabaseBody;
use collab_database::database::{
    CreateDatabaseParams, CreateViewParams, Database, DatabaseData, DatabaseError,
};
use collab_database::manager::{
    CollabPersistenceImpl, DatabaseCollabPersistenceService, DatabaseCollabService, WorkspaceDatabase,
};
use collab_database::proto::{CollabType, EncodedCollab};
use collab_database::views::{DatabaseLayout, DatabaseView};
use std::cell::{Cell, RefCell};
use std::collections::HashSet;
use std::rc::Rc;

/// Serves every database as one inline view and two rows.
struct MemService {
    builds: Rc<Cell<usize>>,
}

impl DatabaseCollabService for MemService {
    fn build_collab(
        &self,
        object_id: &str,
        _object_type: CollabType,
        _is_new: bool,
    ) -> Result<DatabaseData, DatabaseError> {
        self.builds.set(self.builds.get() + 1);
        let inline = format!("{}-inline", object_id);
        Ok(DatabaseData {
            database_id: object_id.to_string(),
            inline_view_id: inline.clone(),
            views: vec![DatabaseView::new(inline, object_id.to_string(), "Grid".to_string(), DatabaseLayout::Grid)],
            row_ids: vec![format!("{}-r1", object_id), format!("{}-r2", object_id)],
        })
    }
}

#[derive(Default)]
struct MemStore {
    existing: Vec<String>,
    deleted: RefCell<Vec<String>>,
    flushed: RefCell<Vec<(String, EncodedCollab)>>,
}

struct MemPersistence(Rc<MemStore>);

impl DatabaseCollabPersistenceService for MemPersistence {
    fn delete_collab(&self, object_id: &str) -> Result<(), DatabaseError> {
        self.0.deleted.borrow_mut().push(object_id.to_string());
        Ok(())
    }

    fn is_collab_exist(&self, object_id: &str) -> bool {
        self.0.existing.iter().any(|o| o == object_id)
    }

    fn flush_collabs(&self, encoded_collabs: Vec<(String, EncodedCollab)>) -> Result<(), DatabaseError> {
        self.0.flushed.borrow_mut().extend(encoded_collabs);
        Ok(())
    }

    fn load_collab(&self, _object_id: &str) -> Option<DatabaseData> {
        None
    }

    fn is_row_exist_partition(&self, row_ids: Vec<String>) -> (Vec<String>, Vec<String>) {
        (vec![], row_ids)
    }
}

fn workspace(store: Rc<MemStore>) -> (WorkspaceDatabase<MemService, MemPersistence>, Rc<Cell<usize>>) {
    let builds = Rc::new(Cell::new(0));
    let ws = WorkspaceDatabase::open(
        "workspace",
        WorkspaceDatabaseBody::new(),
        MemService { builds: builds.clone() },
        Some(MemPersistence(store)),
    );
    (ws, builds)
}

fn view_params(database_id: &str, view_id: &str) -> CreateViewParams {
    CreateViewParams {
        database_id: database_id.to_string(),
        view_id: view_id.to_string(),
        name: view_id.to_string(),
        layout: DatabaseLayout::Board,
    }
}

fn linked_views(ws: &WorkspaceDatabase<MemService, MemPersistence>, database_id: &str) -> Vec<String> {
    ws.get_all_database_meta()
        .into_iter()
        .find(|m| m.database_id == database_id)
        .map(|m| m.linked_views)
        .unwrap_or_default()
}

#[test]
fn create_database_links_inline_and_extra_views() {
    let (mut ws, _) = workspace(Rc::new(MemStore::default()));
    let params = CreateDatabaseParams {
        database_id: "d1".to_string(),
        inline_view_id: "v".to_string(),
        views: vec![view_params("d1", "v"), view_params("d1", "a"), view_params("d1", "b")],
        row_ids: vec!["r1".to_string()],
    };
    let db = ws.create_database(params).unwrap();
    let linked = linked_views(&ws, "d1");
    assert_eq!(linked.len(), 3);
    assert!(linked.contains(&"v".to_string()));
    assert_eq!(linked[0], "v");
    assert_eq!(db.views.len(), 3);
    assert_eq!(db.serial, 0);
    assert_eq!(ws.get_database_id_with_view_id("a"), Some("d1".to_string()));
}

#[test]
fn create_database_with_extra_views_only() {
    let (mut ws, _) = workspace(Rc::new(MemStore::default()));
    let params = CreateDatabaseParams {
        database_id: "d1".to_string(),
        inline_view_id: "v".to_string(),
        views: vec![view_params("d1", "a"), view_params("d1", "b")],
        row_ids: vec![],
    };
    let db = ws.create_database(params).unwrap();
    let linked: HashSet<String> = linked_views(&ws, "d1").into_iter().collect();
    assert_eq!(linked.len(), 3);
    assert!(linked.contains("v"));
    assert!(db.views.get_view("v").is_some());
}

#[test]
fn create_database_rejects_empty_id() {
    let (mut ws, _) = workspace(Rc::new(MemStore::default()));
    let params = CreateDatabaseParams {
        database_id: String::new(),
        inline_view_id: "v".to_string(),
        views: vec![],
        row_ids: vec![],
    };
    assert_eq!(ws.create_database(params).err(), Some(DatabaseError::InvalidParams));
    assert!(ws.get_all_database_meta().is_empty());
}

#[test]
fn unknown_database_is_none() {
    let (mut ws, builds) = workspace(Rc::new(MemStore::default()));
    assert!(ws.get_or_create_database("missing").is_none());
    assert!(ws.get_database_with_view_id("missing").is_none());
    assert_eq!(builds.get(), 0);
}

#[test]
fn repeated_opens_construct_one_handle() {
    let (mut ws, builds) = workspace(Rc::new(MemStore::default()));
    ws.track_database("d1", vec!["d1-inline".to_string()]);
    let first = ws.get_or_create_database("d1").unwrap();
    for _ in 0..5 {
        let again = ws.get_or_create_database("d1").unwrap();
        assert_eq!(again.serial, first.serial);
        assert_eq!(again.database_id, "d1");
    }
    assert_eq!(builds.get(), 1);
    // not on disk: the first screen of rows is loaded
    assert_eq!(first.loaded_rows, 2);
}

#[test]
fn database_on_disk_is_not_preloaded() {
    let store = Rc::new(MemStore { existing: vec!["d1".to_string()], ..Default::default() });
    let (mut ws, _) = workspace(store);
    ws.track_database("d1", vec!["d1-inline".to_string()]);
    let db = ws.get_or_create_database("d1").unwrap();
    assert_eq!(db.loaded_rows, 0);
}

#[test]
fn close_then_reopen_builds_again() {
    let (mut ws, builds) = workspace(Rc::new(MemStore::default()));
    ws.track_database("d1", vec![]);
    let a = ws.get_or_create_database("d1").unwrap();
    ws.close_database("d1");
    let b = ws.get_or_create_database("d1").unwrap();
    assert_eq!(builds.get(), 2);
    assert_ne!(a.serial, b.serial);
}

#[test]
fn linking_a_view_twice_keeps_one_entry() {
    let (mut ws, _) = workspace(Rc::new(MemStore::default()));
    ws.track_database("d1", vec!["d1-inline".to_string()]);
    assert!(ws.create_database_linked_view(view_params("d1", "v2")).is_ok());
    assert!(ws.create_database_linked_view(view_params("d1", "v2")).is_ok());
    let linked = linked_views(&ws, "d1");
    assert_eq!(linked.iter().filter(|v| v.as_str() == "v2").count(), 1);
    assert_eq!(linked.len(), 2);
    let db = ws.get_or_create_database("d1").unwrap();
    assert!(db.views.get_view("v2").is_some());
}

#[test]
fn linking_to_unknown_or_invalid_fails() {
    let (mut ws, _) = workspace(Rc::new(MemStore::default()));
    assert_eq!(
        ws.create_database_linked_view(view_params("nope", "v")),
        Err(DatabaseError::DatabaseNotExist)
    );
    assert_eq!(ws.create_database_linked_view(view_params("", "v")), Err(DatabaseError::InvalidParams));
    assert_eq!(ws.create_database_linked_view(view_params("d", "")), Err(DatabaseError::InvalidParams));
}

#[test]
fn deleting_inline_view_deletes_database() {
    let store = Rc::new(MemStore::default());
    let (mut ws, _) = workspace(store.clone());
    ws.track_database("d1", vec!["d1-inline".to_string(), "other".to_string()]);
    assert!(ws.get_or_create_database("d1").is_some());
    ws.delete_view("d1", "d1-inline");
    assert!(ws.get_all_database_meta().is_empty());
    assert!(ws.get_or_create_database("d1").is_none());
    assert_eq!(*store.deleted.borrow(), vec!["d1".to_string()]);
}

#[test]
fn deleting_other_view_keeps_database() {
    let (mut ws, _) = workspace(Rc::new(MemStore::default()));
    ws.track_database("d1", vec!["d1-inline".to_string()]);
    ws.create_database_linked_view(view_params("d1", "v2")).unwrap();
    ws.delete_view("d1", "v2");
    let db = ws.get_or_create_database("d1").unwrap();
    assert!(db.views.get_view("v2").is_none());
    assert!(db.views.get_view("d1-inline").is_some());
}

#[test]
fn delete_database_removes_index_entry() {
    let (mut ws, _) = workspace(Rc::new(MemStore::default()));
    ws.track_database("d1", vec!["v".to_string()]);
    ws.delete_database("d1");
    assert!(ws.get_database_id_with_view_id("v").is_none());
    assert!(ws.get_or_create_database("d1").is_none());
}

#[test]
fn duplicate_gets_fresh_ids() {
    let (mut ws, _) = workspace(Rc::new(MemStore::default()));
    ws.track_database("d1", vec!["d1-inline".to_string()]);
    let source = ws.get_database_with_view_id("d1-inline").unwrap();
    let copy = ws.duplicate_database("d1-inline").unwrap();
    assert_ne!(copy.database_id, source.database_id);
    let source_views: HashSet<String> = source.views.get_all_views().into_iter().map(|v| v.id).collect();
    for v in copy.views.get_all_views() {
        assert!(!source_views.contains(&v.id));
    }
    for r in &copy.row_ids {
        assert!(!source.row_ids.contains(r));
    }
    assert_eq!(copy.row_ids.len(), source.row_ids.len());
    assert_eq!(ws.get_all_database_meta().len(), 2);
    assert_eq!(ws.duplicate_database("nope").err(), Some(DatabaseError::DatabaseNotExist));
}

#[test]
fn get_database_data_reads_the_open_database() {
    let (mut ws, _) = workspace(Rc::new(MemStore::default()));
    ws.track_database("d1", vec!["d1-inline".to_string()]);
    let data = ws.get_database_data("d1-inline").unwrap();
    assert_eq!(data.database_id, "d1");
    assert_eq!(data.row_ids, vec!["d1-r1".to_string(), "d1-r2".to_string()]);
    assert_eq!(ws.get_database_data("zzz").err(), Some(DatabaseError::DatabaseNotExist));
}

#[test]
fn flush_hands_the_encoded_index_to_storage() {
    let store = Rc::new(MemStore::default());
    let (mut ws, _) = workspace(store.clone());
    ws.track_database("d", vec!["v".to_string()]);
    assert_eq!(ws.validate(), Ok(()));
    ws.flush_workspace_database().unwrap();
    let flushed = store.flushed.borrow();
    assert_eq!(flushed.len(), 1);
    assert_eq!(flushed[0].0, "workspace");
    assert_eq!(flushed[0].1.doc_state, vec![0, 0, 0, 1, b'd', 0, 0, 0, 1, 0, 0, 0, 1, b'v']);
}

#[test]
fn flush_checks_required_data_and_storage() {
    let builds = Rc::new(Cell::new(0));
    let mut ws: WorkspaceDatabase<MemService, MemPersistence> =
        WorkspaceDatabase::open("w", WorkspaceDatabaseBody::new(), MemService { builds }, None);
    assert!(matches!(ws.flush_workspace_database(), Err(DatabaseError::Internal(_))));
    assert!(ws.get_or_create_database("d").is_none());
    ws.track_database("", vec![]);
    assert_eq!(ws.validate(), Err(DatabaseError::NoRequiredData));
    assert_eq!(ws.flush_workspace_database(), Err(DatabaseError::NoRequiredData));
}

fn loaded(rows: usize) -> DatabaseData {
    DatabaseData {
        database_id: "other".to_string(),
        inline_view_id: "v".to_string(),
        views: vec![DatabaseView::new("v".to_string(), "other".to_string(), "V".to_string(), DatabaseLayout::Grid)],
        row_ids: (0..rows).map(|i| format!("r{}", i)).collect(),
    }
}

#[test]
fn open_loaded_decides_from_the_load_result() {
    let db = Database::open_loaded("d", Ok(loaded(70)), false, 7).unwrap();
    assert_eq!(db.database_id, "d");
    assert_eq!(db.loaded_rows, 50);
    assert_eq!(db.serial, 7);
    let db = Database::open_loaded("d", Ok(loaded(3)), false, 0).unwrap();
    assert_eq!(db.loaded_rows, 3);
    let db = Database::open_loaded("d", Ok(loaded(3)), true, 0).unwrap();
    assert_eq!(db.loaded_rows, 0);
    assert!(Database::open_loaded("d", Err(DatabaseError::NoRequiredData), false, 0).is_none());
}

#[test]
fn persistence_loader_without_storage_loads_nothing() {
    let none: CollabPersistenceImpl<MemPersistence> = CollabPersistenceImpl { persistence: None };
    assert!(none.load_collab_from_disk("d").is_none());
    let some = CollabPersistenceImpl { persistence: Some(MemPersistence(Rc::new(MemStore::default()))) };
    assert!(some.load_collab_from_disk("d").is_none());
}
