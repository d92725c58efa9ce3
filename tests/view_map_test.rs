use collab_database::txn::TransactionMut;
use collab_database::type_option::{AnyValue, TypeOptionData};
use collab_database::views::{DatabaseLayout, DatabaseView, FieldOrder, RowOrder, ViewMap};

fn view(id: &str, name: &str) -> DatabaseView {
    DatabaseView::new(id.to_string(), "db".to_string(), name.to_string(), DatabaseLayout::Grid)
}

fn bag(k: &str, v: i64) -> TypeOptionData {
    let mut d = TypeOptionData::new();
    d.insert(k.to_string(), AnyValue::Number(v));
    d
}

#[test]
fn insert_and_read_views() {
    let mut map = ViewMap::new();
    let mut v = view("v1", "first");
    v.filters.push(bag("f", 1));
    v.sorts.push(bag("s", 2));
    v.group_settings.push(bag("g", 3));
    v.row_orders.push(RowOrder { id: "r1".to_string(), height: 40 });
    v.field_orders.push(FieldOrder { id: "f1".to_string() });
    v.layout_settings.set(DatabaseLayout::Board, bag("l", 4));
    map.insert_view(v);
    map.insert_view(view("v2", "second"));
    assert_eq!(map.len(), 2);
    let got = map.get_view("v1").unwrap();
    assert_eq!(got.name, "first");
    assert_eq!(map.get_view_filters("v1")[0].get("f"), Some(&AnyValue::Number(1)));
    assert_eq!(map.get_view_sorts("v1")[0].get("s"), Some(&AnyValue::Number(2)));
    assert_eq!(map.get_view_group_setting("v1")[0].get("g"), Some(&AnyValue::Number(3)));
    let txn = TransactionMut::new();
    assert_eq!(map.get_view_row_orders_with_txn(&txn, "v1"), vec![RowOrder { id: "r1".to_string(), height: 40 }]);
    assert_eq!(map.get_view_field_orders_txn(&txn, "v1"), vec![FieldOrder { id: "f1".to_string() }]);
    assert_eq!(
        map.get_layout_setting("v1", &DatabaseLayout::Board).unwrap().get("l"),
        Some(&AnyValue::Number(4))
    );
    assert!(map.get_layout_setting("v1", &DatabaseLayout::Calendar).is_none());
    assert_eq!(map.get_view_layout("v2"), Some(DatabaseLayout::Grid));
    let mut ids: Vec<String> = map.get_all_views().into_iter().map(|v| v.id).collect();
    ids.sort();
    assert_eq!(ids, vec!["v1".to_string(), "v2".to_string()]);
}

#[test]
fn absent_view_reads_are_empty() {
    let map = ViewMap::new();
    let txn = TransactionMut::new();
    assert!(map.get_view("nope").is_none());
    assert!(map.get_view_filters("nope").is_empty());
    assert!(map.get_view_sorts_with_txn(&txn, "nope").is_empty());
    assert!(map.get_view_group_setting_with_txn(&txn, "nope").is_empty());
    assert!(map.get_view_row_orders_with_txn(&txn, "nope").is_empty());
    assert!(map.get_view_field_orders_txn(&txn, "nope").is_empty());
    assert!(map.get_view_layout("nope").is_none());
    assert!(map.get_layout_setting("nope", &DatabaseLayout::Grid).is_none());
    assert!(map.get_all_views().is_empty());
}

#[test]
fn update_view_keeps_the_id_and_skips_missing_views() {
    let mut map = ViewMap::new();
    map.insert_view(view("v1", "old"));
    map.update_view("v1", |mut v| {
        v.name = "new".to_string();
        v.id = "other".to_string();
        v.layout = DatabaseLayout::Calendar;
        v
    });
    let got = map.get_view("v1").unwrap();
    assert_eq!(got.name, "new");
    assert_eq!(got.id, "v1");
    assert_eq!(got.layout, DatabaseLayout::Calendar);
    assert!(map.get_view("other").is_none());
    let mut txn = TransactionMut::new();
    map.update_view_with_txn(&mut txn, "missing", |mut v| {
        v.name = "x".to_string();
        v
    });
    assert_eq!(txn.len(), 0);
    assert_eq!(map.len(), 1);
}

#[test]
fn update_all_views_touches_each_view() {
    let mut map = ViewMap::new();
    map.insert_view(view("a", "a"));
    map.insert_view(view("b", "b"));
    let mut txn = TransactionMut::new();
    map.update_all_views_with_txn(&mut txn, |mut v| {
        v.name = format!("{}!", v.name);
        v
    });
    assert_eq!(map.get_view("a").unwrap().name, "a!");
    assert_eq!(map.get_view("b").unwrap().name, "b!");
    assert_eq!(map.len(), 2);
}

#[test]
fn delete_and_clear_views() {
    let mut map = ViewMap::new();
    let mut txn = TransactionMut::new();
    map.insert_view_with_txn(&mut txn, view("a", "a"));
    map.insert_view_with_txn(&mut txn, view("b", "b"));
    assert_eq!(txn.len(), 2);
    map.delete_view("a");
    assert!(map.get_view("a").is_none());
    map.delete_view_with_txn(&mut txn, "missing");
    assert_eq!(map.len(), 1);
    map.clear_with_txn(&mut txn);
    assert_eq!(map.len(), 0);
}
