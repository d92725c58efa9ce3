use collab_database::keyed::KeyedMap;
use collab_database::txn::TransactionMut;
use collab_database::type_option::{
    AnyValue, MapRef, MapValue, TypeOptionData, TypeOptions, TypeOptionsUpdate,
};

fn bag(pairs: &[(&str, AnyValue)]) -> TypeOptionData {
    let mut d = TypeOptionData::new();
    for (k, v) in pairs {
        d.insert(k.to_string(), v.clone());
    }
    d
}

fn bag_at<'a>(m: &'a MapRef, key: &str) -> &'a TypeOptionData {
    match m.get(key) {
        Some(MapValue::Bag(b)) => b,
        _ => panic!("no bag at {}", key),
    }
}

#[test]
fn type_options_insert_and_get() {
    let mut opts = TypeOptions::new();
    assert_eq!(opts.len(), 0);
    opts.insert("0".to_string(), bag(&[("format", AnyValue::Number(1))]));
    opts.insert("0".to_string(), bag(&[("format", AnyValue::Number(2))]));
    assert_eq!(opts.len(), 1);
    assert_eq!(opts.get("0").unwrap().get("format"), Some(&AnyValue::Number(2)));
    assert!(opts.get("1").is_none());
}

#[test]
fn from_map_ref_keeps_only_bags() {
    let mut m: MapRef = KeyedMap::new();
    m.insert("1".to_string(), MapValue::Bag(bag(&[("a", AnyValue::Bool(true))])));
    m.insert("x".to_string(), MapValue::Scalar(AnyValue::Text("plain".to_string())));
    let txn = TransactionMut::new();
    let opts = TypeOptions::from_map_ref(&txn, &m);
    assert_eq!(opts.len(), 1);
    assert_eq!(opts.get("1").unwrap().get("a"), Some(&AnyValue::Bool(true)));
    assert!(opts.get("x").is_none());
}

#[test]
fn fill_map_ref_merges_nested_keys() {
    let mut m: MapRef = KeyedMap::new();
    m.insert(
        "1".to_string(),
        MapValue::Bag(bag(&[("a", AnyValue::Number(1)), ("b", AnyValue::Number(2))])),
    );
    m.insert("2".to_string(), MapValue::Scalar(AnyValue::Null));
    let mut opts = TypeOptions::new();
    opts.insert("1".to_string(), bag(&[("b", AnyValue::Number(20)), ("c", AnyValue::Number(30))]));
    opts.insert("2".to_string(), bag(&[("z", AnyValue::Text("t".to_string()))]));
    let mut txn = TransactionMut::new();
    opts.fill_map_ref(&mut txn, &mut m);
    assert_eq!(txn.len(), 2);
    let one = bag_at(&m, "1");
    assert_eq!(one.len(), 3);
    assert_eq!(one.get("a"), Some(&AnyValue::Number(1)));
    assert_eq!(one.get("b"), Some(&AnyValue::Number(20)));
    assert_eq!(one.get("c"), Some(&AnyValue::Number(30)));
    let two = bag_at(&m, "2");
    assert_eq!(two.len(), 1);
    assert_eq!(two.get("z"), Some(&AnyValue::Text("t".to_string())));
}

#[test]
fn update_builder_upserts_and_removes() {
    let m: MapRef = KeyedMap::new();
    let u = TypeOptionsUpdate::new(TransactionMut::new(), m);
    let u = u.insert("1", bag(&[("a", AnyValue::Number(1))]));
    let u = u.update("1", bag(&[("b", AnyValue::Number(2))]));
    let u = u.insert("2", bag(&[]));
    assert_eq!(bag_at(&u.map_ref, "1").len(), 2);
    assert_eq!(u.map_ref.len(), 2);
    let u = u.remove("2");
    let u = u.remove("missing");
    assert_eq!(u.map_ref.len(), 1);
    assert!(u.map_ref.get("2").is_none());
    assert_eq!(u.txn.len(), 5);
}

#[test]
fn upserting_twice_gives_the_same_bag() {
    let m: MapRef = KeyedMap::new();
    let u = TypeOptionsUpdate::new(TransactionMut::new(), m);
    let u = u.insert("1", bag(&[("a", AnyValue::Number(1))]));
    let once = bag_at(&u.map_ref, "1").get("a").cloned();
    let u = u.insert("1", bag(&[("a", AnyValue::Number(1))]));
    assert_eq!(bag_at(&u.map_ref, "1").len(), 1);
    assert_eq!(bag_at(&u.map_ref, "1").get("a").cloned(), once);
}

#[test]
fn keyed_map_insert_remove_and_order() {
    let mut m: KeyedMap<u32> = KeyedMap::new();
    m.insert("b".to_string(), 2);
    m.insert("a".to_string(), 1);
    m.insert("b".to_string(), 3);
    assert_eq!(m.len(), 2);
    assert_eq!(m.get("b"), Some(&3));
    assert!(m.is_well_formed());
    let keys: Vec<&str> = m.entries().iter().map(|e| e.0.as_str()).collect();
    assert_eq!(keys, vec!["b", "a"]);
    assert_eq!(m.remove("b"), Some(3));
    assert_eq!(m.remove("b"), None);
    assert!(!m.contains_key("b"));
    m.clear();
    assert_eq!(m.len(), 0);
}
