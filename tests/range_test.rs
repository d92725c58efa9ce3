use collab_database::update_log::{make_object_prefix, make_update_key, UpdateLog};

#[test]
fn id_test() {
    let mut db = UpdateLog::new();
    db.insert(&[0, 0, 0, 0, 0, 0, 0, 0], &[0, 1, 1]);
    db.insert(&[0, 0, 0, 0, 0, 0, 0, 1], &[0, 1, 2]);
    db.insert(&[0, 0, 0, 0, 0, 0, 0, 2], &[0, 1, 3]);
    db.insert(&[0, 0, 0, 0, 0, 0, 0, 3], &[0, 1, 4]);
    db.insert(&[0, 1, 0, 0, 0, 0, 0, 4], &[0, 1, 5]);
    db.insert(&[0, 1, 0, 0, 0, 0, 0, 5], &[0, 1, 6]);

    let given_key: &[u8; 8] = &[0, 0, 0, 0, 0, 0, 0, 1];
    let last_entry_prior = db
        .last_before(given_key)
        .expect("No entry found prior to the given key");
    assert_eq!(last_entry_prior.1.as_slice(), &[0, 1, 1]);

    let given_key: &[u8; 2] = &[0, 1];
    let last_entry_prior = db
        .last_before(given_key)
        .expect("No entry found prior to the given key");
    println!("{:?}", last_entry_prior.1);

    let prefix: &[u8] = &[0, 1, 0, 0, 0, 0, 0];
    let r = db.scan_prefix(prefix);
    println!("{:?}", r.last())
}

#[test]
fn key_range_test() {
    let mut db = UpdateLog::new();
    let next = |db: &UpdateLog| {
        let given_key: &[u8; 2] = &[0, 2];
        let val = db
            .last_before(given_key)
            .expect("No entry found prior to the given key");
        u64::from_be_bytes(val.1.as_slice().try_into().unwrap())
    };

    db.insert(&[0, 0, 0, 0, 0, 0, 0, 0], &(1 as u64).to_be_bytes());
    assert_eq!(next(&db), 1);

    db.insert(&[0, 0, 0, 0, 0, 0, 1, 1], &(2 as u64).to_be_bytes());
    assert_eq!(next(&db), 2);

    db.insert(&[0, 0, 0, 0, 0, 0, 1, 2], &(3 as u64).to_be_bytes());
    assert_eq!(next(&db), 3);

    db.insert(&[0, 0, 1, 0, 0, 0, 1, 2], &(4 as u64).to_be_bytes());
    assert_eq!(next(&db), 4);
}

#[test]
fn scan_prefix() {
    let mut db = UpdateLog::new();
    let doc_id: i64 = 1;
    let mut v: Vec<u8> = vec![1, 1];
    v.extend_from_slice(&doc_id.to_be_bytes());
    v.push(255);
    assert_eq!(v.as_slice(), &[1, 1, 0, 0, 0, 0, 0, 0, 0, 1, 255]);

    db.insert(v.as_slice(), &[0, 1, 1]);
    let val = db.scan_prefix(&[1, 1, 0, 0, 0, 0, 0, 0, 0, 1, 2]).last().cloned();
    assert!(val.is_none());
}

#[test]
fn range_key_test() {
    let mut db = UpdateLog::new();
    db.insert(&[0, 0, 0, 0, 0, 0, 0, 0], &[0, 1, 1]);
    db.insert(&[0, 0, 0, 0, 0, 0, 0, 1], &[0, 1, 2]);
    db.insert(&[0, 0, 0, 0, 0, 0, 0, 2], &[0, 1, 3]);

    db.insert(&[0, 0, 1, 0, 0, 0, 0, 0], &[0, 2, 1]);
    db.insert(&[0, 0, 1, 0, 0, 0, 0, 1], &[0, 2, 2]);
    db.insert(&[0, 0, 1, 0, 0, 0, 0, 2], &[0, 2, 3]);

    db.insert(&[0, 0, 2, 0, 0, 0, 0, 0], &[0, 3, 1]);
    db.insert(&[0, 0, 2, 0, 0, 0, 0, 1], &[0, 3, 2]);
    db.insert(&[0, 0, 2, 0, 0, 0, 0, 2], &[0, 3, 3]);

    db.insert(&[0, 1, 0, 0, 0, 0, 0, 3], &[0, 1, 4]);
    db.insert(&[0, 1, 0, 0, 0, 0, 0, 4], &[0, 1, 5]);
    db.insert(&[0, 1, 0, 0, 0, 0, 0, 5], &[0, 1, 6]);

    let given_key: &[u8; 8] = &[0, 0, 0, 0, 0, 0, 0, u8::MAX];
    let mut iter = db.range_to(given_key).into_iter();
    assert_eq!(iter.next().unwrap().0.as_slice(), &[0, 0, 0, 0, 0, 0, 0, 0]);
    assert_eq!(iter.next().unwrap().0.as_slice(), &[0, 0, 0, 0, 0, 0, 0, 1]);
    assert_eq!(iter.next().unwrap().0.as_slice(), &[0, 0, 0, 0, 0, 0, 0, 2]);
    assert!(iter.next().is_none());

    let start: &[u8; 8] = &[0, 0, 1, 0, 0, 0, 0, 0];
    let given_key: &[u8; 8] = &[0, 0, 1, 0, 0, 0, 0, u8::MAX];
    let mut iter = db.range(start, given_key).into_iter();
    assert_eq!(iter.next().unwrap().0.as_slice(), &[0, 0, 1, 0, 0, 0, 0, 0]);
    assert_eq!(iter.next().unwrap().0.as_slice(), &[0, 0, 1, 0, 0, 0, 0, 1]);
    assert_eq!(iter.next().unwrap().0.as_slice(), &[0, 0, 1, 0, 0, 0, 0, 2]);
    assert!(iter.next().is_none());

    let given_key: &[u8; 2] = &[0, 1];
    let last_entry_prior = db
        .last_before(given_key)
        .expect("No entry found prior to the given key");
    assert_eq!(last_entry_prior.1.as_slice(), &[0, 3, 3]);

    let prefix: &[u8] = &[0, 1, 0, 0, 0, 0, 0];
    let r = db.scan_prefix(prefix);
    println!("{:?}", r.last());

    let start: &[u8; 8] = &[0, 1, 0, 0, 0, 0, 0, 3];
    let given_key: &[u8; 8] = &[0, 1, 0, 0, 0, 0, 0, u8::MAX];
    let mut iter = db.range(start, given_key).into_iter();
    assert_eq!(iter.next().unwrap().0.as_slice(), &[0, 1, 0, 0, 0, 0, 0, 3]);
    assert_eq!(iter.next().unwrap().0.as_slice(), &[0, 1, 0, 0, 0, 0, 0, 4]);
    assert_eq!(iter.next().unwrap().0.as_slice(), &[0, 1, 0, 0, 0, 0, 0, 5]);
    assert!(iter.next().is_none());
}

#[test]
fn range_before_and_prefix_scan_on_three_keys() {
    let mut db = UpdateLog::new();
    db.insert(&[0, 0, 0, 0, 0, 0, 0, 0], b"a");
    db.insert(&[0, 0, 0, 0, 0, 0, 0, 1], b"b");
    db.insert(&[0, 1, 0, 0, 0, 0, 0, 2], b"c");
    let below = db.range_to(&[0, 0, 0, 0, 0, 0, 0, 1]);
    assert_eq!(below, vec![(vec![0, 0, 0, 0, 0, 0, 0, 0], b"a".to_vec())]);
    let scanned = db.scan_prefix(&[0, 1]);
    assert_eq!(scanned, vec![(vec![0, 1, 0, 0, 0, 0, 0, 2], b"c".to_vec())]);
}

#[test]
fn range_before_first_key_is_empty() {
    let mut db = UpdateLog::new();
    db.insert(&[5, 5], &[1]);
    assert!(db.last_before(&[5, 5]).is_none());
    assert!(db.last_before(&[0]).is_none());
    assert!(db.range_to(&[5, 5]).is_empty());
    assert_eq!(db.last_before(&[5, 6]).unwrap().0, vec![5, 5]);
}

#[test]
fn insert_overwrites_existing_key() {
    let mut db = UpdateLog::new();
    db.insert(&[1], &[1]);
    db.insert(&[1], &[2]);
    assert_eq!(db.len(), 1);
    assert_eq!(db.range_from(&[0]), vec![(vec![1], vec![2])]);
}

#[test]
fn reverse_range_is_descending() {
    let mut db = UpdateLog::new();
    for k in [3u8, 1, 4, 2, 9] {
        db.insert(&[k], &[k]);
    }
    let fwd: Vec<u8> = db.range(&[2], &[9]).into_iter().map(|e| e.0[0]).collect();
    let rev: Vec<u8> = db.range_rev(&[2], &[9]).into_iter().map(|e| e.0[0]).collect();
    assert_eq!(fwd, vec![2, 3, 4]);
    assert_eq!(rev, vec![4, 3, 2]);
}

#[test]
fn object_keys_are_isolated_by_prefix() {
    let mut db = UpdateLog::new();
    db.insert(&make_update_key(1, 7), &[1]);
    db.insert(&make_update_key(256, 1), &[2]);
    db.insert(&make_update_key(1, 300), &[3]);
    assert_eq!(make_object_prefix(1), vec![0, 0, 0, 0, 0, 0, 0, 1]);
    assert_eq!(make_update_key(1, 2), vec![0, 0, 0, 0, 0, 0, 0, 1, 0, 0, 0, 0, 0, 0, 0, 2]);
    let vals: Vec<u8> = db.scan_prefix(&make_object_prefix(1)).into_iter().map(|e| e.1[0]).collect();
    assert_eq!(vals, vec![1, 3]);
    let before = db.last_before(&make_update_key(1, 300)).unwrap();
    assert_eq!(before.1, vec![1]);
}
