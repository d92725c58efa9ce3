use collab_database::id_gen::RowIdGen;
use std::collections::HashSet;

#[test]
fn ten_thousand_row_ids_are_distinct() {
    let mut g = RowIdGen::new(0);
    let mut seen = HashSet::new();
    for _ in 0..10_000 {
        let id = g.next_id().unwrap();
        assert!(seen.insert(id));
    }
    assert_eq!(seen.len(), 10_000);
}

#[test]
fn row_ids_start_at_the_seed() {
    let mut g = RowIdGen::new(41);
    assert_eq!(g.next_id(), Some(41));
    assert_eq!(g.next_id(), Some(42));
}

#[test]
fn exhausted_generator_issues_nothing() {
    let mut g = RowIdGen::new(u64::MAX - 1);
    assert_eq!(g.next_id(), Some(u64::MAX - 1));
    assert_eq!(g.next_id(), None);
    assert_eq!(g.next_id(), None);
}
