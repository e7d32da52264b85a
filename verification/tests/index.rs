use grid_quest::grid_index::GridIndex;
use grid_quest::grid_transform::GridTransform;

#[test]
fn empty_tile_yields_empty_slice() {
    let index = GridIndex::new();
    assert_eq!(index.get(GridTransform::new(0, 0)), Vec::<u64>::new());
}

#[test]
fn get_returns_exactly_the_recorded_entities() {
    let mut index = GridIndex::new();
    let p = GridTransform::new(1, 1);
    let q = GridTransform::new(2, 2);
    index.update(10, p);
    index.update(11, p);
    index.update(12, q);
    assert_eq!(index.get(p), vec![10u64, 11u64]);
    assert_eq!(index.get(q), vec![12u64]);
    // moving an entity removes it from its old tile
    index.update(10, q);
    assert_eq!(index.get(p), vec![11u64]);
    assert_eq!(index.get(q), vec![12u64, 10u64]);
    // a tile whose last entity left is empty again
    index.update(11, q);
    assert_eq!(index.get(p), Vec::<u64>::new());
    assert_eq!(index.get(q), vec![12u64, 10u64, 11u64]);
}

#[test]
fn update_twice_with_same_position_is_idempotent() {
    let mut once = GridIndex::new();
    let p = GridTransform::new(3, 4);
    let q = GridTransform::new(5, 5);
    once.update(7, q);
    once.update(8, p);
    once.update(7, p);
    let mut twice_idx = GridIndex::new();
    twice_idx.update(7, q);
    twice_idx.update(8, p);
    twice_idx.update(7, p);
    twice_idx.update(7, p);
    assert_eq!(once.get(p), twice_idx.get(p));
    assert_eq!(once.get(q), twice_idx.get(q));
    assert_eq!(once.get(p), vec![8u64, 7u64]);
    assert_eq!(once.get(q), Vec::<u64>::new());
}

#[test]
fn no_duplicate_entries_after_repeated_updates() {
    let mut index = GridIndex::new();
    let p = GridTransform::new(0, 0);
    index.update(1, p);
    index.update(1, p);
    index.update(1, p);
    assert_eq!(index.get(p), vec![1u64]);
}
