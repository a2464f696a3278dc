use nettables::bimap::PrimBiMap;

#[test]
fn test_bimap() {
    let mut map = PrimBiMap::new();
    map.insert(1, 2);

    assert_eq!(map.get_by_left(&1), Some(&2));
    assert_eq!(map.get_by_right(&2), Some(&1));
}

#[test]
fn test_bimap_remove() {
    let mut map = PrimBiMap::new();
    map.insert(1, 2);

    assert_eq!(map.remove_by_left(&1), Some(2));
    assert_eq!(map.remove_by_right(&2), Some(1));
}

#[test]
fn bimap_insert_reports_replaced_pairs() {
    let mut map: PrimBiMap<u32, u32> = PrimBiMap::with_capacity(4);
    assert_eq!(map.insert(1, 2), (None, None));
    assert_eq!(map.insert(1, 3), (None, Some(2)));
    assert_eq!(map.insert(4, 3), (Some(1), None));
    assert_eq!(map.get_by_left(&1), Some(&3));
    assert_eq!(map.get_by_right(&3), Some(&4));
    assert_eq!(map.len(), 2);
}

#[test]
fn bimap_removal_touches_one_side() {
    let mut map: PrimBiMap<u32, u32> = PrimBiMap::new();
    map.insert(7, 8);
    assert_eq!(map.remove_by_left(&7), Some(8));
    assert!(!map.contains_left(&7));
    assert!(map.contains_right(&8));
    assert_eq!(map.remove_by_left(&7), None);
}

#[test]
fn bimap_iterates_every_pair_once() {
    let mut map: PrimBiMap<u32, u32> = PrimBiMap::new();
    map.insert(1, 10);
    map.insert(2, 20);
    map.insert(3, 30);
    let mut lr = map.iter_lr();
    lr.sort();
    assert_eq!(lr, vec![(1, 10), (2, 20), (3, 30)]);
    let mut rl = map.iter_rl();
    rl.sort();
    assert_eq!(rl, vec![(10, 1), (20, 2), (30, 3)]);
}
