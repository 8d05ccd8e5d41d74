use audioviz::permutation::IndexPermutation;

#[test]
fn identity_maps_each_slot_to_itself() {
    let p = IndexPermutation::identity(5);
    assert_eq!(p.len(), 5);
    assert_eq!(p.as_vec(), &vec![0, 1, 2, 3, 4]);
    for g in 0..5 {
        assert_eq!(p.slot(g), g);
    }
}

#[test]
fn identity_of_nothing_is_empty() {
    let p = IndexPermutation::identity(0);
    assert_eq!(p.len(), 0);
    assert!(p.as_vec().is_empty());
}

#[test]
fn from_slots_accepts_a_permutation() {
    let p = IndexPermutation::from_slots(vec![2, 0, 3, 1]).expect("a permutation");
    assert_eq!(p.len(), 4);
    assert_eq!(p.slot(0), 2);
    assert_eq!(p.slot(1), 0);
    assert_eq!(p.slot(2), 3);
    assert_eq!(p.slot(3), 1);
    assert_eq!(p.as_vec(), &vec![2, 0, 3, 1]);
}

#[test]
fn from_slots_accepts_the_empty_permutation() {
    assert!(IndexPermutation::from_slots(Vec::new()).is_some());
}

#[test]
fn from_slots_refuses_a_duplicate() {
    assert!(IndexPermutation::from_slots(vec![0, 0, 1]).is_none());
    assert!(IndexPermutation::from_slots(vec![1, 2, 1]).is_none());
}

#[test]
fn from_slots_refuses_an_index_out_of_range() {
    assert!(IndexPermutation::from_slots(vec![0, 3, 1]).is_none());
    assert!(IndexPermutation::from_slots(vec![1]).is_none());
    assert!(IndexPermutation::from_slots(vec![usize::MAX, 0]).is_none());
}

#[test]
fn reshuffle_keeps_a_bijection() {
    let mut p = IndexPermutation::identity(100);
    for _ in 0..50 {
        p.reshuffle();
        assert_eq!(p.len(), 100);
        let mut seen = vec![false; 100];
        for g in 0..100 {
            let v = p.slot(g);
            assert!(v < 100);
            assert!(!seen[v]);
            seen[v] = true;
        }
        assert!(seen.iter().all(|&s| s));
    }
}

#[test]
fn reshuffle_changes_the_order() {
    let mut p = IndexPermutation::identity(100);
    p.reshuffle();
    let identity: Vec<usize> = (0..100).collect();
    assert_ne!(p.as_vec(), &identity);
}

#[test]
fn reshuffle_of_one_slot_is_the_identity() {
    let mut p = IndexPermutation::identity(1);
    p.reshuffle();
    assert_eq!(p.as_vec(), &vec![0]);
}

#[test]
fn reshuffled_slots_are_accepted_again() {
    let mut p = IndexPermutation::identity(32);
    p.reshuffle();
    let copy = p.as_vec().clone();
    let q = IndexPermutation::from_slots(copy).expect("still a permutation");
    assert_eq!(q.as_vec(), p.as_vec());
}
