use audioviz::rotation::{rotated_index, ROTATION_OFFSET};

#[test]
fn offset_is_768() {
    assert_eq!(ROTATION_OFFSET, 768);
}

#[test]
fn rotates_without_wrapping() {
    assert_eq!(rotated_index(0, 994), 768);
    assert_eq!(rotated_index(5, 5000), 773);
    assert_eq!(rotated_index(225, 994), 993);
}

#[test]
fn rotates_with_wrapping() {
    assert_eq!(rotated_index(226, 994), 0);
    assert_eq!(rotated_index(300, 994), 74);
    assert_eq!(rotated_index(993, 994), 767);
    assert_eq!(rotated_index(256, 1024), 0);
}

#[test]
fn rotates_when_offset_exceeds_the_count() {
    assert_eq!(rotated_index(0, 1), 0);
    assert_eq!(rotated_index(5, 7), (5 + 768) % 7);
    assert_eq!(rotated_index(2, 3), 2);
    assert_eq!(rotated_index(0, 768), 0);
    assert_eq!(rotated_index(1, 767), 2);
}

#[test]
fn rotation_agrees_with_the_formula() {
    for n in [1usize, 2, 10, 100, 767, 768, 769, 994, 1024, 2000] {
        for i in 0..n {
            assert_eq!(rotated_index(i, n), (i + 768) % n);
        }
    }
}

#[test]
fn rotation_hits_every_slot_once() {
    let n = 994;
    let mut hit = vec![false; n];
    for i in 0..n {
        let slot = rotated_index(i, n);
        assert!(slot < n);
        assert!(!hit[slot]);
        hit[slot] = true;
    }
    assert!(hit.iter().all(|&h| h));
}

#[test]
fn rotation_handles_the_largest_count() {
    let n = usize::MAX;
    assert_eq!(rotated_index(0, n), 768);
    assert_eq!(rotated_index(n - 1, n), 767);
    assert_eq!(rotated_index(n - 768, n), 0);
}
