use kv_store::range::Bound;
use kv_store::range::LogRange;

#[test]
fn closed_range_holds_both_ends() {
    let range = LogRange { start: Bound::Included(5), end: Bound::Included(7) };
    assert!(!range.contains(4));
    assert!(range.contains(5));
    assert!(range.contains(6));
    assert!(range.contains(7));
    assert!(!range.contains(8));
    assert_eq!(range.first(), Some(5));
}

#[test]
fn excluded_ends_are_left_out() {
    let range = LogRange { start: Bound::Excluded(5), end: Bound::Excluded(7) };
    assert!(!range.contains(5));
    assert!(range.contains(6));
    assert!(!range.contains(7));
    assert_eq!(range.first(), Some(6));
}

#[test]
fn unbounded_range_holds_everything() {
    let range = LogRange { start: Bound::Unbounded, end: Bound::Unbounded };
    assert!(range.contains(0));
    assert!(range.contains(u64::MAX));
    assert_eq!(range.first(), Some(0));
}

#[test]
fn nothing_follows_the_greatest_index() {
    let range = LogRange { start: Bound::Excluded(u64::MAX), end: Bound::Unbounded };
    assert_eq!(range.first(), None);
    assert!(!range.contains(u64::MAX));
    let range = LogRange { start: Bound::Excluded(u64::MAX - 1), end: Bound::Unbounded };
    assert_eq!(range.first(), Some(u64::MAX));
    assert!(range.contains(u64::MAX));
}
