use linked_list_project::static_list::StaticList;

#[test]
fn static_tests_test_insert() {
    let mut list = StaticList::<i32, 5>::new();
    assert!(list.insert(10)); // Should insert 10
    assert_eq!(list.get(0), Some(10)); // Check if inserted correctly
}

#[test]
fn static_tests_test_insert_at_index() {
    let mut list = StaticList::<i32, 5>::new();
    list.insert(10);
    list.insert(20);
    list.insert_at_index(1, 15); // Insert 15 at index 1
    assert_eq!(list.get(1), Some(15)); // Verify insertion at index 1
}

#[test]
fn static_tests_test_delete_element() {
    let mut list = StaticList::<i32, 5>::new();
    list.insert(10);
    list.insert(20);
    assert!(list.delete_element(10)); // Should delete 10
    assert_eq!(list.get(0), Some(20)); // Verify the list after deletion
}

#[test]
fn static_tests_test_delete_at_index() {
    let mut list = StaticList::<i32, 5>::new();
    list.insert(10);
    list.insert(20);
    assert!(list.delete_at_index(0)); // Delete first element
    assert_eq!(list.get(0), Some(20)); // Verify the remaining element
}

#[test]
fn static_tests_test_update_element() {
    let mut list = StaticList::<i32, 5>::new();
    list.insert(10);
    list.insert(20);
    assert!(list.update_element(10, 30)); // Update 10 to 30
    assert_eq!(list.get(0), Some(30)); // Verify the update
}

#[test]
fn static_tests_test_find() {
    let mut list = StaticList::<i32, 5>::new();
    list.insert(10);
    assert!(list.find(10)); // Should find 10
    assert!(!list.find(20)); // Should not find 20
}

/// A run of successful inserts builds the list in insertion order, one
/// rank per insert, and ranks past the end read as absent.
#[test]
fn static_insertion_order_kept() {
    let mut list = StaticList::<i32, 4>::new();
    assert!(list.insert(1));
    assert!(list.insert(2));
    assert!(list.insert(3));
    assert_eq!(list.get(0), Some(1));
    assert_eq!(list.get(1), Some(2));
    assert_eq!(list.get(2), Some(3));
    assert_eq!(list.get(3), None);
}

/// Inserting past capacity reports `false` and leaves every rank as it
/// was before the failed call.
#[test]
fn static_insert_beyond_capacity_unchanged() {
    let mut list = StaticList::<i32, 2>::new();
    assert!(list.insert(1));
    assert!(list.insert(2));
    assert!(!list.insert(3));
    assert_eq!(list.get(0), Some(1));
    assert_eq!(list.get(1), Some(2));
    assert_eq!(list.get(2), None);
}

/// A list of capacity zero accepts nothing.
#[test]
fn static_zero_capacity() {
    let mut list = StaticList::<i32, 0>::new();
    assert!(!list.insert(1));
    assert_eq!(list.get(0), None);
    assert!(!list.find(1));
}

/// After `delete_at_index(p)`, `get(p)` returns the former element of
/// rank `p + 1`, or absence once `p` is past the new length; the freed
/// slot serves a later successful insert even when the list had been
/// full.
#[test]
fn static_delete_shifts_and_frees_slot() {
    let mut list = StaticList::<i32, 3>::new();
    assert!(list.insert(1));
    assert!(list.insert(2));
    assert!(list.insert(3));
    assert!(list.delete_at_index(1));
    assert_eq!(list.get(1), Some(3));
    assert!(list.delete_at_index(1));
    assert_eq!(list.get(1), None);
    assert!(list.insert(4));
    assert!(list.insert(5));
    assert_eq!(list.get(0), Some(1));
    assert_eq!(list.get(1), Some(4));
    assert_eq!(list.get(2), Some(5));
}

/// `insert_at_index(0, x)` on a non-empty list puts `x` at rank 0 and
/// shifts every earlier element up by one rank.
#[test]
fn static_insert_at_front_shifts() {
    let mut list = StaticList::<i32, 4>::new();
    assert!(list.insert(1));
    assert!(list.insert(2));
    assert!(list.insert_at_index(0, 9));
    assert_eq!(list.get(0), Some(9));
    assert_eq!(list.get(1), Some(1));
    assert_eq!(list.get(2), Some(2));
}

/// `insert_at_index` at rank equal to the length appends; one rank more
/// is out of range and mutates nothing.
#[test]
fn static_insert_at_tail_and_out_of_range() {
    let mut list = StaticList::<i32, 4>::new();
    assert!(list.insert(1));
    assert!(list.insert_at_index(1, 2));
    assert_eq!(list.get(1), Some(2));
    assert!(!list.insert_at_index(3, 9));
    assert_eq!(list.get(0), Some(1));
    assert_eq!(list.get(1), Some(2));
    assert_eq!(list.get(2), None);
}

/// The updates change one element's data without altering the length or
/// the relative order of the other elements.
#[test]
fn static_update_keeps_length_and_order() {
    let mut list = StaticList::<i32, 4>::new();
    assert!(list.insert(1));
    assert!(list.insert(2));
    assert!(list.insert(3));
    assert!(list.update_element(2, 20));
    assert_eq!(list.get(0), Some(1));
    assert_eq!(list.get(1), Some(20));
    assert_eq!(list.get(2), Some(3));
    assert_eq!(list.get(3), None);
    assert!(list.update_at_index(2, 30));
    assert_eq!(list.get(0), Some(1));
    assert_eq!(list.get(1), Some(20));
    assert_eq!(list.get(2), Some(30));
    assert_eq!(list.get(3), None);
    assert!(!list.update_element(7, 8));
    assert!(!list.update_at_index(3, 8));
}

/// `find(v)` answers exactly whether some rank within the length holds
/// `v`.
#[test]
fn static_find_iff_some_rank_matches() {
    let mut list = StaticList::<i32, 3>::new();
    assert!(!list.find(1));
    assert!(list.insert(1));
    assert!(list.insert(2));
    assert!(list.find(1));
    assert!(list.find(2));
    assert!(!list.find(3));
    assert!(list.delete_element(1));
    assert!(!list.find(1));
}

/// Round trip: `insert_at_index(p, x)` followed at once by
/// `delete_at_index(p)` restores the former sequence of values.
#[test]
fn static_insert_then_delete_roundtrip() {
    let mut list = StaticList::<i32, 4>::new();
    assert!(list.insert(1));
    assert!(list.insert(2));
    assert!(list.insert(3));
    assert!(list.insert_at_index(1, 9));
    assert!(list.delete_at_index(1));
    assert_eq!(list.get(0), Some(1));
    assert_eq!(list.get(1), Some(2));
    assert_eq!(list.get(2), Some(3));
    assert_eq!(list.get(3), None);
}

/// First-match semantics: with duplicate values, deletion and update act
/// on the earliest rank only.
#[test]
fn static_first_match_on_duplicates() {
    let mut list = StaticList::<i32, 4>::new();
    assert!(list.insert(5));
    assert!(list.insert(6));
    assert!(list.insert(5));
    assert!(list.update_element(5, 7));
    assert_eq!(list.get(0), Some(7));
    assert_eq!(list.get(2), Some(5));
    assert!(list.delete_element(5));
    assert_eq!(list.get(0), Some(7));
    assert_eq!(list.get(1), Some(6));
    assert_eq!(list.get(2), None);
}

/// Deleting the sole remaining element empties the list completely, and
/// the list accepts new elements up to capacity afterwards.
#[test]
fn static_delete_last_element_resets_head() {
    let mut list = StaticList::<i32, 2>::new();
    assert!(list.insert(7));
    assert!(list.delete_element(7));
    assert_eq!(list.get(0), None);
    assert!(!list.find(7));
    assert!(!list.delete_at_index(0));
    assert!(list.insert(8));
    assert!(list.insert(9));
    assert_eq!(list.get(0), Some(8));
    assert_eq!(list.get(1), Some(9));
}

/// The concrete scenario: a capacity-5 list through inserts, a
/// positional insert, a deletion by value, a failed search, and refusals
/// once full.
#[test]
fn static_capacity_five_scenario() {
    let mut list = StaticList::<i32, 5>::new();
    assert!(list.insert(10));
    assert!(list.insert(20));
    assert!(list.insert(30));
    assert_eq!(list.get(0), Some(10));
    assert_eq!(list.get(1), Some(20));
    assert_eq!(list.get(2), Some(30));
    assert!(list.insert_at_index(1, 15));
    assert_eq!(list.get(1), Some(15));
    assert_eq!(list.get(2), Some(20));
    assert!(list.delete_element(20));
    assert_eq!(list.get(2), Some(30));
    assert!(!list.find(999));
    assert!(list.insert(40));
    assert!(list.insert(50));
    for i in 0..5 {
        assert!(!list.insert(60 + i));
    }
    assert_eq!(list.get(0), Some(10));
    assert_eq!(list.get(1), Some(15));
    assert_eq!(list.get(2), Some(30));
    assert_eq!(list.get(3), Some(40));
    assert_eq!(list.get(4), Some(50));
}
