use linked_list_project::dynamic_list::DynamicList;

/// Tests inserting a single element into the dynamic linked list.
#[test]
fn dynamic_tests_test_insert() {
    let mut list = DynamicList::new();
    list.insert(10);
    assert_eq!(list.get(0), Some(10)); // Check if the element was inserted
}

/// Tests inserting an element at a specific index in the dynamic linked list.
#[test]
fn dynamic_tests_test_insert_at_index() {
    let mut list = DynamicList::new();
    list.insert(10);
    list.insert(20);
    list.insert_at_index(1, 15); // Insert 15 at index 1
    assert_eq!(list.get(1), Some(15)); // Verify insertion at index 1
}

/// Tests deletion of the first occurrence of a specified element.
#[test]
fn dynamic_tests_test_delete_element() {
    let mut list = DynamicList::new();
    list.insert(10);
    list.insert(20);
    assert!(list.delete_element(10)); // Should delete 10
    assert_eq!(list.get(0), Some(20)); // Verify deletion
}

/// Tests deletion of the element at a specific index.
#[test]
fn dynamic_tests_test_delete_at_index() {
    let mut list = DynamicList::new();
    list.insert(10);
    list.insert(20);
    assert!(list.delete_at_index(0)); // Should delete element at index 0
    assert_eq!(list.get(0), Some(20)); // Verify the remaining element
}

/// Tests updating the first occurrence of a specified element.
#[test]
fn dynamic_tests_test_update_element() {
    let mut list = DynamicList::new();
    list.insert(10);
    list.insert(20);
    assert!(list.update_element(10, 30)); // Should update 10 to 30
    assert_eq!(list.get(0), Some(30)); // Verify the update
}

/// Tests finding an element in the dynamic linked list.
#[test]
fn dynamic_tests_test_find() {
    let mut list = DynamicList::new();
    list.insert(10);
    assert!(list.find(10)); // Should find 10 in the list
    assert!(!list.find(20)); // Should not find 20 in the list
}

/// A run of inserts builds the list in insertion order.
#[test]
fn dynamic_insertion_order_kept() {
    let mut list = DynamicList::new();
    list.insert(1);
    list.insert(2);
    list.insert(3);
    assert_eq!(list.get(0), Some(1));
    assert_eq!(list.get(1), Some(2));
    assert_eq!(list.get(2), Some(3));
    assert_eq!(list.get(3), None);
}

/// `insert_at_index(0, x)` shifts every earlier element up by one rank;
/// rank equal to the length appends; one rank more fails without
/// mutation.
#[test]
fn dynamic_insert_positions() {
    let mut list = DynamicList::new();
    assert!(list.insert_at_index(0, 2)); // into the empty list
    assert!(list.insert_at_index(0, 1));
    assert_eq!(list.get(0), Some(1));
    assert_eq!(list.get(1), Some(2));
    assert!(list.insert_at_index(2, 3)); // append at the tail
    assert_eq!(list.get(2), Some(3));
    assert!(!list.insert_at_index(4, 9));
    assert_eq!(list.get(0), Some(1));
    assert_eq!(list.get(1), Some(2));
    assert_eq!(list.get(2), Some(3));
    assert_eq!(list.get(3), None);
}

/// After `delete_at_index(p)` the element formerly at `p + 1` moves to
/// rank `p`; out-of-range ranks are refused without mutation.
#[test]
fn dynamic_delete_shifts() {
    let mut list = DynamicList::new();
    list.insert(1);
    list.insert(2);
    list.insert(3);
    assert!(list.delete_at_index(1));
    assert_eq!(list.get(1), Some(3));
    assert!(!list.delete_at_index(2));
    assert_eq!(list.get(0), Some(1));
    assert_eq!(list.get(1), Some(3));
    let mut empty = DynamicList::<i32>::new();
    assert!(!empty.delete_at_index(0));
}

/// The updates change one element's data without altering the length or
/// the relative order of the other elements.
#[test]
fn dynamic_update_keeps_length_and_order() {
    let mut list = DynamicList::new();
    list.insert(1);
    list.insert(2);
    list.insert(3);
    assert!(list.update_element(2, 20));
    assert!(list.update_at_index(2, 30));
    assert_eq!(list.get(0), Some(1));
    assert_eq!(list.get(1), Some(20));
    assert_eq!(list.get(2), Some(30));
    assert_eq!(list.get(3), None);
    assert!(!list.update_element(7, 8));
    assert!(!list.update_at_index(3, 8));
}

/// `find(v)` answers exactly whether some rank within the length holds
/// `v`.
#[test]
fn dynamic_find_iff_some_rank_matches() {
    let mut list = DynamicList::new();
    assert!(!list.find(1));
    list.insert(1);
    list.insert(2);
    assert!(list.find(1));
    assert!(list.find(2));
    assert!(!list.find(3));
    assert!(list.delete_element(1));
    assert!(!list.find(1));
}

/// Round trip: `insert_at_index(p, x)` followed at once by
/// `delete_at_index(p)` restores the former sequence of values.
#[test]
fn dynamic_insert_then_delete_roundtrip() {
    let mut list = DynamicList::new();
    list.insert(1);
    list.insert(2);
    list.insert(3);
    assert!(list.insert_at_index(1, 9));
    assert!(list.delete_at_index(1));
    assert_eq!(list.get(0), Some(1));
    assert_eq!(list.get(1), Some(2));
    assert_eq!(list.get(2), Some(3));
    assert_eq!(list.get(3), None);
}

/// First-match semantics: with duplicate values, deletion and update act
/// on the earliest rank only.
#[test]
fn dynamic_first_match_on_duplicates() {
    let mut list = DynamicList::new();
    list.insert(5);
    list.insert(6);
    list.insert(5);
    assert!(list.update_element(5, 7));
    assert_eq!(list.get(0), Some(7));
    assert_eq!(list.get(2), Some(5));
    assert!(list.delete_element(5));
    assert_eq!(list.get(0), Some(7));
    assert_eq!(list.get(1), Some(6));
    assert_eq!(list.get(2), None);
}

/// Deleting the sole element empties the list; further value-based
/// operations report absence.
#[test]
fn dynamic_delete_last_element() {
    let mut list = DynamicList::new();
    list.insert(7);
    assert!(list.delete_element(7));
    assert_eq!(list.get(0), None);
    assert!(!list.find(7));
    assert!(!list.delete_element(7));
    list.insert(8);
    assert_eq!(list.get(0), Some(8));
}
