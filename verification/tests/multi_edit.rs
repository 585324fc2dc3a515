use beditor::hierarchy::{always_open, header_open, one_of};
use beditor::multi_edit::{distinct_entities, iter_all_eq, shared_components};

#[test]
fn all_equal_values() {
    assert_eq!(iter_all_eq(&[3, 3, 3]), Some(3));
    assert_eq!(iter_all_eq(&[3, 4]), None);
    assert_eq!(iter_all_eq(&[]), None);
}

#[test]
fn shared_components_of_existing_entities() {
    let first = vec![1, 2, 3, 4];
    let others = vec![Some(vec![4, 2, 9]), None, Some(vec![2, 4])];
    assert_eq!(shared_components(&first, &others), vec![2, 4]);
    assert_eq!(shared_components(&first, &vec![]), first);
}

#[test]
fn distinct_keeps_first_occurrence() {
    assert_eq!(distinct_entities(&vec![5, 3, 5, 1, 3]), vec![5, 3, 1]);
}

#[test]
fn ancestors_of_selection_stay_open() {
    // 0 -> 1 -> 2, 0 -> 3, 4 alone
    let parents = vec![None, Some(0), Some(1), Some(0), None];
    assert_eq!(always_open(&parents, &vec![2]), vec![true, true, false, false, false]);
    assert_eq!(always_open(&parents, &vec![3, 4]), vec![true, false, false, false, false]);
    assert_eq!(always_open(&parents, &vec![]), vec![false; 5]);
    // a parent link that does not point back is not followed
    assert_eq!(always_open(&vec![Some(1), None], &vec![0]), vec![false, false]);
}

#[test]
fn header_open_states() {
    assert_eq!(header_open(false, true), Some(false));
    assert_eq!(header_open(true, true), Some(true));
    assert_eq!(header_open(true, false), None);
}

#[test]
fn one_of_removes_others() {
    assert_eq!(one_of(&vec![1, 2, 3, 2], 2), vec![1, 3]);
    assert_eq!(one_of(&vec![2], 2), Vec::<u64>::new());
}
