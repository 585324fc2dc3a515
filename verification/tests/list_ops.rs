use std::collections::HashSet;
use beditor::list_ops::{
    move_down_enabled, move_up_enabled, respond_to_list_op, respond_to_sets_op, ui_for_list_controls,
    ListControlClicks, ListOp, ListOpOutcome, SetOp,
};

fn clicks(add: bool, remove: bool, up: bool, down: bool) -> ListControlClicks {
    ListControlClicks { add, remove, up, down }
}

#[test]
fn controls_enabled_at_edges() {
    assert!(!move_up_enabled(0));
    assert!(move_up_enabled(1));
    assert!(move_down_enabled(0, 2));
    assert!(!move_down_enabled(1, 2));
    assert!(!move_down_enabled(0, 0));
}

#[test]
fn controls_last_enabled_click_wins() {
    assert_eq!(ui_for_list_controls(1, 3, clicks(true, true, false, false)), Some(ListOp::RemoveElement(1)));
    assert_eq!(ui_for_list_controls(0, 3, clicks(false, false, true, false)), None);
    assert_eq!(ui_for_list_controls(2, 3, clicks(false, false, true, true)), Some(ListOp::MoveElementUp(2)));
    assert_eq!(ui_for_list_controls(1, 3, clicks(false, false, true, true)), Some(ListOp::MoveElementDown(1)));
    assert_eq!(ui_for_list_controls(1, 3, clicks(true, false, false, false)), Some(ListOp::AddElement(1)));
    assert_eq!(ui_for_list_controls(1, 3, clicks(false, false, false, false)), None);
}

#[test]
fn add_inserts_default_or_copy() {
    let mut lists = vec![vec![1, 2, 3], vec![7, 8, 9]];
    let out = respond_to_list_op(&mut lists, ListOp::AddElement(1), Some(0));
    assert_eq!(lists, vec![vec![1, 0, 2, 3], vec![7, 0, 8, 9]]);
    assert_eq!(out, ListOpOutcome { changed: true, missing_value: false });
    let out = respond_to_list_op(&mut lists, ListOp::AddElement(0), None);
    assert_eq!(lists, vec![vec![1, 1, 0, 2, 3], vec![7, 7, 0, 8, 9]]);
    assert!(!out.missing_value);
}

#[test]
fn add_without_value_reports_missing() {
    let mut lists: Vec<Vec<u32>> = vec![vec![]];
    let out = respond_to_list_op(&mut lists, ListOp::AddElement(0), None);
    assert_eq!(lists, vec![Vec::<u32>::new()]);
    assert_eq!(out, ListOpOutcome { changed: true, missing_value: true });
}

#[test]
fn moves_swap_neighbours_and_undo() {
    let mut lists = vec![vec!['a', 'b', 'c']];
    let out = respond_to_list_op(&mut lists, ListOp::MoveElementUp(2), None);
    assert_eq!(lists, vec![vec!['a', 'c', 'b']]);
    assert!(out.changed);
    respond_to_list_op(&mut lists, ListOp::MoveElementDown(1), None);
    assert_eq!(lists, vec![vec!['a', 'b', 'c']]);
    let out = respond_to_list_op(&mut lists, ListOp::MoveElementUp(0), None);
    assert_eq!(lists, vec![vec!['a', 'b', 'c']]);
    assert!(!out.changed);
}

#[test]
fn remove_and_add_back() {
    let mut lists = vec![vec![5, 6, 7]];
    respond_to_list_op(&mut lists, ListOp::AddElement(3), Some(9));
    assert_eq!(lists, vec![vec![5, 6, 7, 9]]);
    respond_to_list_op(&mut lists, ListOp::RemoveElement(3), Some(9));
    assert_eq!(lists, vec![vec![5, 6, 7]]);
    let mut none: Vec<Vec<u8>> = vec![];
    let out = respond_to_list_op(&mut none, ListOp::RemoveElement(0), None);
    assert!(!out.changed);
}

#[test]
fn sets_op_edits_every_set() {
    let mut sets: Vec<HashSet<u64>> = vec![[1u64, 2].into_iter().collect(), [2u64].into_iter().collect()];
    assert!(respond_to_sets_op(&mut sets, SetOp::AddElement(3)));
    assert_eq!(sets[0], [1u64, 2, 3].into_iter().collect::<HashSet<u64>>());
    assert_eq!(sets[1], [2u64, 3].into_iter().collect::<HashSet<u64>>());
    assert!(respond_to_sets_op(&mut sets, SetOp::RemoveElement(2)));
    assert_eq!(sets[0], [1u64, 3].into_iter().collect::<HashSet<u64>>());
    assert_eq!(sets[1], [3u64].into_iter().collect::<HashSet<u64>>());
    let mut none: Vec<HashSet<u64>> = Vec::new();
    assert!(!respond_to_sets_op(&mut none, SetOp::AddElement(1)));
}

#[test]
fn set_add_then_remove_restores() {
    let start: HashSet<u64> = [1u64, 2].into_iter().collect();
    let mut sets = vec![start.clone()];
    respond_to_sets_op(&mut sets, SetOp::AddElement(7));
    respond_to_sets_op(&mut sets, SetOp::RemoveElement(7));
    assert_eq!(sets[0], start);
    respond_to_sets_op(&mut sets, SetOp::RemoveElement(1));
    respond_to_sets_op(&mut sets, SetOp::AddElement(1));
    assert_eq!(sets[0], start);
}
