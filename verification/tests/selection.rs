use beditor::selection::{
    extend_range, InspectorSelection, SelectedEntities, SelectedEntitiesChangedEvent, SelectionMode,
};

fn no_extension(_: u64, _: u64) -> Vec<u64> {
    Vec::new()
}

#[test]
fn from_ctrl_shift_picks_mode() {
    assert_eq!(SelectionMode::from_ctrl_shift(true, true), SelectionMode::Add);
    assert_eq!(SelectionMode::from_ctrl_shift(true, false), SelectionMode::Add);
    assert_eq!(SelectionMode::from_ctrl_shift(false, true), SelectionMode::Extend);
    assert_eq!(SelectionMode::from_ctrl_shift(false, false), SelectionMode::Replace);
}

#[test]
fn replace_selects_one() {
    let mut s = SelectedEntities::default();
    s.select_replace(1);
    s.select(SelectionMode::Add, 2, no_extension);
    let event = s.select_replace(3);
    assert_eq!(s.as_slice(), &[3]);
    assert_eq!(s.last_action(), Some((SelectionMode::Replace, 3)));
    assert_eq!(event.current(), vec![3]);
    assert_eq!(event.removed(), vec![1, 2]);
}

#[test]
fn add_toggles_twice_back() {
    let mut s = SelectedEntities::default();
    s.select_replace(1);
    s.select(SelectionMode::Add, 2, no_extension);
    s.select(SelectionMode::Add, 3, no_extension);
    assert_eq!(s.iter(), vec![1, 2, 3]);
    let event = s.select(SelectionMode::Add, 2, no_extension);
    assert_eq!(s.iter(), vec![1, 3]);
    assert_eq!(event.removed(), vec![2]);
    let event = s.select(SelectionMode::Add, 2, no_extension);
    assert_eq!(s.iter(), vec![1, 3, 2]);
    assert!(event.removed().is_empty());
    assert!(s.contains(2));
    assert_eq!(s.len(), 3);
}

#[test]
fn first_click_on_empty_selection_inserts() {
    let mut s = SelectedEntities::default();
    assert!(s.is_empty());
    let event = s.select(SelectionMode::Extend, 7, no_extension);
    assert_eq!(s.iter(), vec![7]);
    assert_eq!(s.last_action(), Some((SelectionMode::Extend, 7)));
    assert_eq!(event.current(), vec![7]);
    assert!(event.removed().is_empty());
}

#[test]
fn extend_after_click_selects_range() {
    let level = vec![10, 11, 12, 13, 14];
    let mut s = SelectedEntities::default();
    s.select_replace(11);
    s.select(SelectionMode::Add, 99, no_extension);
    let event = s.select(SelectionMode::Extend, 13, |from, to| extend_range(&level, from, to));
    // The earlier click (Add on 99) drops the selection, then the range 99..13 is empty
    // because 99 is not on the level.
    assert!(s.is_empty());
    assert_eq!(event.removed(), vec![11, 99]);
    assert_eq!(s.last_action(), Some((SelectionMode::Add, 99)));

    let mut s = SelectedEntities::default();
    s.select_replace(11);
    s.select(SelectionMode::Extend, 13, |from, to| extend_range(&level, from, to));
    assert_eq!(s.iter(), vec![11, 12, 13]);
    assert_eq!(s.last_action(), Some((SelectionMode::Replace, 11)));
}

#[test]
fn extend_after_extend_keeps_selection() {
    let mut s = SelectedEntities::default();
    s.select_replace(5);
    // last action stays Replace after an extension, so make it an Extend first
    let mut t = SelectedEntities::default();
    t.select(SelectionMode::Extend, 4, no_extension);
    t.select(SelectionMode::Extend, 6, |_, _| vec![6, 4, 8]);
    assert_eq!(t.iter(), vec![4, 6, 8]);
    assert_eq!(t.last_action(), Some((SelectionMode::Extend, 4)));
    assert!(!s.is_empty());
}

#[test]
fn scoped_clear_reports_all_removed() {
    let mut s = SelectedEntities::default();
    s.select_replace(1);
    s.select(SelectionMode::Add, 2, no_extension);
    let event = s.scoped_clear();
    assert!(s.is_empty());
    assert!(event.current().is_empty());
    assert_eq!(event.removed(), vec![1, 2]);
}

#[test]
fn select_maybe_add_modes() {
    let mut s = SelectedEntities::default();
    s.select_maybe_add(1, true);
    s.select_maybe_add(2, true);
    assert_eq!(s.iter(), vec![1, 2]);
    let event = s.select_maybe_add(3, false);
    assert_eq!(s.iter(), vec![3]);
    assert_eq!(event.removed(), vec![1, 2]);
}

#[test]
fn extend_range_between_ends() {
    let level = vec![1, 2, 3, 4, 5];
    assert_eq!(extend_range(&level, 2, 4), vec![2, 3, 4]);
    assert_eq!(extend_range(&level, 4, 2), vec![2, 3, 4]);
    assert_eq!(extend_range(&level, 3, 3), vec![3]);
    assert_eq!(extend_range(&level, 3, 9), Vec::<u64>::new());
    // the last occurrence counts
    let level = vec![1, 2, 1, 3];
    assert_eq!(extend_range(&level, 1, 3), vec![1, 3]);
}

#[test]
fn event_new_keeps_lists() {
    let event = SelectedEntitiesChangedEvent::new(vec![1, 2, 3, 4, 5, 6, 7, 8, 9], vec![10]);
    assert_eq!(event.current(), vec![1, 2, 3, 4, 5, 6, 7, 8, 9]);
    assert_eq!(event.removed(), vec![10]);
}

#[test]
fn inspector_selection_add_selected() {
    let mut sel: InspectorSelection<String, String> = InspectorSelection::Resource("Time".to_string());
    let event = sel.add_selected(4, true);
    assert_eq!(event.current(), vec![4]);
    assert!(event.removed().is_empty());
    match &sel {
        InspectorSelection::Entities(e) => assert_eq!(e.iter(), vec![4]),
        _ => panic!("expected entities"),
    }
    let event = sel.add_selected(5, true);
    assert_eq!(event.current(), vec![4, 5]);
    let event = sel.add_selected(6, false);
    assert_eq!(event.current(), vec![6]);
    assert_eq!(event.removed(), vec![4, 5]);
    let default: InspectorSelection<(), ()> = InspectorSelection::default();
    assert!(matches!(default, InspectorSelection::Entities(ref e) if e.is_empty()));
}

#[test]
fn reparent_moves_selection_under_parent() {
    let mut sel: InspectorSelection<(), ()> = InspectorSelection::default();
    sel.add_selected(3, false);
    sel.add_selected(5, true);
    let (children, event) = sel.reparent_selected(9).unwrap();
    assert_eq!(children, vec![3, 5]);
    assert_eq!(event.current(), vec![9]);
    assert!(event.removed().is_empty());
    match &sel {
        InspectorSelection::Entities(e) => assert_eq!(e.iter(), vec![9]),
        _ => panic!("entities expected"),
    }
    let mut res: InspectorSelection<u8, u8> = InspectorSelection::Resource(1);
    assert!(res.reparent_selected(9).is_none());
    assert!(matches!(res, InspectorSelection::Resource(1)));
}

#[test]
fn clear_selected_reports_removed() {
    let mut sel: InspectorSelection<(), ()> = InspectorSelection::default();
    sel.add_selected(3, false);
    sel.add_selected(5, true);
    let event = sel.clear_selected().unwrap();
    assert!(event.current().is_empty());
    assert_eq!(event.removed(), vec![3, 5]);
    let mut asset: InspectorSelection<u8, u8> = InspectorSelection::Asset(2);
    assert!(asset.clear_selected().is_none());
}

#[test]
fn markers_follow_selection_through_clicks() {
    let mut selected = SelectedEntities::default();
    let mut marked: std::collections::BTreeSet<u64> = std::collections::BTreeSet::new();
    let clicks = [(1u64, false), (2, true), (3, true), (2, true), (4, false), (4, true), (5, true)];
    for (entity, add) in clicks {
        let event = selected.select_maybe_add(entity, add);
        marked.extend(event.current());
        for e in event.removed() {
            marked.remove(&e);
        }
        assert_eq!(marked, selected.iter().into_iter().collect());
    }
    let event = selected.scoped_clear();
    for e in event.removed() {
        marked.remove(&e);
    }
    assert!(marked.is_empty());
}

#[test]
fn inspector_selection_keeps_the_anchor() {
    let mut sel: InspectorSelection<u8, u8> = InspectorSelection::Asset(1);
    sel.add_selected(4, true);
    match &sel {
        InspectorSelection::Entities(e) => assert_eq!(e.last_action(), Some((SelectionMode::Replace, 4))),
        _ => panic!("entities expected"),
    }
    sel.add_selected(5, true);
    match &sel {
        InspectorSelection::Entities(e) => assert_eq!(e.last_action(), Some((SelectionMode::Add, 5))),
        _ => panic!("entities expected"),
    }
    sel.clear_selected();
    match &sel {
        InspectorSelection::Entities(e) => assert_eq!(e.last_action(), Some((SelectionMode::Add, 5))),
        _ => panic!("entities expected"),
    }
    sel.reparent_selected(9);
    match &sel {
        InspectorSelection::Entities(e) => assert_eq!(e.last_action(), Some((SelectionMode::Replace, 9))),
        _ => panic!("entities expected"),
    }
}
