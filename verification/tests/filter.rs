use beditor::hierarchy::{sort_by_entity, visible_roots};
use beditor::filter::{name_matches, self_or_children_satisfy_filter, EntityTree, Filter, HierarchyNode};

fn node(entity: u64, name: &str, children: Vec<usize>) -> HierarchyNode {
    HierarchyNode { entity, name: name.to_string(), children }
}

fn sample_tree() -> EntityTree {
    // 0 Scene
    //   1 Player
    //     2 Sword
    //   3 Camera
    // 4 Light
    EntityTree::new(vec![
        node(100, "Scene", vec![1, 3]),
        node(101, "Player", vec![2]),
        node(102, "Sword", vec![]),
        node(103, "Camera", vec![]),
        node(104, "Light", vec![]),
    ])
    .unwrap()
}

#[test]
fn plain_match_is_case_insensitive_substring() {
    assert!(name_matches("MainCamera", "camera", false));
    assert!(!name_matches("MainCamera", "Camera", false));
    assert!(name_matches("anything", "", false));
    assert!(!name_matches("Light", "lights", false));
}

#[test]
fn fuzzy_match_is_subsequence() {
    assert!(name_matches("MainCamera", "mcam", true));
    assert!(name_matches("MainCamera", "", true));
    assert!(!name_matches("MainCamera", "zz", true));
    // smart case: an upper-case letter in the pattern makes it case sensitive
    assert!(!name_matches("maincamera", "MC", true));
    assert!(name_matches("MainCamera", "MC", true));
}

#[test]
fn from_input_lowercases_word() {
    let f = Filter::from_input("SwOrD", false);
    assert_eq!(f.word, "sword");
    assert!(!f.is_fuzzy);
    assert!(f.is_active());
    let all = Filter::all();
    assert_eq!(all.word, "");
    assert!(!all.is_active());
}

#[test]
fn descendants_make_ancestors_pass() {
    let tree = sample_tree();
    assert!(self_or_children_satisfy_filter(&tree, 0, "sword", false));
    assert!(self_or_children_satisfy_filter(&tree, 1, "sword", false));
    assert!(!self_or_children_satisfy_filter(&tree, 3, "sword", false));
    assert!(!self_or_children_satisfy_filter(&tree, 4, "sword", false));
}

#[test]
fn filter_entities_keeps_passing_in_order() {
    let tree = sample_tree();
    let f = Filter::from_input("cam", false);
    let mut roots = vec![0, 4];
    f.filter_entities(&tree, &mut roots);
    assert_eq!(roots, vec![0]);
    let mut children = vec![1, 3];
    f.filter_entities(&tree, &mut children);
    assert_eq!(children, vec![3]);
    let mut all = vec![4, 0];
    Filter::all().filter_entities(&tree, &mut all);
    assert_eq!(all, vec![4, 0]);
    assert!(f.filter_entity(&tree, 0));
}

#[test]
fn trees_must_list_children_after_parents() {
    assert!(EntityTree::new(vec![node(1, "a", vec![1, 0]), node(2, "b", vec![])]).is_none());
    assert!(EntityTree::new(vec![node(1, "a", vec![2]), node(2, "b", vec![])]).is_none());
    let tree = EntityTree::new(vec![node(1, "a", vec![1]), node(2, "b", vec![])]).unwrap();
    assert_eq!(tree.nodes().len(), 2);
    assert!(self_or_children_satisfy_filter(&tree, 0, "b", false));
    assert!(!self_or_children_satisfy_filter(&tree, 1, "a", false));
}

#[test]
fn visible_roots_filtered_and_sorted() {
    let tree = EntityTree::new(vec![
        node(30, "Gamma", vec![]),
        node(10, "Alpha", vec![]),
        node(20, "Beta", vec![]),
        node(10, "Alpha twin", vec![]),
    ])
    .unwrap();
    assert_eq!(sort_by_entity(&tree, &vec![0, 1, 2, 3]), vec![1, 3, 2, 0]);
    assert_eq!(visible_roots(&tree, &Filter::all(), &vec![0, 2, 1]), vec![1, 2, 0]);
    assert_eq!(visible_roots(&tree, &Filter::from_input("A", false), &vec![0, 2, 1]), vec![1, 2, 0]);
    assert_eq!(visible_roots(&tree, &Filter::from_input("ph", false), &vec![0, 2, 1]), vec![1]);
}
