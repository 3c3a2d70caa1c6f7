use duckdisk::cloud_items::{CachedItem, CloudItems};
use duckdisk::cloud_tree::{build_subtree, build_tree, LinkRule};

fn put(items: &mut CloudItems, id: &str, parent: Option<&str>, size: u64, folder: bool) {
    items.insert(CachedItem {
        id: id.to_string(),
        parent_id: parent.map(str::to_string),
        name: id.to_uppercase(),
        size,
        is_folder: folder,
    });
}

#[test]
fn folders_sum_their_children_largest_first() {
    let mut items = CloudItems::new();
    put(&mut items, "root", None, 0, true);
    put(&mut items, "f", Some("root"), 1000, true);
    put(&mut items, "a", Some("f"), 5, false);
    put(&mut items, "b", Some("f"), 9, false);
    put(&mut items, "c", Some("f"), 5, false);
    put(&mut items, "g", Some("root"), 3, false);
    let rule = LinkRule { skip_root: true, orphans_to_root: false };
    let tree = build_tree(&items, rule, "root", "Drive".to_string());
    assert_eq!(tree.size, 22);
    assert_eq!(tree.children[0].cloud_id, "f");
    assert_eq!(tree.children[0].size, 19);
    let order: Vec<&str> = tree.children[0].children.iter().map(|n| n.cloud_id.as_str()).collect();
    assert_eq!(order, vec!["b", "a", "c"]);
    assert_eq!(tree.children[1].name, "G");
}

#[test]
fn parent_cycles_do_not_loop() {
    let mut items = CloudItems::new();
    put(&mut items, "x", Some("y"), 0, true);
    put(&mut items, "y", Some("x"), 0, true);
    put(&mut items, "z", Some("y"), 4, false);
    let rule = LinkRule { skip_root: false, orphans_to_root: false };
    let node = build_subtree(&items, rule, "root", "x").unwrap();
    assert_eq!(node.size, 4);
    assert_eq!(node.children.len(), 1);
    assert_eq!(node.children[0].cloud_id, "y");
    assert!(build_subtree(&items, rule, "root", "missing").is_none());
}

#[test]
fn removing_a_subtree_keeps_everything_else() {
    let mut items = CloudItems::new();
    put(&mut items, "r", None, 0, true);
    put(&mut items, "a", Some("r"), 0, true);
    put(&mut items, "b", Some("a"), 0, true);
    put(&mut items, "c", Some("b"), 1, false);
    put(&mut items, "d", Some("r"), 2, false);
    items.remove_subtree("a");
    assert_eq!(items.len(), 2);
    assert!(items.contains_key("r") && items.contains_key("d"));
    items.remove("d");
    assert!(!items.contains_key("d"));
}

fn count_id(nodes: &[duckdisk::cloud_tree::CloudNode], id: &str) -> usize {
    nodes
        .iter()
        .map(|n| usize::from(n.cloud_id == id) + count_id(&n.children, id))
        .sum()
}

fn file_total(nodes: &[duckdisk::cloud_tree::CloudNode]) -> u64 {
    nodes
        .iter()
        .map(|n| if n.is_directory { file_total(&n.children) } else { n.size })
        .sum()
}

#[test]
fn every_item_but_the_root_is_one_node() {
    let mut items = CloudItems::new();
    put(&mut items, "root", None, 0, true);
    put(&mut items, "f", Some("root"), 0, true);
    put(&mut items, "g", Some("f"), 0, true);
    put(&mut items, "a", Some("g"), 7, false);
    put(&mut items, "b", Some("f"), 2, false);
    put(&mut items, "orphan", Some("gone"), 11, false);
    put(&mut items, "loose", None, 4, false);
    let rule = LinkRule { skip_root: true, orphans_to_root: true };
    let tree = build_tree(&items, rule, "root", "Drive".to_string());
    assert_eq!(count_id(&tree.children, "root"), 0);
    for id in ["f", "g", "a", "b", "orphan", "loose"] {
        assert_eq!(count_id(&tree.children, id), 1, "{id}");
    }
    assert_eq!(tree.size, 7 + 2 + 11 + 4);
    assert_eq!(file_total(&tree.children), tree.size);
}

#[test]
fn items_outside_the_root_are_not_reported() {
    let mut items = CloudItems::new();
    put(&mut items, "root", None, 0, true);
    put(&mut items, "a", Some("root"), 3, false);
    put(&mut items, "elsewhere", None, 0, true);
    put(&mut items, "b", Some("elsewhere"), 5, false);
    let rule = LinkRule { skip_root: true, orphans_to_root: false };
    let tree = build_tree(&items, rule, "root", "Drive".to_string());
    assert_eq!(count_id(&tree.children, "a"), 1);
    assert_eq!(count_id(&tree.children, "b"), 0);
    assert_eq!(count_id(&tree.children, "elsewhere"), 0);
    assert_eq!(tree.size, 3);
}

#[test]
fn removing_a_subtree_twice_changes_nothing_more() {
    let mut items = CloudItems::new();
    put(&mut items, "r", None, 0, true);
    put(&mut items, "a", Some("r"), 0, true);
    put(&mut items, "c", Some("a"), 1, false);
    put(&mut items, "d", Some("r"), 2, false);
    items.remove_subtree("a");
    assert_eq!(items.len(), 2);
    items.remove_subtree("a");
    assert_eq!(items.len(), 2);
    assert!(items.contains_key("r") && items.contains_key("d"));
}
