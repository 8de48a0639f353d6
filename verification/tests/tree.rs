use live_reload::path::{compare_paths, PathOrder};
use live_reload::snapshot::{Comparison, SnapshotStore};
use live_reload::tree::{bytes_equal, has_changed, Node, Tree};

fn file(text: &str) -> Node {
    Node::File(text.as_bytes().to_vec())
}

fn tree_of(files: &[(&str, &str)]) -> Tree {
    let mut tree = Tree::new();
    for (path, text) in files {
        tree.insert(path.as_bytes().to_vec(), file(text));
    }
    tree
}

#[test]
fn compare_paths_orders_by_first_differing_byte() {
    assert_eq!(compare_paths(b"abc", b"abd"), PathOrder::Before);
    assert_eq!(compare_paths(b"abd", b"abc"), PathOrder::After);
    assert_eq!(compare_paths(b"b", b"abc"), PathOrder::After);
    assert_eq!(compare_paths(&[0x7f], &[0x80]), PathOrder::Before);
}

#[test]
fn compare_paths_puts_a_prefix_first() {
    assert_eq!(compare_paths(b"src", b"src/lib.rs"), PathOrder::Before);
    assert_eq!(compare_paths(b"src/lib.rs", b"src"), PathOrder::After);
    assert_eq!(compare_paths(b"", b"a"), PathOrder::Before);
}

#[test]
fn compare_paths_finds_equal_paths_equal() {
    assert_eq!(compare_paths(b"src/lib.rs", b"src/lib.rs"), PathOrder::Same);
    assert_eq!(compare_paths(b"", b""), PathOrder::Same);
}

#[test]
fn bytes_equal_compares_length_and_content() {
    assert!(bytes_equal(b"hello", b"hello"));
    assert!(bytes_equal(b"", b""));
    assert!(!bytes_equal(b"hello", b"hellp"));
    assert!(!bytes_equal(b"hello", b"hell"));
    assert!(!bytes_equal(b"", b"x"));
}

#[test]
fn nodes_compare_by_kind_and_bytes() {
    assert!(Node::Dir.same_as(&Node::Dir));
    assert!(file("a").same_as(&file("a")));
    assert!(!file("a").same_as(&file("b")));
    assert!(!file("").same_as(&Node::Dir));
    assert!(!Node::Dir.same_as(&file("")));
}

#[test]
fn empty_tree_holds_nothing() {
    let tree = Tree::new();
    assert_eq!(tree.len(), 0);
    assert!(tree.get(b"src/lib.rs").is_none());
    assert!(!tree.contains(b""));
}

#[test]
fn insert_then_get_returns_the_node() {
    let mut tree = Tree::new();
    tree.insert(b"src".to_vec(), Node::Dir);
    tree.insert(b"src/lib.rs".to_vec(), file("pub fn run() {}"));
    assert_eq!(tree.len(), 2);
    assert_eq!(tree.get(b"src"), Some(&Node::Dir));
    assert_eq!(tree.get(b"src/lib.rs"), Some(&file("pub fn run() {}")));
    assert_eq!(tree.get(b"src/app.rs"), None);
    assert!(tree.contains(b"src/lib.rs"));
}

#[test]
fn insert_replaces_what_was_at_the_path() {
    let mut tree = tree_of(&[("a", "1"), ("b", "2")]);
    tree.insert(b"a".to_vec(), file("3"));
    assert_eq!(tree.len(), 2);
    assert_eq!(tree.get(b"a"), Some(&file("3")));
    assert_eq!(tree.get(b"b"), Some(&file("2")));
}

#[test]
fn remove_takes_one_entry_out() {
    let mut tree = tree_of(&[("a", "1"), ("b", "2"), ("c", "3")]);
    assert_eq!(tree.remove(b"b"), Some(file("2")));
    assert_eq!(tree.len(), 2);
    assert_eq!(tree.get(b"b"), None);
    assert_eq!(tree.get(b"a"), Some(&file("1")));
    assert_eq!(tree.get(b"c"), Some(&file("3")));
    assert_eq!(tree.remove(b"b"), None);
    assert_eq!(tree.len(), 2);
}

#[test]
fn listing_is_in_increasing_order_of_paths() {
    let tree = tree_of(&[("pages/home.rs", "h"), ("lib.rs", "l"), ("app.rs", "a"), ("pages", "")]);
    assert_eq!(tree.len(), 4);
    assert_eq!(tree.path_at(0), b"app.rs");
    assert_eq!(tree.path_at(1), b"lib.rs");
    assert_eq!(tree.path_at(2), b"pages");
    assert_eq!(tree.path_at(3), b"pages/home.rs");
    assert_eq!(tree.node_at(0), &file("a"));
    assert_eq!(tree.node_at(3), &file("h"));
}

#[test]
fn identical_trees_report_no_change() {
    let current = tree_of(&[("lib.rs", "mod app;"), ("app.rs", "struct App;")]);
    let snapshot = tree_of(&[("lib.rs", "mod app;"), ("app.rs", "struct App;")]);
    assert!(!has_changed(&current, &snapshot));
    assert!(!has_changed(&snapshot, &current));
    assert!(!has_changed(&Tree::new(), &Tree::new()));
}

#[test]
fn order_of_insertion_is_no_change() {
    let current = tree_of(&[("a", "1"), ("b", "2"), ("c", "3")]);
    let snapshot = tree_of(&[("c", "3"), ("a", "1"), ("b", "2")]);
    assert!(!has_changed(&current, &snapshot));
}

#[test]
fn one_changed_byte_is_a_change() {
    let current = tree_of(&[("lib.rs", "mod app;"), ("app.rs", "struct App;")]);
    let snapshot = tree_of(&[("lib.rs", "mod app;"), ("app.rs", "struct Apq;")]);
    assert!(has_changed(&current, &snapshot));
    assert!(has_changed(&snapshot, &current));
}

#[test]
fn one_added_byte_is_a_change() {
    let current = tree_of(&[("lib.rs", "mod app;\n")]);
    let snapshot = tree_of(&[("lib.rs", "mod app;")]);
    assert!(has_changed(&current, &snapshot));
}

#[test]
fn a_new_file_is_a_change() {
    let current = tree_of(&[("lib.rs", "mod app;"), ("app.rs", "")]);
    let snapshot = tree_of(&[("lib.rs", "mod app;")]);
    assert!(has_changed(&current, &snapshot));
    assert!(has_changed(&snapshot, &current));
    assert!(has_changed(&current, &Tree::new()));
}

#[test]
fn a_renamed_file_is_a_change() {
    let current = tree_of(&[("lib.rs", "x"), ("home.rs", "y")]);
    let snapshot = tree_of(&[("lib.rs", "x"), ("main.rs", "y")]);
    assert!(has_changed(&current, &snapshot));
}

#[test]
fn swapped_contents_are_a_change() {
    let current = tree_of(&[("a", "x"), ("b", "y")]);
    let snapshot = tree_of(&[("a", "y"), ("b", "x")]);
    assert!(has_changed(&current, &snapshot));
}

#[test]
fn same_contents_elsewhere_do_not_hide_a_change() {
    let current = tree_of(&[("a", "x"), ("b", "x")]);
    let snapshot = tree_of(&[("a", "x"), ("b", "y")]);
    assert!(has_changed(&current, &snapshot));
}

#[test]
fn a_directory_in_place_of_a_file_is_a_change() {
    let mut current = tree_of(&[("lib.rs", "x")]);
    current.insert(b"pages".to_vec(), Node::Dir);
    let snapshot = tree_of(&[("lib.rs", "x"), ("pages", "")]);
    assert!(has_changed(&current, &snapshot));
}

#[test]
fn an_empty_directory_is_a_change() {
    let mut current = tree_of(&[("lib.rs", "x")]);
    current.insert(b"pages".to_vec(), Node::Dir);
    let snapshot = tree_of(&[("lib.rs", "x")]);
    assert!(has_changed(&current, &snapshot));
}

#[test]
fn removing_what_was_added_is_no_change() {
    let mut current = tree_of(&[("lib.rs", "x")]);
    let snapshot = tree_of(&[("lib.rs", "x")]);
    current.insert(b"tmp".to_vec(), file("t"));
    assert!(has_changed(&current, &snapshot));
    current.remove(b"tmp");
    assert!(!has_changed(&current, &snapshot));
}

#[test]
fn store_without_baseline_adopts_the_first_observation() {
    let mut store = SnapshotStore::new();
    assert!(!store.has_baseline());
    assert!(store.baseline().is_none());
    let found = store.compare(tree_of(&[("lib.rs", "x")]));
    assert!(matches!(found, Comparison::Adopted));
    assert!(store.has_baseline());
    assert!(!has_changed(store.baseline().unwrap(), &tree_of(&[("lib.rs", "x")])));
}

#[test]
fn store_reports_the_same_tree_unchanged() {
    let mut store = SnapshotStore::with_baseline(tree_of(&[("lib.rs", "x")]));
    let found = store.compare(tree_of(&[("lib.rs", "x")]));
    assert!(matches!(found, Comparison::Unchanged));
    assert!(!has_changed(store.baseline().unwrap(), &tree_of(&[("lib.rs", "x")])));
}

#[test]
fn store_hands_a_changed_tree_back_and_keeps_its_baseline() {
    let mut store = SnapshotStore::with_baseline(tree_of(&[("lib.rs", "x")]));
    let found = store.compare(tree_of(&[("lib.rs", "y")]));
    match found {
        Comparison::Changed(tree) => assert!(!has_changed(&tree, &tree_of(&[("lib.rs", "y")]))),
        _ => panic!("a change was expected"),
    }
    assert!(!has_changed(store.baseline().unwrap(), &tree_of(&[("lib.rs", "x")])));
}

#[test]
fn store_refresh_replaces_the_baseline() {
    let mut store = SnapshotStore::with_baseline(tree_of(&[("lib.rs", "x")]));
    store.refresh(tree_of(&[("lib.rs", "y")]));
    assert!(!has_changed(store.baseline().unwrap(), &tree_of(&[("lib.rs", "y")])));
    let found = store.compare(tree_of(&[("lib.rs", "y")]));
    assert!(matches!(found, Comparison::Unchanged));
}
