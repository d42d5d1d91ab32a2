use lsdir::timefmt::TimeFields;
use lsdir::tree::node::{Metadata, Node};

fn meta(is_dir: bool, size: u64, mode: u32, secs: i64) -> Metadata {
    Metadata {
        is_dir,
        is_file: !is_dir,
        is_symlink: false,
        size,
        mode,
        modified_secs: secs,
        uid: 42,
        gid: 43,
    }
}

fn leaf(name: &str) -> Node {
    Node {
        children: vec![],
        path: String::from(name),
        file: String::from(name),
        parent: String::new(),
        is_dir: false,
        is_file: true,
        is_symlink: false,
        size: 1,
        mode: 0o644,
        modified: TimeFields { month: 1, day: 1, hour: 0, minute: 0 },
        uid: 0,
        gid: 0,
    }
}

fn names(n: &Node) -> Vec<String> {
    n.children.iter().map(|c| c.file.clone()).collect()
}

#[test]
fn new_splits_path() {
    let n = Node::new("/tmp/x", &meta(true, 4096, 0o755, 86_400));
    assert_eq!(n.path, "/tmp/x");
    assert_eq!(n.file, "x");
    assert_eq!(n.parent, "/tmp");
    assert!(n.children.is_empty());
    assert!(n.is_dir);
    assert_eq!(n.size, 4096);
    assert_eq!(n.mode, 0o755);
    assert_eq!(n.uid, 42);
    assert_eq!(n.gid, 43);
}

#[test]
fn new_ignores_trailing_slash() {
    let n = Node::new("/tmp/x/", &meta(true, 4096, 0o755, 86_400));
    assert_eq!(n.path, "/tmp/x/");
    assert_eq!(n.file, "x");
    assert_eq!(n.parent, "/tmp");
}

#[test]
fn new_keeps_dot_literal() {
    let n = Node::new(".", &meta(true, 0, 0o755, 0));
    assert_eq!(n.file, ".");
    assert_eq!(n.parent, "");
}

#[test]
fn new_time_fields_in_range() {
    for secs in [0i64, 86_400 * 100, 1_700_000_000] {
        let n = Node::new("f", &meta(false, 1, 0o644, secs));
        assert!(n.modified.month >= 1 && n.modified.month <= 12);
        assert!(n.modified.day >= 1 && n.modified.day <= 31);
        assert!(n.modified.hour <= 23);
        assert!(n.modified.minute <= 59);
    }
}

#[test]
fn epoch_start_is_near_new_year() {
    let n = Node::new("f", &meta(false, 1, 0o644, 0));
    assert!(n.modified.month == 1 || n.modified.month == 12);
}

#[test]
fn add_node_appends_and_returns_index() {
    let mut root = leaf("root");
    assert_eq!(root.add_node(leaf("a")), 0);
    assert_eq!(root.add_node(leaf("b")), 1);
    assert_eq!(names(&root), vec!["a", "b"]);
}

#[test]
fn sort_children_orders_by_name() {
    let mut root = leaf("root");
    root.add_node(leaf("c"));
    root.add_node(leaf("a"));
    root.add_node(leaf("b"));
    root.sort_children();
    assert_eq!(names(&root), vec!["a", "b", "c"]);
}

#[test]
fn sort_is_order_independent() {
    let mut one = leaf("root");
    for n in ["g.txt", "sub", ".git", "a"] {
        one.add_node(leaf(n));
    }
    let mut two = leaf("root");
    for n in ["a", ".git", "sub", "g.txt"] {
        two.add_node(leaf(n));
    }
    one.sort_children();
    two.sort_children();
    assert_eq!(names(&one), names(&two));
    assert_eq!(names(&one), vec![".git", "a", "g.txt", "sub"]);
}

#[test]
fn display_string_lists_paths() {
    let mut root = leaf("x");
    root.parent = String::from("/tmp");
    root.add_node(leaf("a"));
    assert_eq!(root.display_string(), "/tmp/x\na\n");
}

#[test]
fn node_comparison_by_name() {
    let a = leaf("a");
    let a2 = leaf("a");
    let b = leaf("b");
    assert!(a < b);
    assert!(!(b < a));
    assert_eq!(a.partial_cmp(&b), Some(std::cmp::Ordering::Less));
    assert_eq!(b.partial_cmp(&a), Some(std::cmp::Ordering::Greater));
    assert_eq!(a.partial_cmp(&a2), Some(std::cmp::Ordering::Equal));
    assert!(a == a2);
    assert!(a != b);
}

#[test]
fn time_formatting() {
    let t = TimeFields { month: 3, day: 5, hour: 7, minute: 9 };
    assert_eq!(lsdir::timefmt::format_time(&t), "Mar  5 07:09");
    let t2 = TimeFields { month: 12, day: 31, hour: 23, minute: 59 };
    assert_eq!(lsdir::timefmt::format_time(&t2), "Dec 31 23:59");
    let t3 = TimeFields { month: 10, day: 10, hour: 0, minute: 0 };
    assert_eq!(lsdir::timefmt::format_time(&t3), "Oct 10 00:00");
}
