use lsdir::layout::{column_count, regular_col_fmt};
use lsdir::printer::regular_fmt;
use lsdir::timefmt::TimeFields;
use lsdir::tree::node::Node;

fn leaf(name: &str, is_dir: bool, size: u64, mode: u32) -> Node {
    Node {
        children: vec![],
        path: String::from(name),
        file: String::from(name),
        parent: String::new(),
        is_dir,
        is_file: !is_dir,
        is_symlink: false,
        size,
        mode,
        modified: TimeFields { month: 3, day: 5, hour: 7, minute: 9 },
        uid: 0,
        gid: 0,
    }
}

fn dir_with(names: &[&str]) -> Node {
    let mut root = leaf(".", true, 0, 0o755);
    for n in names {
        root.add_node(leaf(n, false, 1, 0o644));
    }
    root
}

#[test]
fn column_count_clamp() {
    assert_eq!(column_count(100, 10), 8);
}

#[test]
fn column_count_no_reduction_at_five() {
    assert_eq!(column_count(50, 10), 5);
}

#[test]
fn column_count_clamped_to_one() {
    assert_eq!(column_count(5, 10), 1);
    assert_eq!(column_count(7, 0), 1);
}

#[test]
fn grid_two_columns() {
    let names = vec![
        String::from("aa"),
        String::from("bb"),
        String::from("cc"),
        String::from("dd"),
    ];
    assert_eq!(regular_col_fmt(&names, 5, 2), "aa  bb  \ncc  dd  ");
}

#[test]
fn grid_uneven_last_row() {
    let names = vec![String::from("aa"), String::from("bb"), String::from("cc")];
    assert_eq!(regular_col_fmt(&names, 5, 2), "aa  bb  \ncc  ");
}

#[test]
fn grid_single_column_pads_to_longest() {
    let names = vec![String::from("aaa"), String::from("b")];
    assert_eq!(regular_col_fmt(&names, 4, 3), "aaa  \nb    ");
}

#[test]
fn grid_single_long_name() {
    let names = vec![String::from("verylongname")];
    assert_eq!(regular_col_fmt(&names, 5, 12), "verylongname  ");
}

#[test]
fn grid_empty_input() {
    let names: Vec<String> = vec![];
    assert_eq!(regular_col_fmt(&names, 10, 0), "");
}

#[test]
fn flow_without_width() {
    let root = dir_with(&["a.txt", "b.txt"]);
    assert_eq!(regular_fmt(&root, false, None), "a.txt  b.txt  ");
}

#[test]
fn flow_decision_boundary() {
    let root = dir_with(&["aaa", "b"]);
    assert_eq!(regular_fmt(&root, false, Some(5)), "aaa  b  ");
    assert_eq!(regular_fmt(&root, false, Some(4)), "aaa  \nb    ");
}

#[test]
fn huge_width_equals_flow() {
    let root = dir_with(&["one", "two", "three", "four"]);
    let wide = regular_fmt(&root, false, Some(10000));
    let flow = regular_fmt(&root, false, None);
    assert_eq!(wide, flow);
    assert_eq!(wide, "one  two  three  four  ");
}

#[test]
fn hidden_names_filtered() {
    let mut root = leaf(".", true, 0, 0o755);
    root.add_node(leaf(".git", true, 0, 0o755));
    root.add_node(leaf("a.txt", false, 1, 0o644));
    root.add_node(leaf("b.txt", false, 1, 0o644));
    root.sort_children();
    assert_eq!(regular_fmt(&root, false, None), "a.txt  b.txt  ");
    assert_eq!(regular_fmt(&root, true, None), ".git  a.txt  b.txt  ");
}

#[test]
fn render_twice_is_identical() {
    let root = dir_with(&["x", "yy", "zzz", "w", "v", "u", "t", "s"]);
    let first = regular_fmt(&root, false, Some(9));
    let second = regular_fmt(&root, false, Some(9));
    assert_eq!(first, second);
}
