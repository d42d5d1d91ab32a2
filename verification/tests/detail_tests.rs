use lsdir::printer::{list_fmt, list_fmt_with, printer_rec_grid, type_char, RenderError};
use lsdir::timefmt::TimeFields;
use lsdir::tree::node::Node;

fn entry(name: &str, is_dir: bool, is_symlink: bool, size: u64, mode: u32) -> Node {
    Node {
        children: vec![],
        path: String::from(name),
        file: String::from(name),
        parent: String::new(),
        is_dir,
        is_file: !is_dir && !is_symlink,
        is_symlink,
        size,
        mode,
        modified: TimeFields { month: 3, day: 5, hour: 7, minute: 9 },
        uid: 0,
        gid: 0,
    }
}

fn owners(n: usize, user: &str, group: &str) -> (Vec<String>, Vec<String>) {
    let users = (0..n).map(|_| String::from(user)).collect();
    let groups = (0..n).map(|_| String::from(group)).collect();
    (users, groups)
}

#[test]
fn type_characters() {
    assert_eq!(type_char(&entry("d", true, false, 0, 0)), "d");
    assert_eq!(type_char(&entry("l", false, true, 0, 0)), "l");
    assert_eq!(type_char(&entry("f", false, false, 0, 0)), "-");
}

#[test]
fn detail_single_line() {
    let mut root = entry(".", true, false, 0, 0o755);
    root.add_node(entry("a.txt", false, false, 1234, 0o644));
    let (users, groups) = owners(1, "alice", "staff");
    let out = list_fmt_with(&root, false, &users, &groups);
    assert_eq!(out, "-rw-r--r-- 1 alice staff 1234 Mar  5 07:09 a.txt");
}

#[test]
fn detail_pads_sizes_to_widest() {
    let mut root = entry(".", true, false, 0, 0o755);
    root.add_node(entry("a", false, false, 5, 0o644));
    root.add_node(entry("b", true, false, 4096, 0o755));
    root.sort_children();
    let (users, groups) = owners(2, "u", "g");
    let out = list_fmt_with(&root, false, &users, &groups);
    assert_eq!(
        out,
        "-rw-r--r-- 1 u g    5 Mar  5 07:09 a\ndrwxr-xr-x 1 u g 4096 Mar  5 07:09 b"
    );
}

#[test]
fn detail_skips_hidden_without_all() {
    let mut root = entry(".", true, false, 0, 0o755);
    root.add_node(entry(".secret", false, false, 1, 0o600));
    root.add_node(entry("a", false, false, 1, 0o644));
    root.sort_children();
    let (users, groups) = owners(2, "u", "g");
    let without = list_fmt_with(&root, false, &users, &groups);
    assert_eq!(without, "-rw-r--r-- 1 u g 1 Mar  5 07:09 a");
    let with = list_fmt_with(&root, true, &users, &groups);
    assert_eq!(
        with,
        "-rw------- 1 u g 1 Mar  5 07:09 .secret\n-rw-r--r-- 1 u g 1 Mar  5 07:09 a"
    );
}

#[test]
fn detail_empty_directory() {
    let root = entry(".", true, false, 0, 0o755);
    let out = list_fmt_with(&root, true, &vec![], &vec![]);
    assert_eq!(out, "");
}

#[test]
fn resolution_failure_fails_whole_listing() {
    let mut root = entry(".", true, false, 0, 0o755);
    let mut child = entry("a", false, false, 1, 0o644);
    child.uid = u32::MAX;
    child.gid = u32::MAX;
    root.add_node(child);
    let r = list_fmt(&root, false);
    assert_eq!(r, Err(RenderError::IdentityResolutionFailed));
}

#[test]
fn unresolvable_hidden_entry_is_not_consulted() {
    let mut root = entry(".", true, false, 0, 0o755);
    let mut child = entry(".a", false, false, 1, 0o644);
    child.uid = u32::MAX;
    child.gid = u32::MAX;
    root.add_node(child);
    let r = list_fmt(&root, false);
    assert_eq!(r, Ok(String::new()));
}

#[test]
fn root_ids_resolve() {
    let mut root = entry(".", true, false, 0, 0o755);
    root.add_node(entry("a", false, false, 1, 0o644));
    let r = list_fmt(&root, false).unwrap();
    assert!(r.ends_with(" 1 Mar  5 07:09 a"));
    assert!(r.starts_with("-rw-r--r-- 1 "));
}

#[test]
fn hidden_sizes_do_not_widen_padding() {
    let mut root = entry(".", true, false, 0, 0o755);
    let mut wide = entry(".h", false, false, 100, 0o644);
    wide.uid = u32::MAX;
    wide.gid = u32::MAX;
    root.add_node(wide);
    root.add_node(entry("a", false, false, 5, 0o644));
    root.sort_children();
    let (users, groups) = owners(2, "u", "g");
    let without = list_fmt_with(&root, false, &users, &groups);
    assert_eq!(without, "-rw-r--r-- 1 u g 5 Mar  5 07:09 a");
    let with = list_fmt_with(&root, true, &users, &groups);
    assert_eq!(
        with,
        "-rw-r--r-- 1 u g 100 Mar  5 07:09 .h\n-rw-r--r-- 1 u g   5 Mar  5 07:09 a"
    );
}

#[test]
fn printer_detail_all_hidden_succeeds() {
    let mut root = entry(".", true, false, 0, 0o755);
    let mut child = entry(".a", false, false, 1, 0o644);
    child.uid = u32::MAX;
    child.gid = u32::MAX;
    root.add_node(child);
    let out = lsdir::printer::printer(&root, true, false, false).unwrap();
    assert_eq!(out, "\n");
}

#[test]
fn printer_detail_mode_appends_newline() {
    let mut root = entry(".", true, false, 0, 0o755);
    root.add_node(entry("a", false, false, 1, 0o644));
    let out = lsdir::printer::printer(&root, true, false, false).unwrap();
    assert!(out.ends_with(" 1 Mar  5 07:09 a\n"));
}

#[test]
fn printer_grid_mode() {
    let mut root = entry(".", true, false, 0, 0o755);
    root.add_node(entry("b", false, false, 1, 0o644));
    root.add_node(entry("a", false, false, 1, 0o644));
    root.sort_children();
    let out = lsdir::printer::printer(&root, false, false, false).unwrap();
    assert_eq!(out, "a  b  \n");
}

#[test]
fn printer_recursive_detail_headers() {
    let mut root = entry("/tmp/x", true, false, 0, 0o755);
    root.file = String::from("x");
    root.parent = String::from("/tmp");
    let mut sub = entry("/tmp/x/sub", true, false, 0, 0o755);
    sub.file = String::from("sub");
    sub.parent = String::from("/tmp/x");
    sub.add_node(entry("f.txt", false, false, 1, 0o644));
    root.add_node(sub);
    root.add_node(entry("g.txt", false, false, 1, 0o644));
    root.sort_children();
    let out = lsdir::printer::printer(&root, true, false, true).unwrap();
    assert!(out.starts_with("/tmp/x:\n"));
    assert!(out.contains("/tmp/x/sub:\n"));
    assert!(out.contains("f.txt"));
    assert!(out.contains("g.txt"));
}

#[test]
fn recursive_grid_scenario() {
    let mut root = entry("/tmp/x", true, false, 0, 0o755);
    root.path = String::from("/tmp/x");
    root.file = String::from("x");
    root.parent = String::from("/tmp");
    let mut sub = entry("/tmp/x/sub", true, false, 0, 0o755);
    sub.file = String::from("sub");
    sub.parent = String::from("/tmp/x");
    sub.add_node(entry("f.txt", false, false, 1, 0o644));
    let g = entry("g.txt", false, false, 1, 0o644);
    root.add_node(sub);
    root.add_node(g);
    root.sort_children();
    let out = printer_rec_grid(&root, false, Some(80));
    assert_eq!(out, "/tmp/x:\ng.txt  sub  \n/tmp/x/sub:\nf.txt  \n");
    let again = printer_rec_grid(&root, false, Some(80));
    assert_eq!(out, again);
}
