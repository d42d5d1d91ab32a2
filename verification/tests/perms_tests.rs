use lsdir::perms::{parse_permissions, triplet, S_IROTH, S_IWOTH, S_IXOTH};

#[test]
fn perm_755() {
    assert_eq!(parse_permissions(0o755), "rwxr-xr-x");
}

#[test]
fn perm_644() {
    assert_eq!(parse_permissions(0o644), "rw-r--r--");
}

#[test]
fn perm_000() {
    assert_eq!(parse_permissions(0o000), "---------");
}

#[test]
fn perm_777_and_symlink_mode() {
    assert_eq!(parse_permissions(0o777), "rwxrwxrwx");
    assert_eq!(parse_permissions(0o120777 & 0o777), "rwxrwxrwx");
}

#[test]
fn triplet_all_shapes() {
    assert_eq!(triplet(0o0, S_IROTH, S_IWOTH, S_IXOTH), "---");
    assert_eq!(triplet(0o4, S_IROTH, S_IWOTH, S_IXOTH), "r--");
    assert_eq!(triplet(0o2, S_IROTH, S_IWOTH, S_IXOTH), "-w-");
    assert_eq!(triplet(0o1, S_IROTH, S_IWOTH, S_IXOTH), "--x");
    assert_eq!(triplet(0o5, S_IROTH, S_IWOTH, S_IXOTH), "r-x");
    assert_eq!(triplet(0o6, S_IROTH, S_IWOTH, S_IXOTH), "rw-");
    assert_eq!(triplet(0o3, S_IROTH, S_IWOTH, S_IXOTH), "-wx");
    assert_eq!(triplet(0o7, S_IROTH, S_IWOTH, S_IXOTH), "rwx");
}

#[test]
fn number_rendering() {
    assert_eq!(lsdir::numfmt::u64_to_string(0), "0");
    assert_eq!(lsdir::numfmt::u64_to_string(7), "7");
    assert_eq!(lsdir::numfmt::u64_to_string(1234567890), "1234567890");
    assert_eq!(lsdir::numfmt::u64_to_string(u64::MAX), "18446744073709551615");
}

#[test]
fn path_split() {
    assert_eq!(lsdir::strutil::parent_of("/tmp/x"), "/tmp");
    assert_eq!(lsdir::strutil::basename_of("/tmp/x"), "x");
    assert_eq!(lsdir::strutil::parent_of("plain"), "");
    assert_eq!(lsdir::strutil::basename_of("plain"), "plain");
    assert_eq!(lsdir::strutil::parent_of("a/b/c"), "a/b");
    assert_eq!(lsdir::strutil::basename_of("a/b/c"), "c");
}

#[test]
fn path_split_ignores_trailing_slashes() {
    assert_eq!(lsdir::strutil::parent_of("a/"), "");
    assert_eq!(lsdir::strutil::basename_of("a/"), "a");
    assert_eq!(lsdir::strutil::parent_of("/tmp/x/"), "/tmp");
    assert_eq!(lsdir::strutil::basename_of("/tmp/x/"), "x");
    assert_eq!(lsdir::strutil::basename_of("/tmp/x///"), "x");
}

#[test]
fn name_order() {
    assert!(lsdir::strutil::str_le("a.txt", "b.txt"));
    assert!(!lsdir::strutil::str_le("b.txt", "a.txt"));
    assert!(lsdir::strutil::str_le("abc", "abc"));
    assert!(lsdir::strutil::str_le("ab", "abc"));
    assert!(lsdir::strutil::str_le(".git", "a.txt"));
}
