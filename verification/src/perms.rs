use vstd::prelude::*;
use vstd::string::*;

verus! {

/// POSIX mode bits for the read, write and execute permissions of the
/// owner, group and other classes.
pub const S_IRUSR: u32 = 0o400;

pub const S_IWUSR: u32 = 0o200;

pub const S_IXUSR: u32 = 0o100;

pub const S_IRGRP: u32 = 0o040;

pub const S_IWGRP: u32 = 0o020;

pub const S_IXGRP: u32 = 0o010;

pub const S_IROTH: u32 = 0o004;

pub const S_IWOTH: u32 = 0o002;

pub const S_IXOTH: u32 = 0o001;

/// The three-character display of one permission class: `r`, `w` and `x`
/// in their fixed positions, `-` where the corresponding bit is clear.
pub open spec fn triplet_spec(mode: u32, read: u32, write: u32, execute: u32) -> Seq<char> {
    if mode & read == 0 && mode & write == 0 && mode & execute == 0 {
        "---"@
    } else if mode & write == 0 && mode & execute == 0 {
        "r--"@
    } else if mode & read == 0 && mode & execute == 0 {
        "-w-"@
    } else if mode & read == 0 && mode & write == 0 {
        "--x"@
    } else if mode & write == 0 {
        "r-x"@
    } else if mode & execute == 0 {
        "rw-"@
    } else if mode & read == 0 {
        "-wx"@
    } else {
        "rwx"@
    }
}

/// The 9-character permission display: owner, group, other triplets in order.
pub open spec fn permissions_spec(mode: u32) -> Seq<char> {
    triplet_spec(mode, S_IRUSR, S_IWUSR, S_IXUSR) + triplet_spec(
        mode,
        S_IRGRP,
        S_IWGRP,
        S_IXGRP,
    ) + triplet_spec(mode, S_IROTH, S_IWOTH, S_IXOTH)
}

pub fn triplet(mode: u32, read: u32, write: u32, execute: u32) -> (r: String)
    ensures
        r@ == triplet_spec(mode, read, write, execute),
{
    let has_r = mode & read != 0;
    let has_w = mode & write != 0;
    let has_x = mode & execute != 0;
    if !has_r && !has_w && !has_x {
        String::from_str("---")
    } else if !has_w && !has_x {
        String::from_str("r--")
    } else if !has_r && !has_x {
        String::from_str("-w-")
    } else if !has_r && !has_w {
        String::from_str("--x")
    } else if !has_w {
        String::from_str("r-x")
    } else if !has_x {
        String::from_str("rw-")
    } else if !has_r {
        String::from_str("-wx")
    } else {
        String::from_str("rwx")
    }
}

pub fn parse_permissions(mode: u32) -> (r: String)
    ensures
        r@ == permissions_spec(mode),
{
    let user = triplet(mode, S_IRUSR, S_IWUSR, S_IXUSR);
    let group = triplet(mode, S_IRGRP, S_IWGRP, S_IXGRP);
    let other = triplet(mode, S_IROTH, S_IWOTH, S_IXOTH);
    user.concat(group.as_str()).concat(other.as_str())
}

} // verus!
