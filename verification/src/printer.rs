use crate::layout::{
    flat_upto, flat_width, flow_spec, flow_upto, hidden, layout_spec, lemma_flat_bounds, max_upto,
    regular_col_fmt, shown, views_of, visible, visible_upto,
};
use crate::numfmt::{dec_digits, u64_to_string};
use crate::perms::{parse_permissions, permissions_spec};
use crate::strutil::{append_spaces, spaces};
use crate::sys::{lookup_group_name, lookup_user_name, terminal_cols};
use crate::timefmt::{format_time, time_spec};
use crate::tree::node::{names_of, Node};
use vstd::prelude::*;
use vstd::string::*;

verus! {

/// Why a render failed.
#[derive(Clone, Copy, Debug, PartialEq, Eq, Structural)]
pub enum RenderError {
    /// An owner or group id had no name in the system identity database.
    IdentityResolutionFailed,
}

/// The display names of a directory's children, in tree order.
pub open spec fn child_names(n: Node) -> Seq<Seq<char>> {
    names_of(n.children@)
}

/// The terminal width fits all the shown names of this directory in a
/// single machine word of cells; forced by the flat-width arithmetic.
pub open spec fn fits(n: Node, all: bool) -> bool {
    flat_width(visible(child_names(n), all)) <= usize::MAX
}

/// Whether `s@` starts with the hidden-prefix character.
pub fn starts_with_dot(s: &str) -> (r: bool)
    ensures
        r == hidden(s@),
{
    if s.unicode_len() == 0 {
        false
    } else {
        s.get_char(0) == '.'
    }
}

/// The shown child names of `node`, in order, as owned strings.
fn visible_names(node: &Node, all: bool) -> (r: Vec<String>)
    ensures
        views_of(r@) == visible(child_names(*node), all),
{
    let ghost cn = child_names(*node);
    let mut out: Vec<String> = Vec::new();
    let mut i: usize = 0;
    proof {
        assert(views_of(out@) =~= visible_upto(cn, all, 0));
    }
    while i < node.children.len()
        invariant
            i <= node.children@.len(),
            cn == child_names(*node),
            cn.len() == node.children@.len(),
            views_of(out@) == visible_upto(cn, all, i as int),
        decreases node.children@.len() - i,
    {
        proof {
            assert(cn[i as int] == node.children@[i as int].file@);
        }
        let show = all || !starts_with_dot(node.children[i].file.as_str());
        if show {
            let name = node.children[i].file.clone();
            out.push(name);
            proof {
                assert(views_of(out@) =~= visible_upto(cn, all, i + 1));
            }
        } else {
            proof {
                assert(views_of(out@) =~= visible_upto(cn, all, i + 1));
            }
        }
        i = i + 1;
    }
    out
}

/// Concatenates the names, each followed by the fixed two-space gap.
fn flow_fmt(names: &Vec<String>) -> (r: String)
    ensures
        r@ == flow_spec(views_of(names@)),
{
    let ghost vnames = views_of(names@);
    let mut result = String::new();
    let mut i: usize = 0;
    proof {
        assert(result@ =~= flow_upto(vnames, 0));
    }
    while i < names.len()
        invariant
            i <= names@.len(),
            vnames == views_of(names@),
            vnames.len() == names@.len(),
            result@ == flow_upto(vnames, i as int),
        decreases names@.len() - i,
    {
        proof {
            assert(vnames[i as int] == names@[i as int]@);
        }
        result.append(names[i].as_str());
        result.append("  ");
        proof {
            reveal_strlit("  ");
            assert("  "@ =~= spaces(2));
            assert(result@ =~= flow_upto(vnames, i + 1));
        }
        i = i + 1;
    }
    result
}

/// Renders the child names of `node` (hidden ones only when `all`) for a
/// terminal of the given width: the single-row flow when the width is
/// unknown or the flow minus its longest name fits, the round-robin grid
/// otherwise.
pub fn regular_fmt(node: &Node, all: bool, width: Option<u16>) -> (r: String)
    requires
        fits(*node, all),
    ensures
        r@ == layout_spec(visible(child_names(*node), all), width),
{
    let names = visible_names(node, all);
    let ghost vnames = views_of(names@);
    let mut total: usize = 0;
    let mut maxlen: usize = 0;
    let mut i: usize = 0;
    proof {
        lemma_flat_mono(vnames, 0, vnames.len() as int);
    }
    while i < names.len()
        invariant
            i <= names@.len(),
            vnames == views_of(names@),
            vnames.len() == names@.len(),
            flat_width(vnames) <= usize::MAX,
            total == flat_upto(vnames, i as int),
            maxlen == max_upto(vnames, i as int),
        decreases names@.len() - i,
    {
        proof {
            assert(vnames[i as int] == names@[i as int]@);
            lemma_flat_mono(vnames, i + 1, vnames.len() as int);
            lemma_flat_bounds(vnames, i + 1);
        }
        let len = names[i].as_str().unicode_len();
        total = total + len + 2;
        if len > maxlen {
            maxlen = len;
        }
        i = i + 1;
    }
    proof {
        lemma_flat_bounds(vnames, vnames.len() as int);
    }
    match width {
        Option::None => flow_fmt(&names),
        Option::Some(w) => {
            if total - maxlen <= w as usize {
                flow_fmt(&names)
            } else {
                regular_col_fmt(&names, w as usize, maxlen)
            }
        },
    }
}

/// A flat prefix cost never exceeds a longer one's.
pub proof fn lemma_flat_mono(names: Seq<Seq<char>>, i: int, j: int)
    requires
        i <= j,
    ensures
        flat_upto(names, i) <= flat_upto(names, j),
    decreases j - i,
{
    if i < j {
        lemma_flat_mono(names, i, j - 1);
    }
}

/// The type character of the detail listing: `d` for a directory, `l`
/// for a symbolic link, `-` otherwise.
pub open spec fn type_char_spec(n: Node) -> Seq<char> {
    if n.is_dir {
        "d"@
    } else if n.is_symlink {
        "l"@
    } else {
        "-"@
    }
}

pub fn type_char(tree: &Node) -> (r: String)
    ensures
        r@ == type_char_spec(*tree),
{
    if tree.is_dir {
        String::from_str("d")
    } else if tree.is_symlink {
        String::from_str("l")
    } else {
        String::from_str("-")
    }
}

/// The widest size display among the shown children of the first `i`:
/// sizes are right-aligned to the widest size in the listing, so hidden
/// children that are not listed do not widen it.
pub open spec fn size_digits_max(cs: Seq<Node>, all: bool, i: int) -> int
    decreases i,
{
    if i <= 0 {
        0
    } else if shown(cs[i - 1].file@, all) {
        vstd::math::max(
            size_digits_max(cs, all, i - 1),
            dec_digits(cs[i - 1].size as int).len() as int,
        )
    } else {
        size_digits_max(cs, all, i - 1)
    }
}

proof fn lemma_size_digits_bound(cs: Seq<Node>, all: bool, i: int, j: int)
    requires
        0 <= j < i,
        shown(cs[j].file@, all),
    ensures
        dec_digits(cs[j].size as int).len() <= size_digits_max(cs, all, i),
    decreases i,
{
    if j < i - 1 {
        lemma_size_digits_bound(cs, all, i - 1, j);
    }
}

/// One detail line: type character, 9-character permissions, the
/// hard-link placeholder, owner, group, the size right-aligned to the
/// widest size `m`, the modification time, and the name.
pub open spec fn detail_line_spec(n: Node, user: Seq<char>, group: Seq<char>, m: int) -> Seq<char> {
    type_char_spec(n) + permissions_spec(n.mode) + " 1 "@ + user + " "@ + group + " "@ + spaces(
        (m - dec_digits(n.size as int).len()) as nat,
    ) + dec_digits(n.size as int) + " "@ + time_spec(n.modified) + " "@ + n.file@
}

/// Whether any of the first `i` children is shown.
pub open spec fn any_shown(cs: Seq<Node>, all: bool, i: int) -> bool
    decreases i,
{
    if i <= 0 {
        false
    } else {
        any_shown(cs, all, i - 1) || shown(cs[i - 1].file@, all)
    }
}

/// The detail lines of the first `i` children that are shown, joined by
/// single newlines, the last line bare.
pub open spec fn list_upto(
    cs: Seq<Node>,
    all: bool,
    users: Seq<Seq<char>>,
    groups: Seq<Seq<char>>,
    m: int,
    i: int,
) -> Seq<char>
    decreases i,
{
    if i <= 0 {
        Seq::empty()
    } else {
        let prev = list_upto(cs, all, users, groups, m, i - 1);
        if shown(cs[i - 1].file@, all) {
            if any_shown(cs, all, i - 1) {
                prev + seq!['\n'] + detail_line_spec(cs[i - 1], users[i - 1], groups[i - 1], m)
            } else {
                prev + detail_line_spec(cs[i - 1], users[i - 1], groups[i - 1], m)
            }
        } else {
            prev
        }
    }
}

/// The whole detail listing of a directory, given the resolved owner and
/// group names of each child.
pub open spec fn list_spec(
    cs: Seq<Node>,
    all: bool,
    users: Seq<Seq<char>>,
    groups: Seq<Seq<char>>,
) -> Seq<char> {
    list_upto(cs, all, users, groups, size_digits_max(cs, all, cs.len() as int), cs.len() as int)
}

fn detail_line(n: &Node, user: &String, group: &String, m: usize) -> (r: String)
    requires
        dec_digits(n.size as int).len() <= m,
    ensures
        r@ == detail_line_spec(*n, user@, group@, m as int),
{
    let mut r = type_char(n);
    let perms = parse_permissions(n.mode);
    r.append(perms.as_str());
    r.append(" 1 ");
    r.append(user.as_str());
    r.append(" ");
    r.append(group.as_str());
    r.append(" ");
    let size_str = u64_to_string(n.size);
    let digits = size_str.as_str().unicode_len();
    append_spaces(&mut r, m - digits);
    r.append(size_str.as_str());
    r.append(" ");
    let t = format_time(&n.modified);
    r.append(t.as_str());
    r.append(" ");
    r.append(n.file.as_str());
    r
}

/// Renders the detail listing from already-resolved owner and group
/// names, one per child (those of children that are not shown are
/// ignored).
pub fn list_fmt_with(node: &Node, all: bool, users: &Vec<String>, groups: &Vec<String>) -> (r:
    String)
    requires
        users@.len() == node.children@.len(),
        groups@.len() == node.children@.len(),
    ensures
        r@ == list_spec(node.children@, all, views_of(users@), views_of(groups@)),
{
    let ghost cs = node.children@;
    let ghost vusers = views_of(users@);
    let ghost vgroups = views_of(groups@);
    let mut m: usize = 0;
    let mut i: usize = 0;
    while i < node.children.len()
        invariant
            i <= cs.len(),
            cs == node.children@,
            m == size_digits_max(cs, all, i as int),
        decreases cs.len() - i,
    {
        if all || !starts_with_dot(node.children[i].file.as_str()) {
            let s = u64_to_string(node.children[i].size);
            let l = s.as_str().unicode_len();
            if l > m {
                m = l;
            }
        }
        i = i + 1;
    }
    let mut result = String::new();
    let mut first = true;
    i = 0;
    proof {
        assert(result@ =~= list_upto(cs, all, vusers, vgroups, m as int, 0));
    }
    while i < node.children.len()
        invariant
            i <= cs.len(),
            cs == node.children@,
            vusers == views_of(users@),
            vgroups == views_of(groups@),
            vusers.len() == cs.len(),
            vgroups.len() == cs.len(),
            m == size_digits_max(cs, all, cs.len() as int),
            first == !any_shown(cs, all, i as int),
            result@ == list_upto(cs, all, vusers, vgroups, m as int, i as int),
        decreases cs.len() - i,
    {
        let show = all || !starts_with_dot(node.children[i].file.as_str());
        if show {
            if !first {
                result.append("\n");
            }
            proof {
                lemma_size_digits_bound(cs, all, cs.len() as int, i as int);
                assert(vusers[i as int] == users@[i as int]@);
                assert(vgroups[i as int] == groups@[i as int]@);
            }
            let line = detail_line(&node.children[i], &users[i], &groups[i], m);
            result.append(line.as_str());
            proof {
                reveal_strlit("\n");
                if any_shown(cs, all, i as int) {
                    assert(result@ =~= list_upto(cs, all, vusers, vgroups, m as int, i as int)
                        + seq!['\n'] + detail_line_spec(cs[i as int], vusers[i as int], vgroups[
                        i as int
                    ], m as int));
                }
                assert(result@ =~= list_upto(cs, all, vusers, vgroups, m as int, i + 1));
            }
            first = false;
        } else {
            proof {
                assert(result@ =~= list_upto(cs, all, vusers, vgroups, m as int, i + 1));
            }
        }
        i = i + 1;
    }
    result
}

/// Renders the detail listing, resolving each shown child's owner and
/// group through the system identity database; fails whole when any
/// shown child's id has no name there. What names the database holds
/// depends on the machine, so the contract promises the exact listing
/// for whatever names came back.
pub fn list_fmt(node: &Node, all: bool) -> (r: Result<String, RenderError>)
    ensures
        r matches Ok(s) ==> exists|u: Seq<Seq<char>>, g: Seq<Seq<char>>|
            u.len() == node.children@.len() && g.len() == node.children@.len() && s@ == list_spec(
                node.children@,
                all,
                u,
                g,
            ),
        r matches Err(e) ==> e == RenderError::IdentityResolutionFailed,
        (forall|i: int|
            0 <= i < node.children@.len() ==> !shown(node.children@[i].file@, all)) ==> r is Ok,
{
    let mut users: Vec<String> = Vec::new();
    let mut groups: Vec<String> = Vec::new();
    let mut i: usize = 0;
    while i < node.children.len()
        invariant
            i <= node.children@.len(),
            users@.len() == i,
            groups@.len() == i,
        decreases node.children@.len() - i,
    {
        let show = all || !starts_with_dot(node.children[i].file.as_str());
        if show {
            proof {
                assert(shown(node.children@[i as int].file@, all));
            }
            match lookup_user_name(node.children[i].uid) {
                Option::Some(u) => users.push(u),
                Option::None => {
                    return Result::Err(RenderError::IdentityResolutionFailed);
                },
            }
            match lookup_group_name(node.children[i].gid) {
                Option::Some(g) => groups.push(g),
                Option::None => {
                    return Result::Err(RenderError::IdentityResolutionFailed);
                },
            }
        } else {
            users.push(String::new());
            groups.push(String::new());
        }
        i = i + 1;
    }
    let s = list_fmt_with(node, all, &users, &groups);
    proof {
        assert(views_of(users@).len() == node.children@.len());
        assert(views_of(groups@).len() == node.children@.len());
    }
    Result::Ok(s)
}

/// The header line printed before a directory's own listing in
/// recursive mode: its path, a colon, a newline.
pub open spec fn header_spec(n: Node) -> Seq<char> {
    n.path@ + ":"@ + seq!['\n']
}

/// The grid-mode block of one directory in recursive mode.
pub open spec fn grid_block(n: Node, all: bool, w: Option<u16>) -> Seq<char> {
    header_spec(n) + layout_spec(visible(child_names(n), all), w) + seq!['\n']
}

/// The whole recursive grid-mode output: each visited directory's block,
/// pre-order, visiting shown directory children.
pub open spec fn rec_grid(n: Node, all: bool, w: Option<u16>) -> Seq<char>
    decreases n, 0int,
{
    grid_block(n, all, w) + rec_grid_children(n.children@, all, w, n.children@.len() as int)
}

pub open spec fn rec_grid_children(cs: Seq<Node>, all: bool, w: Option<u16>, i: int) -> Seq<char>
    decreases cs, i,
    when i <= cs.len()
{
    if i <= 0 {
        Seq::empty()
    } else {
        rec_grid_children(cs, all, w, i - 1) + if cs[i - 1].is_dir && shown(cs[i - 1].file@, all) {
            rec_grid(cs[i - 1], all, w)
        } else {
            Seq::empty()
        }
    }
}

/// Every directory visited by the recursive render has a fitting flat
/// width (forced by the flat-width arithmetic).
pub open spec fn rec_fits(n: Node, all: bool) -> bool
    decreases n, 0int,
{
    fits(n, all) && rec_fits_children(n.children@, all, n.children@.len() as int)
}

pub open spec fn rec_fits_children(cs: Seq<Node>, all: bool, i: int) -> bool
    decreases cs, i,
    when i <= cs.len()
{
    if i <= 0 {
        true
    } else {
        rec_fits_children(cs, all, i - 1) && (!(cs[i - 1].is_dir && shown(cs[i - 1].file@, all))
            || rec_fits(cs[i - 1], all))
    }
}

proof fn lemma_rec_fits_child(cs: Seq<Node>, all: bool, i: int, j: int)
    requires
        rec_fits_children(cs, all, i),
        i <= cs.len(),
        0 <= j < i,
        cs[j].is_dir,
        shown(cs[j].file@, all),
    ensures
        rec_fits(cs[j], all),
    decreases i,
{
    if j < i - 1 {
        lemma_rec_fits_child(cs, all, i - 1, j);
    }
}

/// Renders the recursive grid-mode output: this directory's header and
/// grid, then, pre-order, each shown directory child's recursive output.
pub fn printer_rec_grid(tree: &Node, all: bool, width: Option<u16>) -> (r: String)
    requires
        rec_fits(*tree, all),
    ensures
        r@ == rec_grid(*tree, all, width),
    decreases *tree,
{
    let ghost cs = tree.children@;
    let mut result = String::from_str(tree.path.as_str());
    result.append(":");
    result.append("\n");
    proof {
        reveal_strlit("\n");
        assert(result@ =~= header_spec(*tree));
    }
    let body = regular_fmt(tree, all, width);
    result.append(body.as_str());
    result.append("\n");
    proof {
        reveal_strlit("\n");
        assert(result@ =~= grid_block(*tree, all, width));
        assert(result@ =~= grid_block(*tree, all, width) + rec_grid_children(cs, all, width, 0));
    }
    let mut i: usize = 0;
    while i < tree.children.len()
        invariant
            i <= cs.len(),
            cs == tree.children@,
            rec_fits(*tree, all),
            result@ == grid_block(*tree, all, width) + rec_grid_children(cs, all, width, i as int),
        decreases cs.len() - i,
    {
        let show = all || !starts_with_dot(tree.children[i].file.as_str());
        if tree.children[i].is_dir && show {
            proof {
                lemma_rec_fits_child(cs, all, cs.len() as int, i as int);
            }
            let sub = printer_rec_grid(&tree.children[i], all, width);
            result.append(sub.as_str());
        }
        proof {
            assert(result@ =~= grid_block(*tree, all, width) + rec_grid_children(
                cs,
                all,
                width,
                i + 1,
            ));
        }
        i = i + 1;
    }
    result
}

/// The recursive detail-mode output, as a relation: the owner and group
/// names of each visited directory's children came from the identity
/// database, so the shape alone is pinned, with some resolved names.
pub open spec fn rec_list_rel(n: Node, all: bool, out: Seq<char>) -> bool
    decreases n, 0int,
{
    exists|u: Seq<Seq<char>>, g: Seq<Seq<char>>, rest: Seq<char>|
        {
            &&& u.len() == n.children@.len()
            &&& g.len() == n.children@.len()
            &&& out == header_spec(n) + list_spec(n.children@, all, u, g) + seq!['\n'] + rest
            &&& rec_list_children_rel(n.children@, all, n.children@.len() as int, rest)
        }
}

pub open spec fn rec_list_children_rel(cs: Seq<Node>, all: bool, i: int, out: Seq<char>) -> bool
    decreases cs, i,
    when i <= cs.len()
{
    if i <= 0 {
        out == Seq::<char>::empty()
    } else if cs[i - 1].is_dir && shown(cs[i - 1].file@, all) {
        exists|pre: Seq<char>, blk: Seq<char>|
            {
                &&& out == pre + blk
                &&& rec_list_children_rel(cs, all, i - 1, pre)
                &&& rec_list_rel(cs[i - 1], all, blk)
            }
    } else {
        rec_list_children_rel(cs, all, i - 1, out)
    }
}

/// Renders the recursive detail-mode output; fails whole at the first
/// directory whose listing hits an unresolvable id.
pub fn printer_rec_list(tree: &Node, all: bool) -> (r: Result<String, RenderError>)
    ensures
        r matches Ok(s) ==> rec_list_rel(*tree, all, s@),
        r matches Err(e) ==> e == RenderError::IdentityResolutionFailed,
        (forall|i: int|
            0 <= i < tree.children@.len() ==> !shown(tree.children@[i].file@, all)) ==> r is Ok,
    decreases *tree,
{
    let ghost cs = tree.children@;
    let mut result = String::from_str(tree.path.as_str());
    result.append(":");
    result.append("\n");
    proof {
        reveal_strlit("\n");
        assert(result@ =~= header_spec(*tree));
    }
    let body = match list_fmt(tree, all) {
        Result::Ok(s) => s,
        Result::Err(e) => {
            return Result::Err(e);
        },
    };
    result.append(body.as_str());
    result.append("\n");
    let ghost head = result@;
    let ghost bodyv = body@;
    let mut i: usize = 0;
    let ghost mut rest: Seq<char> = Seq::empty();
    proof {
        assert(result@ =~= head + rest);
    }
    while i < tree.children.len()
        invariant
            i <= cs.len(),
            cs == tree.children@,
            head == header_spec(*tree) + bodyv + seq!['\n'],
            exists|u: Seq<Seq<char>>, g: Seq<Seq<char>>|
                u.len() == cs.len() && g.len() == cs.len() && bodyv == list_spec(cs, all, u, g),
            result@ == head + rest,
            rec_list_children_rel(cs, all, i as int, rest),
        decreases cs.len() - i,
    {
        let show = all || !starts_with_dot(tree.children[i].file.as_str());
        if tree.children[i].is_dir && show {
            let sub = match printer_rec_list(&tree.children[i], all) {
                Result::Ok(s) => s,
                Result::Err(e) => {
                    return Result::Err(e);
                },
            };
            result.append(sub.as_str());
            proof {
                let prev = rest;
                rest = rest + sub@;
                assert(result@ =~= head + rest);
                assert(rec_list_children_rel(cs, all, i + 1, rest)) by {
                    assert(rest == prev + sub@ && rec_list_children_rel(cs, all, i as int, prev)
                        && rec_list_rel(cs[i as int], all, sub@));
                }
            }
        } else {
            proof {
                assert(rec_list_children_rel(cs, all, i + 1, rest));
            }
        }
        i = i + 1;
    }
    proof {
        let ug = choose|u: Seq<Seq<char>>, g: Seq<Seq<char>>|
            u.len() == cs.len() && g.len() == cs.len() && bodyv == list_spec(cs, all, u, g);
        assert(rec_list_rel(*tree, all, result@)) by {
            assert(result@ == header_spec(*tree) + list_spec(cs, all, ug.0, ug.1) + seq!['\n']
                + rest && rec_list_children_rel(cs, all, cs.len() as int, rest));
        }
    }
    Result::Ok(result)
}

/// Rendering the same immutable tree twice, with the same flags, the
/// same terminal width and the same resolved owner and group names,
/// yields byte-identical output: each rendered form is a function of
/// those inputs alone.
pub proof fn lemma_render_idempotent(
    n: Node,
    all: bool,
    rec: bool,
    w: Option<u16>,
    users: Seq<Seq<char>>,
    groups: Seq<Seq<char>>,
    r1: Seq<char>,
    r2: Seq<char>,
    d1: Seq<char>,
    d2: Seq<char>,
)
    requires
        r1 == (if rec {
            rec_grid(n, all, w)
        } else {
            layout_spec(visible(child_names(n), all), w)
        }),
        r2 == (if rec {
            rec_grid(n, all, w)
        } else {
            layout_spec(visible(child_names(n), all), w)
        }),
        d1 == list_spec(n.children@, all, users, groups),
        d2 == list_spec(n.children@, all, users, groups),
    ensures
        r1 == r2,
        d1 == d2,
{
}

/// Renders the whole listing for the chosen flags: the grid or detail
/// form of the root alone, or, with `rec`, one header-and-listing block
/// per visited directory. Grid layout consults the terminal width once;
/// the trailing newline of each printed block is part of the output.
pub fn printer(tree: &Node, list: bool, all: bool, rec: bool) -> (r: Result<String, RenderError>)
    requires
        !list && rec ==> rec_fits(*tree, all),
        !list && !rec ==> fits(*tree, all),
    ensures
        !list ==> r is Ok,
        list ==> ((forall|i: int|
            0 <= i < tree.children@.len() ==> !shown(tree.children@[i].file@, all)) ==> r is Ok),
        r matches Err(e) ==> e == RenderError::IdentityResolutionFailed,
        !list && rec ==> (r matches Ok(s) ==> exists|w: Option<u16>| s@ == rec_grid(
            *tree,
            all,
            w,
        )),
        !list && !rec ==> (r matches Ok(s) ==> exists|w: Option<u16>| s@ == layout_spec(
            visible(child_names(*tree), all),
            w,
        ) + seq!['\n']),
        list && rec ==> (r matches Ok(s) ==> rec_list_rel(*tree, all, s@)),
        list && !rec ==> (r matches Ok(s) ==> exists|u: Seq<Seq<char>>, g: Seq<Seq<char>>|
            u.len() == tree.children@.len() && g.len() == tree.children@.len() && s@ == list_spec(
                tree.children@,
                all,
                u,
                g,
            ) + seq!['\n']),
{
    if rec {
        if list {
            printer_rec_list(tree, all)
        } else {
            let width = terminal_cols();
            let s = printer_rec_grid(tree, all, width);
            proof {
                assert(s@ == rec_grid(*tree, all, width));
            }
            Result::Ok(s)
        }
    } else if list {
        let body = match list_fmt(tree, all) {
            Result::Ok(s) => s,
            Result::Err(e) => {
                return Result::Err(e);
            },
        };
        let ghost bodyv = body@;
        let mut s = body;
        s.append("\n");
        proof {
            reveal_strlit("\n");
            let ug = choose|u: Seq<Seq<char>>, g: Seq<Seq<char>>|
                u.len() == tree.children@.len() && g.len() == tree.children@.len() && bodyv
                    == list_spec(tree.children@, all, u, g);
            assert(s@ =~= list_spec(tree.children@, all, ug.0, ug.1) + seq!['\n']);
        }
        Result::Ok(s)
    } else {
        let width = terminal_cols();
        let mut s = regular_fmt(tree, all, width);
        s.append("\n");
        proof {
            reveal_strlit("\n");
            assert(s@ =~= layout_spec(visible(child_names(*tree), all), width) + seq!['\n']);
        }
        Result::Ok(s)
    }
}

} // verus!
