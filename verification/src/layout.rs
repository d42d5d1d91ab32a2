use crate::strutil::{append_spaces, spaces};
use vstd::arithmetic::div_mod::lemma_fundamental_div_mod_converse;
use vstd::prelude::*;
use vstd::string::*;

verus! {

/// The character sequences of a list of display names.
pub open spec fn views_of(names: Seq<String>) -> Seq<Seq<char>> {
    names.map_values(|s: String| s@)
}

/// A name is hidden when it starts with the hidden-prefix character.
pub open spec fn hidden(n: Seq<char>) -> bool {
    n.len() > 0 && n[0] == '.'
}

/// Whether a name is shown under the given hidden-inclusion flag.
pub open spec fn shown(n: Seq<char>, all: bool) -> bool {
    all || !hidden(n)
}

/// The shown names among the first `i`, in input order.
pub open spec fn visible_upto(names: Seq<Seq<char>>, all: bool, i: int) -> Seq<Seq<char>>
    decreases i,
{
    if i <= 0 {
        Seq::empty()
    } else if shown(names[i - 1], all) {
        visible_upto(names, all, i - 1).push(names[i - 1])
    } else {
        visible_upto(names, all, i - 1)
    }
}

pub open spec fn visible(names: Seq<Seq<char>>, all: bool) -> Seq<Seq<char>> {
    visible_upto(names, all, names.len() as int)
}

/// With the hidden-inclusion flag set, filtering keeps every name.
pub proof fn lemma_visible_all(names: Seq<Seq<char>>)
    ensures
        visible(names, true) == names,
{
    lemma_visible_all_upto(names, names.len() as int);
    assert(names.subrange(0, names.len() as int) =~= names);
}

proof fn lemma_visible_all_upto(names: Seq<Seq<char>>, i: int)
    requires
        0 <= i <= names.len(),
    ensures
        visible_upto(names, true, i) == names.subrange(0, i),
    decreases i,
{
    if i > 0 {
        lemma_visible_all_upto(names, i - 1);
        assert(visible_upto(names, true, i) =~= names.subrange(0, i));
    } else {
        assert(visible_upto(names, true, 0) =~= names.subrange(0, 0));
    }
}

/// The cost of the first `i` names on one line, two trailing spaces each.
pub open spec fn flat_upto(names: Seq<Seq<char>>, i: int) -> int
    decreases i,
{
    if i <= 0 {
        0
    } else {
        flat_upto(names, i - 1) + names[i - 1].len() + 2
    }
}

pub open spec fn flat_width(names: Seq<Seq<char>>) -> int {
    flat_upto(names, names.len() as int)
}

/// The longest length among the first `i` names (0 when none).
pub open spec fn max_upto(names: Seq<Seq<char>>, i: int) -> int
    decreases i,
{
    if i <= 0 {
        0
    } else {
        vstd::math::max(max_upto(names, i - 1), names[i - 1].len() as int)
    }
}

pub open spec fn max_name_len(names: Seq<Seq<char>>) -> int {
    max_upto(names, names.len() as int)
}

pub proof fn lemma_flat_bounds(names: Seq<Seq<char>>, i: int)
    ensures
        flat_upto(names, i) >= 0,
        max_upto(names, i) >= 0,
        max_upto(names, i) == 0 || max_upto(names, i) + 2 <= flat_upto(names, i),
        forall|j: int| 0 <= j < i ==> names[j].len() + 2 <= flat_upto(names, i),
    decreases i,
{
    if i > 0 {
        lemma_flat_bounds(names, i - 1);
    }
}

/// The single-row flow of the first `i` names: each name, then two spaces.
pub open spec fn flow_upto(names: Seq<Seq<char>>, i: int) -> Seq<char>
    decreases i,
{
    if i <= 0 {
        Seq::empty()
    } else {
        flow_upto(names, i - 1) + names[i - 1] + spaces(2)
    }
}

pub open spec fn flow_spec(names: Seq<Seq<char>>) -> Seq<char> {
    flow_upto(names, names.len() as int)
}

/// The column count for a terminal of `width` cells and a longest name of
/// `maxlen` cells: `width / maxlen` clamped to at least 1, then reduced by
/// 2 when above 5 to leave breathing room.
pub open spec fn col_count_spec(width: int, maxlen: int) -> int {
    if maxlen <= 0 {
        1
    } else {
        let raw = width / maxlen;
        let clamped = if raw < 1 {
            1
        } else {
            raw
        };
        if clamped > 5 {
            clamped - 2
        } else {
            clamped
        }
    }
}

/// The number of grid rows for `n` names in `ncols` round-robin columns.
pub open spec fn rows_of(n: int, ncols: int) -> int {
    if n <= 0 {
        0
    } else {
        (n - 1) / ncols + 1
    }
}

/// The longest name among the first `i` that fall in column `c` (names at
/// indices congruent to `c` modulo `ncols`).
pub open spec fn col_max_pre(names: Seq<Seq<char>>, ncols: int, c: int, i: int) -> int
    decreases i,
{
    if i <= 0 {
        0
    } else {
        let m = col_max_pre(names, ncols, c, i - 1);
        if (i - 1) % ncols == c && names[i - 1].len() > m {
            names[i - 1].len() as int
        } else {
            m
        }
    }
}

/// Column `c`'s display width: its longest name plus a 2-cell gap.
pub open spec fn col_width(names: Seq<Seq<char>>, ncols: int, c: int) -> int {
    col_max_pre(names, ncols, c, names.len() as int) + 2
}

/// The grid cell at row `r`, column `c`: the name left-justified and
/// padded to the column width.
pub open spec fn cell(names: Seq<Seq<char>>, ncols: int, r: int, c: int) -> Seq<char> {
    names[r * ncols + c] + spaces((col_width(names, ncols, c) - names[r * ncols + c].len()) as nat)
}

/// Row `r` up to column `cend`: present cells concatenated, absent
/// columns contributing nothing.
pub open spec fn row_cells(names: Seq<Seq<char>>, ncols: int, r: int, cend: int) -> Seq<char>
    decreases cend,
{
    if cend <= 0 {
        Seq::empty()
    } else if r * ncols + (cend - 1) < names.len() {
        row_cells(names, ncols, r, cend - 1) + cell(names, ncols, r, cend - 1)
    } else {
        row_cells(names, ncols, r, cend - 1)
    }
}

pub open spec fn row_line(names: Seq<Seq<char>>, ncols: int, r: int) -> Seq<char> {
    row_cells(names, ncols, r, ncols)
}

/// The first `rend` grid rows, joined by single newlines.
pub open spec fn rows_upto(names: Seq<Seq<char>>, ncols: int, rend: int) -> Seq<char>
    decreases rend,
{
    if rend <= 0 {
        Seq::empty()
    } else if rend == 1 {
        row_line(names, ncols, 0)
    } else {
        rows_upto(names, ncols, rend - 1) + seq!['\n'] + row_line(names, ncols, rend - 1)
    }
}

/// The whole multi-column grid for the given column count.
pub open spec fn grid_spec(names: Seq<Seq<char>>, ncols: int) -> Seq<char> {
    rows_upto(names, ncols, rows_of(names.len() as int, ncols))
}

/// The layout decision: single-row flow when the width is unknown or when
/// the flow minus its longest name fits the width; otherwise the grid.
pub open spec fn layout_spec(names: Seq<Seq<char>>, width: Option<u16>) -> Seq<char> {
    match width {
        Option::None => flow_spec(names),
        Option::Some(w) => if flat_width(names) - max_name_len(names) <= w as int {
            flow_spec(names)
        } else {
            grid_spec(names, col_count_spec(w as int, max_name_len(names)))
        },
    }
}

/// The sum of the widths of the first `cend` columns.
pub open spec fn sum_col_widths(names: Seq<Seq<char>>, ncols: int, cend: int) -> int
    decreases cend,
{
    if cend <= 0 {
        0
    } else {
        sum_col_widths(names, ncols, cend - 1) + col_width(names, ncols, cend - 1)
    }
}

/// Every grid row is no longer than the sum of the column widths used:
/// a present cell takes exactly its column's width, an absent one
/// nothing.
pub proof fn lemma_row_length_bound(names: Seq<Seq<char>>, ncols: int, r: int, cend: int)
    requires
        ncols >= 1,
        r >= 0,
        0 <= cend <= ncols,
    ensures
        row_cells(names, ncols, r, cend).len() <= sum_col_widths(names, ncols, cend),
    decreases cend,
{
    if cend > 0 {
        lemma_row_length_bound(names, ncols, r, cend - 1);
        let c = cend - 1;
        let idx = r * ncols + c;
        lemma_col_max_pre_flat(names, ncols, c, names.len() as int);
        if idx < names.len() {
            assert(idx >= 0) by (nonlinear_arith)
                requires
                    r >= 0,
                    ncols >= 1,
                    0 <= c,
                    idx == r * ncols + c,
            ;
            assert(idx % ncols == c) by {
                lemma_fundamental_div_mod_converse(idx, ncols, r, c);
            }
            lemma_col_max_pre_bound(names, ncols, idx, names.len() as int);
            lemma_col_max_pre_flat(names, ncols, c, names.len() as int);
            assert(cell(names, ncols, r, c).len() == col_width(names, ncols, c));
        }
    }
}

/// The names of grid row `r`, in reading order.
pub open spec fn row_names(names: Seq<Seq<char>>, ncols: int, r: int) -> Seq<Seq<char>> {
    if r * ncols >= names.len() {
        Seq::empty()
    } else {
        names.subrange(r * ncols, vstd::math::min((r + 1) * ncols, names.len() as int))
    }
}

pub open spec fn rows_names_upto(names: Seq<Seq<char>>, ncols: int, rend: int) -> Seq<Seq<char>>
    decreases rend,
{
    if rend <= 0 {
        Seq::empty()
    } else {
        rows_names_upto(names, ncols, rend - 1) + row_names(names, ncols, rend - 1)
    }
}

proof fn lemma_rows_names_prefix(names: Seq<Seq<char>>, ncols: int, rend: int)
    requires
        ncols >= 1,
        rend >= 0,
    ensures
        rows_names_upto(names, ncols, rend) == names.subrange(
            0,
            vstd::math::min(rend * ncols, names.len() as int),
        ),
    decreases rend,
{
    let n = names.len() as int;
    if rend == 0 {
        assert(rows_names_upto(names, ncols, 0) =~= names.subrange(0, 0));
    } else {
        lemma_rows_names_prefix(names, ncols, rend - 1);
        let a = (rend - 1) * ncols;
        assert(rend * ncols == a + ncols) by (nonlinear_arith)
            requires
                a == (rend - 1) * ncols,
        ;
        assert(a >= 0) by (nonlinear_arith)
            requires
                rend >= 1,
                ncols >= 1,
                a == (rend - 1) * ncols,
        ;
        assert(rows_names_upto(names, ncols, rend) == rows_names_upto(names, ncols, rend - 1)
            + row_names(names, ncols, rend - 1));
        if a >= n {
            assert(rows_names_upto(names, ncols, rend - 1) == names.subrange(0, n));
            assert(row_names(names, ncols, rend - 1) =~= Seq::<Seq<char>>::empty());
            assert(vstd::math::min(rend * ncols, n) == n);
            assert(rows_names_upto(names, ncols, rend) =~= names.subrange(
                0,
                vstd::math::min(rend * ncols, n),
            ));
        } else {
            let b = vstd::math::min(rend * ncols, n);
            assert(rows_names_upto(names, ncols, rend - 1) == names.subrange(0, a));
            assert(row_names(names, ncols, rend - 1) == names.subrange(a, b));
            assert(a <= b <= n);
            assert(rows_names_upto(names, ncols, rend) =~= names.subrange(0, b));
        }
        assert(rows_names_upto(names, ncols, rend) == names.subrange(
            0,
            vstd::math::min(rend * ncols, n),
        ));
    }
}

/// Round-robin placement is a partition: reading the grid's rows in
/// order returns exactly the input names, each exactly once.
pub proof fn lemma_grid_names_once(names: Seq<Seq<char>>, ncols: int)
    requires
        ncols >= 1,
    ensures
        rows_names_upto(names, ncols, rows_of(names.len() as int, ncols)) == names,
{
    let n = names.len() as int;
    let rows = rows_of(n, ncols);
    lemma_rows_names_prefix(names, ncols, rows);
    if n > 0 {
        let q = (n - 1) / ncols;
        vstd::arithmetic::div_mod::lemma_fundamental_div_mod(n - 1, ncols);
        vstd::arithmetic::div_mod::lemma_mod_bound(n - 1, ncols);
        assert(rows * ncols == q * ncols + ncols) by (nonlinear_arith)
            requires
                rows == q + 1,
        ;
        assert(rows * ncols >= n);
    }
    assert(names.subrange(0, n) =~= names);
}

/// A terminal at least as wide as the whole flow always yields the
/// single-row form.
pub proof fn lemma_wide_terminal_flow(names: Seq<Seq<char>>, w: u16)
    requires
        flat_width(names) <= w as int,
    ensures
        layout_spec(names, Option::Some(w)) == flow_spec(names),
{
    lemma_flat_bounds(names, names.len() as int);
}

/// The single-row flow is chosen exactly when the flow minus its
/// longest name fits the terminal; otherwise the grid is, with the
/// clamped column count.
pub proof fn lemma_layout_decision(names: Seq<Seq<char>>, w: u16)
    ensures
        flat_width(names) - max_name_len(names) <= w as int ==> layout_spec(
            names,
            Option::Some(w),
        ) == flow_spec(names),
        flat_width(names) - max_name_len(names) > w as int ==> layout_spec(
            names,
            Option::Some(w),
        ) == grid_spec(names, col_count_spec(w as int, max_name_len(names))),
{
}

/// The clamped column count; positive on every input.
pub fn column_count(width: usize, max: usize) -> (r: usize)
    ensures
        r as int == col_count_spec(width as int, max as int),
        r >= 1,
{
    if max == 0 {
        1
    } else {
        let raw = width / max;
        let clamped = if raw < 1 {
            1
        } else {
            raw
        };
        if clamped > 5 {
            clamped - 2
        } else {
            clamped
        }
    }
}

/// Every name of a column is bounded by that column's longest name.
proof fn lemma_col_max_pre_bound(names: Seq<Seq<char>>, ncols: int, j: int, i: int)
    requires
        ncols >= 1,
        0 <= j < i <= names.len(),
    ensures
        names[j].len() <= col_max_pre(names, ncols, j % ncols, i),
    decreases i,
{
    if j < i - 1 {
        lemma_col_max_pre_bound(names, ncols, j, i - 1);
    }
}

/// A column's longest name is one of the names (or 0), so its width fits
/// whenever the flat width does.
proof fn lemma_col_max_pre_flat(names: Seq<Seq<char>>, ncols: int, c: int, i: int)
    requires
        i <= names.len(),
    ensures
        col_max_pre(names, ncols, c, i) == 0 || col_max_pre(names, ncols, c, i) + 2 <= flat_upto(
            names,
            i,
        ),
        col_max_pre(names, ncols, c, i) >= 0,
        flat_upto(names, i) >= 0,
    decreases i,
{
    if i > 0 {
        lemma_col_max_pre_flat(names, ncols, c, i - 1);
    }
}

/// The per-column longest-name lengths, in one pass over the names.
fn column_maxima(names: &Vec<String>, ncols: usize) -> (widths: Vec<usize>)
    requires
        ncols >= 1,
    ensures
        widths@.len() == ncols,
        forall|c: int|
            0 <= c < ncols ==> widths@[c] == col_max_pre(
                views_of(names@),
                ncols as int,
                c,
                names@.len() as int,
            ),
{
    let ghost vnames = views_of(names@);
    let mut widths: Vec<usize> = Vec::new();
    let mut c: usize = 0;
    while c < ncols
        invariant
            widths@.len() == c <= ncols,
            forall|k: int| 0 <= k < c ==> widths@[k] == 0,
        decreases ncols - c,
    {
        widths.push(0);
        c = c + 1;
    }
    let mut i: usize = 0;
    let mut col: usize = 0;
    while i < names.len()
        invariant
            ncols >= 1,
            col == i % ncols,
            col < ncols,
            i <= names@.len(),
            vnames == views_of(names@),
            vnames.len() == names@.len(),
            widths@.len() == ncols,
            forall|k: int|
                0 <= k < ncols ==> widths@[k] == col_max_pre(vnames, ncols as int, k, i as int),
        decreases names@.len() - i,
    {
        let len = names[i].as_str().unicode_len();
        proof {
            assert(vnames[i as int] == names@[i as int]@);
        }
        if len > widths[col] {
            widths.set(col, len);
        }
        let ghost iold = i as int;
        let ghost colold = col as int;
        let ghost d = ncols as int;
        let ghost qold = iold / d;
        proof {
            assert(colold == iold % d);
            vstd::arithmetic::div_mod::lemma_fundamental_div_mod(iold, d);
        }
        i = i + 1;
        col = col + 1;
        if col == ncols {
            col = 0;
        }
        proof {
            if col == 0 {
                assert(iold + 1 == (qold + 1) * d) by (nonlinear_arith)
                    requires
                        iold == d * qold + colold,
                        colold == d - 1,
                ;
                lemma_fundamental_div_mod_converse(iold + 1, d, qold + 1, 0);
            } else {
                assert(iold + 1 == qold * d + (colold + 1)) by (nonlinear_arith)
                    requires
                        iold == d * qold + colold,
                ;
                lemma_fundamental_div_mod_converse(iold + 1, d, qold, colold + 1);
            }
        }
    }
    widths
}

/// Lays the names out as a round-robin grid for the given terminal width
/// and longest-name length, per the clamped column-count rule.
pub fn regular_col_fmt(names: &Vec<String>, width: usize, max: usize) -> (r: String)
    requires
        flat_width(views_of(names@)) <= usize::MAX,
    ensures
        r@ == grid_spec(views_of(names@), col_count_spec(width as int, max as int)),
{
    let ncols = column_count(width, max);
    grid_fmt(names, ncols)
}

/// Renders the grid itself for a fixed column count.
fn grid_fmt(names: &Vec<String>, ncols: usize) -> (r: String)
    requires
        ncols >= 1,
        flat_width(views_of(names@)) <= usize::MAX,
    ensures
        r@ == grid_spec(views_of(names@), ncols as int),
{
    let ghost vnames = views_of(names@);
    let ghost n = names@.len() as int;
    let widths = column_maxima(names, ncols);
    let mut result = String::new();
    let mut idx: usize = 0;
    let mut r: usize = 0;
    proof {
        reveal_strlit("\n");
    }
    while idx < names.len()
        invariant
            ncols >= 1,
            vnames == views_of(names@),
            n == names@.len(),
            vnames.len() == n,
            flat_width(vnames) <= usize::MAX,
            widths@.len() == ncols,
            forall|k: int|
                0 <= k < ncols ==> widths@[k] == col_max_pre(vnames, ncols as int, k, n),
            idx <= n,
            r <= idx,
            r * ncols == idx || (idx == n && r * ncols >= n),
            r == 0 || (r - 1) * ncols < n,
            result@ == rows_upto(vnames, ncols as int, r as int),
        decreases n - idx,
    {
        let ghost row = r as int;
        proof {
            assert(row * ncols < n);
        }
        if r > 0 {
            result.append("\n");
            proof {
                reveal_strlit("\n");
                assert(result@ =~= rows_upto(vnames, ncols as int, row) + seq!['\n']);
            }
        }
        let ghost sep: Seq<char> = if row > 0 {
            seq!['\n']
        } else {
            Seq::empty()
        };
        proof {
            assert(result@ =~= rows_upto(vnames, ncols as int, row) + sep);
            assert(row_cells(vnames, ncols as int, row, 0) =~= Seq::<char>::empty());
        }
        let mut c: usize = 0;
        while c < ncols
            invariant
                ncols >= 1,
                vnames == views_of(names@),
                n == names@.len(),
                vnames.len() == n,
                flat_width(vnames) <= usize::MAX,
                widths@.len() == ncols,
                forall|k: int|
                    0 <= k < ncols ==> widths@[k] == col_max_pre(vnames, ncols as int, k, n),
                c <= ncols,
                row >= 0,
                row * ncols < n,
                row * ncols + c == idx || (idx == n && row * ncols + c >= n),
                idx <= n,
                result@ == rows_upto(vnames, ncols as int, row) + sep + row_cells(
                    vnames,
                    ncols as int,
                    row,
                    c as int,
                ),
            decreases ncols - c,
        {
            if idx < names.len() {
                proof {
                    assert(row * ncols + c == idx);
                    assert((idx as int) % (ncols as int) == c as int) by {
                        lemma_fundamental_div_mod_converse(
                            idx as int,
                            ncols as int,
                            row,
                            c as int,
                        );
                    }
                    lemma_col_max_pre_bound(vnames, ncols as int, idx as int, n);
                    lemma_col_max_pre_flat(vnames, ncols as int, c as int, n);
                    assert(vnames[idx as int] == names@[idx as int]@);
                }
                let name_len = names[idx].as_str().unicode_len();
                result.append(names[idx].as_str());
                let pad = widths[c] + 2 - name_len;
                append_spaces(&mut result, pad);
                proof {
                    assert(cell(vnames, ncols as int, row, c as int) == vnames[idx as int]
                        + spaces((col_width(vnames, ncols as int, c as int) - vnames[
                        idx as int
                    ].len()) as nat));
                    assert(result@ == rows_upto(vnames, ncols as int, row) + sep + row_cells(
                        vnames,
                        ncols as int,
                        row,
                        c as int,
                    ) + vnames[idx as int] + spaces(pad as nat));
                    assert(result@ =~= rows_upto(vnames, ncols as int, row) + sep + (row_cells(
                        vnames,
                        ncols as int,
                        row,
                        c as int,
                    ) + cell(vnames, ncols as int, row, c as int)));
                    assert(row_cells(vnames, ncols as int, row, c + 1) == row_cells(
                        vnames,
                        ncols as int,
                        row,
                        c as int,
                    ) + cell(vnames, ncols as int, row, c as int));
                }
                idx = idx + 1;
            } else {
                proof {
                    assert(row * ncols + c >= n);
                    assert(row_cells(vnames, ncols as int, row, c + 1) == row_cells(
                        vnames,
                        ncols as int,
                        row,
                        c as int,
                    ));
                }
            }
            c = c + 1;
        }
        proof {
            let rowp = row + 1;
            if rowp == 1 {
                assert(rows_upto(vnames, ncols as int, 1) == row_line(vnames, ncols as int, 0));
                assert(result@ =~= rows_upto(vnames, ncols as int, rowp));
            } else {
                assert(rows_upto(vnames, ncols as int, rowp) == rows_upto(
                    vnames,
                    ncols as int,
                    rowp - 1,
                ) + seq!['\n'] + row_line(vnames, ncols as int, rowp - 1));
                assert(result@ =~= rows_upto(vnames, ncols as int, rowp));
            }
            assert((row + 1) * ncols == row * ncols + ncols) by (nonlinear_arith);
        }
        r = r + 1;
    }
    proof {
        if n == 0 {
            assert(rows_of(n, ncols as int) == 0);
            assert(result@ =~= grid_spec(vnames, ncols as int));
        } else {
            assert(r >= 1);
            assert(r * ncols == (r - 1) * ncols + ncols) by (nonlinear_arith);
            assert((r - 1) * ncols < n <= r * ncols);
            assert(rows_of(n, ncols as int) == r as int) by {
                lemma_fundamental_div_mod_converse(
                    n - 1,
                    ncols as int,
                    r - 1,
                    n - 1 - (r - 1) * ncols,
                );
            }
        }
    }
    result
}

} // verus!
