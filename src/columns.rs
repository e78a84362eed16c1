//! Short-form output: names packed column-major into a grid no wider than
//! the terminal, measured by their visible characters.
use vstd::prelude::*;
use crate::text::{push_char, push_seq, push_spaces, spaces, string_views};

verus! {

/// The number of visible characters of `s` read from escape state `e`: an
/// escape character starts a run that ends after the next `m`, and the
/// characters of such a run are not counted.
pub open spec fn vis_from(s: Seq<char>, e: bool) -> nat
    decreases s.len(),
{
    if s.len() == 0 {
        0
    } else if s[0] == '\u{1b}' {
        vis_from(s.drop_first(), true)
    } else if e {
        vis_from(s.drop_first(), s[0] != 'm')
    } else {
        1 + vis_from(s.drop_first(), false)
    }
}

/// Whether an escape run is still open after reading `s` from state `e`.
pub open spec fn esc_after(s: Seq<char>, e: bool) -> bool
    decreases s.len(),
{
    if s.len() == 0 {
        e
    } else if s[0] == '\u{1b}' {
        esc_after(s.drop_first(), true)
    } else if e {
        esc_after(s.drop_first(), s[0] != 'm')
    } else {
        esc_after(s.drop_first(), false)
    }
}

/// The visible width of a display string.
pub open spec fn visible(s: Seq<char>) -> nat {
    vis_from(s, false)
}

/// The widest visible width among the first `k` names.
pub open spec fn max_visible(names: Seq<Seq<char>>, k: nat) -> nat
    decreases k,
{
    if k == 0 {
        0
    } else {
        let m = max_visible(names, (k - 1) as nat);
        let w = visible(names[k - 1]);
        if w > m {
            w
        } else {
            m
        }
    }
}

/// The gap that separates two columns.
pub const MIN_GAP: usize = 2;

/// The width used where the terminal's cannot be learned.
pub const FALLBACK_WIDTH: u16 = 80;

/// The shape of the grid for `n` names of widest width `maxw` on a terminal
/// of width `tw`: the column width, the number of columns and of rows.
pub open spec fn col_width(maxw: nat) -> nat {
    maxw + 2
}

pub open spec fn num_cols(maxw: nat, tw: nat) -> nat {
    let c = tw / col_width(maxw);
    if c < 1 {
        1
    } else {
        c
    }
}

pub open spec fn num_rows(n: nat, cols: nat) -> nat {
    if cols == 0 {
        0
    } else if n % cols == 0 {
        n / cols
    } else {
        n / cols + 1
    }
}

/// The cell at column `c` of row `r`: the name, padded to the column width
/// when another name follows it on the row.
pub open spec fn cell(names: Seq<Seq<char>>, rows: nat, cw: nat, r: nat, c: nat) -> Seq<char> {
    let idx = c * rows + r;
    let next = (c + 1) * rows + r;
    if next < names.len() {
        names[idx as int] + spaces((cw - visible(names[idx as int])) as nat)
    } else {
        names[idx as int]
    }
}

/// The first `c` columns of row `r`.
pub open spec fn row_upto(names: Seq<Seq<char>>, rows: nat, cw: nat, r: nat, c: nat) -> Seq<char>
    decreases c,
{
    if c == 0 {
        seq![]
    } else {
        let k = (c - 1) as nat;
        if k * rows + r < names.len() {
            row_upto(names, rows, cw, r, k) + cell(names, rows, cw, r, k)
        } else {
            row_upto(names, rows, cw, r, k)
        }
    }
}

/// The first `k` rows of the grid, each ended by a newline.
pub open spec fn grid_upto(names: Seq<Seq<char>>, rows: nat, cols: nat, cw: nat, k: nat) -> Seq<char>
    decreases k,
{
    if k == 0 {
        seq![]
    } else {
        grid_upto(names, rows, cols, cw, (k - 1) as nat) + row_upto(
            names,
            rows,
            cw,
            (k - 1) as nat,
            cols,
        ) + seq!['\n']
    }
}

/// The first `k` names, one per line.
pub open spec fn lines_upto(names: Seq<Seq<char>>, k: nat) -> Seq<char>
    decreases k,
{
    if k == 0 {
        seq![]
    } else {
        lines_upto(names, (k - 1) as nat) + names[k - 1] + seq!['\n']
    }
}

/// The short-form text of `names` on a terminal of width `tw`.
pub open spec fn columns_text(names: Seq<Seq<char>>, tw: nat) -> Seq<char> {
    let n = names.len();
    let maxw = max_visible(names, n);
    if n == 0 {
        seq![]
    } else if maxw >= tw {
        lines_upto(names, n)
    } else {
        let cols = num_cols(maxw, tw);
        let rows = num_rows(n, cols);
        grid_upto(names, rows, cols, col_width(maxw), rows)
    }
}

/// The visible width of `s`.
pub fn visible_width(s: &str) -> (r: usize)
    ensures
        r == visible(s@),
{
    let n = s.unicode_len();
    let mut width: usize = 0;
    let mut in_escape = false;
    let mut i: usize = 0;
    assert(s@.skip(0) =~= s@);
    while i < n
        invariant
            n == s@.len(),
            i <= n,
            width <= i,
            width + vis_from(s@.skip(i as int), in_escape) == visible(s@),
        decreases n - i,
    {
        let c = s.get_char(i);
        assert(s@.skip(i as int).drop_first() =~= s@.skip(i + 1));
        if c == '\u{1b}' {
            in_escape = true;
        } else if in_escape {
            in_escape = c != 'm';
        } else {
            width = width + 1;
        }
        i = i + 1;
    }
    width
}

/// Relies on terminal_size::terminal_size: the width of the terminal on
/// standard output, error or input, if one of them is a terminal; a
/// terminal that reports no columns gives `None`.
#[verifier::external_body]
fn terminal_width() -> (r: Option<u16>)
    ensures
        r matches Some(w) ==> w > 0,
{
    terminal_size::terminal_size().map(|(terminal_size::Width(w), _)| w)
}

/// Lays `names` out for a terminal of width `term_width`: one name per line
/// where the widest does not fit, else a column-major grid.
pub fn layout_columns(names: &Vec<String>, term_width: u16) -> (r: String)
    ensures
        r@ == columns_text(string_views(names@), term_width as nat),
{
    let ghost ns = string_views(names@);
    let n = names.len();
    let mut widths: Vec<usize> = Vec::new();
    let mut maxw: usize = 0;
    let mut i: usize = 0;
    while i < n
        invariant
            n == names@.len(),
            ns == string_views(names@),
            i <= n,
            widths@.len() == i,
            forall|j: int| 0 <= j < i ==> widths@[j] == visible(ns[j]),
            maxw == max_visible(ns, i as nat),
        decreases n - i,
    {
        let w = visible_width(names[i].as_str());
        assert(ns[i as int] == names@[i as int]@);
        widths.push(w);
        if w > maxw {
            maxw = w;
        }
        i = i + 1;
    }
    let mut out = String::new();
    if n == 0 {
        return out;
    }
    if maxw >= term_width as usize {
        let mut k: usize = 0;
        while k < n
            invariant
                n == names@.len(),
                ns == string_views(names@),
                k <= n,
                out@ == lines_upto(ns, k as nat),
            decreases n - k,
        {
            push_seq(&mut out, names[k].as_str());
            push_char(&mut out, '\n');
            k = k + 1;
        }
        return out;
    }
    proof {
        lemma_max_bounds(ns, n as nat);
    }
    let cw = maxw + MIN_GAP;
    let tw = term_width as usize;
    let cols = if tw / cw < 1 { 1 } else { tw / cw };
    proof {
        lemma_rows_at_most(n as nat, cols as nat);
    }
    let rows = if n % cols == 0 { n / cols } else { n / cols + 1 };
    assert(cols == num_cols(maxw as nat, term_width as nat));
    assert(rows == num_rows(n as nat, cols as nat));
    let mut row: usize = 0;
    while row < rows
        invariant
            n == names@.len(),
            ns == string_views(names@),
            widths@.len() == n,
            forall|j: int| 0 <= j < n ==> widths@[j] == visible(ns[j]),
            forall|j: int| 0 <= j < n ==> visible(#[trigger] ns[j]) <= maxw,
            cw == maxw + 2,
            1 <= cols,
            rows == num_rows(n as nat, cols as nat),
            rows <= n,
            row <= rows,
            out@ == grid_upto(ns, rows as nat, cols as nat, cw as nat, row as nat),
        decreases rows - row,
    {
        let ghost before = out@;
        let mut col: usize = 0;
        let mut idx: usize = row;
        while col < cols
            invariant
                n == names@.len(),
                ns == string_views(names@),
                widths@.len() == n,
                forall|j: int| 0 <= j < n ==> widths@[j] == visible(ns[j]),
                forall|j: int| 0 <= j < n ==> visible(#[trigger] ns[j]) <= maxw,
                cw == maxw + 2,
                1 <= cols,
                rows == num_rows(n as nat, cols as nat),
                rows <= n,
                row < rows,
                col <= cols,
                col * rows + row < n ==> idx == col * rows + row,
                col * rows + row >= n ==> idx == n,
                out@ == before + row_upto(ns, rows as nat, cw as nat, row as nat, col as nat),
            decreases cols - col,
        {
            proof {
                lemma_index_bound(rows as nat, cols as nat, n as nat, row as nat, col as nat);
                lemma_index_bound(rows as nat, cols as nat, n as nat, row as nat, (col + 1) as nat);
                assert((col + 1) * rows + row == col * rows + row + rows) by (nonlinear_arith);
            }
            if idx < n {
                let ghost mid = out@;
                push_seq(&mut out, names[idx].as_str());
                if col + 1 < cols && idx < n - rows {
                    push_spaces(&mut out, cw - widths[idx]);
                }
                assert(out@ =~= mid + cell(ns, rows as nat, cw as nat, row as nat, col as nat));
                if idx < n - rows {
                    idx = idx + rows;
                } else {
                    idx = n;
                }
            }
            col = col + 1;
        }
        push_char(&mut out, '\n');
        row = row + 1;
    }
    out
}

/// Every name's width is at most the widest, which is one of them.
proof fn lemma_max_bounds(names: Seq<Seq<char>>, k: nat)
    requires
        k <= names.len(),
    ensures
        forall|j: int| 0 <= j < k ==> visible(#[trigger] names[j]) <= max_visible(names, k),
    decreases k,
{
    if k > 0 {
        lemma_max_bounds(names, (k - 1) as nat);
    }
}

/// A cell index in the grid stays below `cols * rows`, and a column at or
/// past `cols` holds no name.
proof fn lemma_index_bound(rows: nat, cols: nat, n: nat, r: nat, c: nat)
    requires
        cols >= 1,
        rows == num_rows(n, cols),
        r < rows,
    ensures
        c * rows + r < n ==> c < cols,
        n <= cols * rows,
{
    let q = n / cols;
    let m = n % cols;
    assert(n == cols * q + m && m < cols) by (nonlinear_arith)
        requires
            cols >= 1,
            q == n / cols,
            m == n % cols,
    {
    }
    assert(n <= cols * rows) by (nonlinear_arith)
        requires
            n == cols * q + m,
            m < cols,
            rows == if m == 0 { q } else { q + 1 },
    {
    }
    if c >= cols {
        assert(c * rows >= cols * rows) by (nonlinear_arith)
            requires
                c >= cols,
        {
        }
    }
}

/// With at least one name, a grid has no more rows than names.
proof fn lemma_rows_at_most(n: nat, cols: nat)
    requires
        n >= 1,
        cols >= 1,
    ensures
        num_rows(n, cols) <= n,
{
    let q = n / cols;
    let m = n % cols;
    assert(n == cols * q + m && m < cols) by (nonlinear_arith)
        requires
            cols >= 1,
            q == n / cols,
            m == n % cols,
    {
    }
    assert(q + 1 <= n || (m == 0 && q <= n)) by (nonlinear_arith)
        requires
            n == cols * q + m,
            m < cols,
            cols >= 1,
            n >= 1,
    {
    }
}

/// Visible width and escape state of a concatenation, read piece by piece.
pub proof fn lemma_vis_concat(a: Seq<char>, b: Seq<char>, e: bool)
    ensures
        vis_from(a + b, e) == vis_from(a, e) + vis_from(b, esc_after(a, e)),
        esc_after(a + b, e) == esc_after(b, esc_after(a, e)),
    decreases a.len(),
{
    if a.len() == 0 {
        assert(a + b =~= b);
    } else {
        assert((a + b).drop_first() =~= a.drop_first() + b);
        assert((a + b)[0] == a[0]);
        let e2 = if a[0] == '\u{1b}' {
            true
        } else if e {
            a[0] != 'm'
        } else {
            false
        };
        lemma_vis_concat(a.drop_first(), b, e2);
    }
}

/// Spaces are all visible and open no escape run.
pub proof fn lemma_vis_spaces(n: nat)
    ensures
        vis_from(spaces(n), false) == n,
        !esc_after(spaces(n), false),
    decreases n,
{
    if n > 0 {
        assert(spaces(n).drop_first() =~= spaces((n - 1) as nat));
        lemma_vis_spaces((n - 1) as nat);
    }
}

/// Reading from inside an escape run shows no more characters than
/// reading from outside one.
pub proof fn lemma_vis_open_run(s: Seq<char>, e: bool)
    ensures
        vis_from(s, e) <= vis_from(s, false),
    decreases s.len(),
{
    if s.len() > 0 {
        lemma_vis_open_run(s.drop_first(), true);
        lemma_vis_open_run(s.drop_first(), s[0] != 'm');
    }
}

/// A concatenation is at most as wide as its two pieces together.
pub proof fn lemma_vis_concat_le(a: Seq<char>, b: Seq<char>)
    ensures
        visible(a + b) <= visible(a) + visible(b),
{
    lemma_vis_concat(a, b, false);
    lemma_vis_open_run(b, esc_after(a, false));
}

/// The visible width of the first `c` columns of row `r`: at most a full
/// column width per name that another follows, and at most the widest name
/// for the last one.
proof fn lemma_row_width(names: Seq<Seq<char>>, rows: nat, cols: nat, cw: nat, maxw: nat, r: nat, c: nat)
    requires
        cols >= 1,
        rows == num_rows(names.len(), cols),
        r < rows,
        rows <= names.len(),
        cw == maxw + 2,
        forall|j: int| 0 <= j < names.len() ==> visible(#[trigger] names[j]) <= maxw,
    ensures
        c * rows + r < names.len() ==> visible(row_upto(names, rows, cw, r, c)) <= c * cw,
        c * rows + r >= names.len() ==> c >= 1 && visible(row_upto(names, rows, cw, r, c)) <= (
        c - 1) * cw + maxw,
    decreases c,
{
    let n = names.len();
    if c == 0 {
        assert(0 * rows == 0);
        assert(0 * cw == 0);
    } else {
        let k = (c - 1) as nat;
        lemma_row_width(names, rows, cols, cw, maxw, r, k);
        assert(c * rows == k * rows + rows) by (nonlinear_arith)
            requires
                c == k + 1,
        {
        }
        assert(c * cw == k * cw + cw) by (nonlinear_arith)
            requires
                c == k + 1,
        {
        }
        let prev = row_upto(names, rows, cw, r, k);
        if k * rows + r < n {
            let idx = (k * rows + r) as int;
            let name = names[idx];
            let cl = cell(names, rows, cw, r, k);
            assert(row_upto(names, rows, cw, r, c) == prev + cl);
            lemma_vis_concat_le(prev, cl);
            assert(visible(name) <= maxw);
            if c * rows + r < n {
                let pad = spaces((cw - visible(name)) as nat);
                lemma_vis_concat_le(name, pad);
                lemma_vis_spaces((cw - visible(name)) as nat);
                assert(cl == name + pad);
                assert(visible(cl) <= cw);
            } else {
                assert(cl == name);
            }
        } else {
            assert(k >= 1);
            assert((k - 1) * cw <= k * cw) by (nonlinear_arith)
                requires
                    k >= 1,
            {
            }
        }
    }
}

/// Every name stands in exactly one cell of the grid: name `idx` is in row
/// `idx % rows` and column `idx / rows`, inside the grid, no other position
/// of the grid holds it, and its cell begins with it.
pub proof fn lemma_each_name_one_cell(names: Seq<Seq<char>>, tw: nat, idx: nat)
    requires
        names.len() > 0,
        max_visible(names, names.len()) < tw,
        idx < names.len(),
    ensures
        ({
            let maxw = max_visible(names, names.len());
            let cols = num_cols(maxw, tw);
            let rows = num_rows(names.len(), cols);
            let r = idx % rows;
            let c = idx / rows;
            &&& r < rows
            &&& c < cols
            &&& c * rows + r == idx
            &&& cell(names, rows, col_width(maxw), r, c).subrange(0, names[idx as int].len() as int)
                == names[idx as int]
            &&& forall|r2: nat, c2: nat| r2 < rows && #[trigger] (c2 * rows + r2) == idx ==> r2 == r && c2 == c
        }),
{
    let n = names.len();
    let maxw = max_visible(names, n);
    let cols = num_cols(maxw, tw);
    let rows = num_rows(n, cols);
    lemma_rows_at_most(n, cols);
    assert(rows >= 1) by (nonlinear_arith)
        requires
            n >= 1,
            cols >= 1,
            rows == num_rows(n, cols),
            rows == if n % cols == 0 { n / cols } else { n / cols + 1 },
    {
    }
    let r = idx % rows;
    let c = idx / rows;
    assert(c * rows + r == idx && r < rows) by (nonlinear_arith)
        requires
            rows >= 1,
            r == idx % rows,
            c == idx / rows,
    {
    }
    lemma_index_bound(rows, cols, n, r, c);
    let cw = col_width(maxw);
    let cl = cell(names, rows, cw, r, c);
    assert(cl.subrange(0, names[idx as int].len() as int) =~= names[idx as int]);
    assert forall|r2: nat, c2: nat| r2 < rows && #[trigger] (c2 * rows + r2) == idx implies r2 == r && c2 == c by {
        if c2 < c {
            assert(c2 * rows + rows <= c * rows) by (nonlinear_arith)
                requires
                    c2 < c,
            {
            }
        } else if c2 > c {
            assert(c * rows + rows <= c2 * rows) by (nonlinear_arith)
                requires
                    c < c2,
            {
            }
        }
    }
}

/// Column layout fits the terminal: where every name is narrower than the
/// terminal, the grid has at least one column, and each of its rows is at
/// most the terminal width wide.
pub proof fn lemma_rows_fit_terminal(names: Seq<Seq<char>>, tw: nat, r: nat)
    requires
        names.len() > 0,
        max_visible(names, names.len()) < tw,
        r < num_rows(names.len(), num_cols(max_visible(names, names.len()), tw)),
    ensures
        num_cols(max_visible(names, names.len()), tw) >= 1,
        visible(
            row_upto(
                names,
                num_rows(names.len(), num_cols(max_visible(names, names.len()), tw)),
                col_width(max_visible(names, names.len())),
                r,
                num_cols(max_visible(names, names.len()), tw),
            ),
        ) <= tw,
{
    let n = names.len();
    let maxw = max_visible(names, n);
    let cw = col_width(maxw);
    let cols = num_cols(maxw, tw);
    let rows = num_rows(n, cols);
    lemma_max_bounds(names, n);
    lemma_rows_at_most(n, cols);
    lemma_index_bound(rows, cols, n, r, cols);
    lemma_row_width(names, rows, cols, cw, maxw, r, cols);
    let k = (cols - 1) as nat;
    assert(k * cw + maxw < cols * cw) by (nonlinear_arith)
        requires
            cols == k + 1,
            cw == maxw + 2,
    {
    }
    if tw / cw >= 1 {
        assert((tw / cw) * cw <= tw) by (nonlinear_arith)
            requires
                cw >= 1,
        {
        }
    } else {
        assert(k == 0);
        assert(k * cw == 0);
    }
}

/// Where some name is at least as wide as the terminal, each name stands on
/// a line of its own.
pub proof fn lemma_wide_names_one_per_line(names: Seq<Seq<char>>, tw: nat)
    requires
        names.len() > 0,
        max_visible(names, names.len()) >= tw,
    ensures
        columns_text(names, tw) == lines_upto(names, names.len()),
{
}

/// The width of the terminal in use, or `FALLBACK_WIDTH` where it cannot
/// be learned.
pub fn terminal_columns() -> (r: u16)
    ensures
        r > 0,
{
    match terminal_width() {
        Some(w) => w,
        None => FALLBACK_WIDTH,
    }
}

/// The short-form text of `names` for the terminal in use, or for a width
/// of `FALLBACK_WIDTH` where it cannot be learned.
pub fn format_columns(names: &Vec<String>) -> (r: String)
    ensures
        exists|tw: nat| tw > 0 && r@ == columns_text(string_views(names@), tw),
{
    let tw = terminal_columns();
    layout_columns(names, tw)
}

} // verus!
