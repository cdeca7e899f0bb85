//! The column layout of the short listing: how many columns fit the terminal,
//! and how wide each column is.

use vstd::prelude::*;
use crate::entry::FileEntry;
use crate::text::byte_len;

verus! {

/// Blank characters between two columns.
pub const COLUMN_PADDING: usize = 2;

/// The byte lengths of the entries' names.
pub open spec fn name_lens(entries: Seq<FileEntry>) -> Seq<usize> {
    entries.map_values(|e: FileEntry| byte_len(e.name@))
}

/// `n` divided by `cols`, rounded up: the number of rows that `cols` columns need.
pub open spec fn rows_for(n: nat, cols: nat) -> nat
    recommends
        cols > 0,
{
    if n % cols == 0 {
        n / cols
    } else {
        n / cols + 1
    }
}

/// The largest of `lens[lo..hi]`, or 0 when the range is empty.
pub open spec fn seg_max(lens: Seq<usize>, lo: int, hi: int) -> usize
    decreases hi - lo,
{
    if hi <= lo {
        0
    } else {
        let m = seg_max(lens, lo, hi - 1);
        if lens[hi - 1] > m {
            lens[hi - 1]
        } else {
            m
        }
    }
}

/// The width of column `c` when the names are laid out column by column in
/// `rows` rows: the longest name placed in it.
pub open spec fn column_width(lens: Seq<usize>, rows: nat, c: int) -> usize {
    let hi = (c + 1) * rows;
    seg_max(lens, c * rows, if hi < lens.len() { hi } else { lens.len() as int })
}

/// The column widths of a layout with `cols` columns.
pub open spec fn layout_widths(lens: Seq<usize>, cols: nat) -> Seq<usize> {
    let rows = rows_for(lens.len(), cols);
    Seq::new(cols, |c: int| column_width(lens, rows, c))
}

/// The sum of the widths.
pub open spec fn sum_widths(ws: Seq<usize>) -> int
    decreases ws.len(),
{
    if ws.len() == 0 {
        0
    } else {
        sum_widths(ws.drop_last()) + ws.last()
    }
}

/// The total width of a line: the columns plus the padding between them.
pub open spec fn line_width(ws: Seq<usize>) -> int {
    if ws.len() == 0 {
        0
    } else {
        sum_widths(ws) + COLUMN_PADDING * (ws.len() - 1)
    }
}

/// Whether a layout with `cols` columns fits in `term_width`.
pub open spec fn fits(lens: Seq<usize>, cols: nat, term_width: nat) -> bool {
    line_width(layout_widths(lens, cols)) <= term_width
}

/// The greatest number of columns, at most `c`, whose layout fits; 0 when none does.
pub open spec fn best_cols(lens: Seq<usize>, term_width: nat, c: nat) -> nat
    decreases c,
{
    if c == 0 {
        0
    } else if fits(lens, c, term_width) {
        c
    } else {
        best_cols(lens, term_width, (c - 1) as nat)
    }
}

/// The layout that the short listing uses: columns, rows and column widths.
pub open spec fn short_layout(lens: Seq<usize>, term_width: nat) -> (nat, nat, Seq<usize>) {
    let b = best_cols(lens, term_width, lens.len());
    if b == 0 {
        (1, lens.len(), seq![seg_max(lens, 0, lens.len() as int)])
    } else {
        (b, rows_for(lens.len(), b), layout_widths(lens, b))
    }
}

/// Some number of columns from 1 to `n` fits.
pub open spec fn some_layout_fits(lens: Seq<usize>, term_width: nat) -> bool {
    exists|c: nat| 1 <= c <= lens.len() && #[trigger] fits(lens, c, term_width)
}

/// `rows_for(n, cols)` rows of `cols` columns hold at least `n` names, and the
/// name at index `i` stands in column `i / rows`, which exists.
proof fn lemma_rows_cover(n: nat, cols: nat, i: nat)
    requires
        1 <= cols <= n,
        i < n,
    ensures
        rows_for(n, cols) >= 1,
        cols * rows_for(n, cols) >= n,
        (i / rows_for(n, cols)) * rows_for(n, cols) <= i,
        i < (i / rows_for(n, cols) + 1) * rows_for(n, cols),
        i / rows_for(n, cols) < cols,
{
    let rows = rows_for(n, cols);
    vstd::arithmetic::div_mod::lemma_fundamental_div_mod(n as int, cols as int);
    vstd::arithmetic::div_mod::lemma_mod_bound(n as int, cols as int);
    assert(rows >= 1) by (nonlinear_arith)
        requires
            rows == (if n % cols == 0 { n / cols } else { n / cols + 1 }),
            n == cols * (n / cols) + n % cols,
            n >= cols,
            cols >= 1,
    ;
    let q = n / cols;
    assert(cols * (q + 1) == cols * q + cols) by (nonlinear_arith);
    assert(cols * rows >= n);
    vstd::arithmetic::div_mod::lemma_fundamental_div_mod(i as int, rows as int);
    vstd::arithmetic::div_mod::lemma_mod_bound(i as int, rows as int);
    let q = i / rows;
    assert(q * rows <= i && i < (q + 1) * rows) by (nonlinear_arith)
        requires
            i == rows * q + i % rows,
            0 <= i % rows < rows,
    ;
    assert(q < cols) by (nonlinear_arith)
        requires
            q * rows <= i,
            i < n,
            cols * rows >= n,
            rows >= 1,
    ;
}

/// Every entry has exactly one cell in the short layout: entry `i` stands in
/// row `i % rows` of column `i / rows`, that column exists, no other cell of
/// the grid holds it, and the column is at least as wide as the entry's name.
pub proof fn lemma_each_entry_in_one_cell(lens: Seq<usize>, term_width: nat, i: nat)
    requires
        i < lens.len(),
    ensures
        ({
            let (cols, rows, ws) = short_layout(lens, term_width);
            &&& rows >= 1
            &&& ws.len() == cols
            &&& i / rows < cols
            &&& (i / rows) * rows + i % rows == i
            &&& forall|row: nat, col: nat|
                row < rows && col < cols && #[trigger] (col * rows + row) == i ==> row == i % rows
                    && col == i / rows
            &&& lens[i as int] <= ws[(i / rows) as int]
        }),
{
    let n = lens.len();
    let (cols, rows, ws) = short_layout(lens, term_width);
    let b = best_cols(lens, term_width, n);
    lemma_best_cols_bound(lens, term_width, n);
    if b == 0 {
        assert(rows == n);
        assert(i / rows == 0) by (nonlinear_arith)
            requires
                i < rows,
        ;
        assert(i % rows == i) by (nonlinear_arith)
            requires
                i < rows,
        ;
        lemma_seg_max_is_max(lens, 0, n as int, i as int);
    } else {
        lemma_rows_cover(n, b, i);
        vstd::arithmetic::div_mod::lemma_fundamental_div_mod(i as int, rows as int);
        vstd::arithmetic::div_mod::lemma_mod_bound(i as int, rows as int);
        let q = i / rows;
        assert(q * rows == rows * q) by (nonlinear_arith);
        let hi: int = ((q + 1) * rows) as int;
        lemma_seg_max_is_max(lens, (q * rows) as int, if hi < n { hi } else { n as int }, i as int);
    }
    assert forall|row: nat, col: nat|
        row < rows && col < cols && #[trigger] (col * rows + row) == i implies row == i % rows && col
        == i / rows by {
        vstd::arithmetic::div_mod::lemma_fundamental_div_mod_converse_mod(
            i as int,
            rows as int,
            col as int,
            row as int,
        );
        vstd::arithmetic::div_mod::lemma_fundamental_div_mod_converse_div(
            i as int,
            rows as int,
            col as int,
            row as int,
        );
    }
}

/// Whatever fits a terminal also fits a wider one.
proof fn lemma_best_cols_monotone(lens: Seq<usize>, w1: nat, w2: nat, c: nat)
    requires
        w1 <= w2,
    ensures
        best_cols(lens, w1, c) <= best_cols(lens, w2, c),
    decreases c,
{
    if c > 0 {
        lemma_best_cols_monotone(lens, w1, w2, (c - 1) as nat);
        lemma_best_cols_bound(lens, w1, (c - 1) as nat);
    }
}

/// A wider terminal never gives the short listing fewer columns.
pub proof fn lemma_wider_terminal_no_fewer_columns(lens: Seq<usize>, w1: nat, w2: nat)
    requires
        w1 <= w2,
    ensures
        short_layout(lens, w1).0 <= short_layout(lens, w2).0,
{
    lemma_best_cols_monotone(lens, w1, w2, lens.len());
}

/// The best column count never exceeds the bound it was looked for under.
pub(crate) proof fn lemma_best_cols_bound(lens: Seq<usize>, tw: nat, c: nat)
    ensures
        best_cols(lens, tw, c) <= c,
    decreases c,
{
    if c > 0 {
        lemma_best_cols_bound(lens, tw, (c - 1) as nat);
    }
}

/// The maximum of a segment is at least each of its elements.
pub(crate) proof fn lemma_seg_max_is_max(lens: Seq<usize>, lo: int, hi: int, j: int)
    requires
        lo <= j < hi,
    ensures
        lens[j] <= seg_max(lens, lo, hi),
    decreases hi - lo,
{
    if j < hi - 1 {
        lemma_seg_max_is_max(lens, lo, hi - 1, j);
    }
}

/// The byte lengths of the entries' names.
fn name_lengths(entries: &[FileEntry]) -> (lens: Vec<usize>)
    ensures
        lens@ == name_lens(entries@),
{
    let mut lens: Vec<usize> = Vec::new();
    let mut i: usize = 0;
    while i < entries.len()
        invariant
            i <= entries.len(),
            lens@ == name_lens(entries@).take(i as int),
        decreases entries.len() - i,
    {
        let len: usize = entries[i].name.as_str().len();
        lens.push(len);
        i = i + 1;
        assert(lens@ =~= name_lens(entries@).take(i as int));
    }
    assert(lens@ =~= name_lens(entries@));
    lens
}

/// The column widths for `cols` columns (at least one, at most `lens.len()`).
fn widths_for(lens: &Vec<usize>, cols: usize) -> (r: (usize, Vec<usize>))
    requires
        1 <= cols <= lens.len(),
    ensures
        r.0 == rows_for(lens.len() as nat, cols as nat),
        r.1@ == layout_widths(lens@, cols as nat),
{
    let n = lens.len();
    let rows: usize = if n % cols == 0 {
        n / cols
    } else {
        assert(n / cols < n) by (nonlinear_arith)
            requires
                cols >= 2,
                n >= 1,
        ;
        n / cols + 1
    };
    let ghost gl = lens@;
    let mut widths: Vec<usize> = Vec::new();
    let mut c: usize = 0;
    while c < cols
        invariant
            c <= cols,
            widths@.len() == c,
            forall|k: int| 0 <= k < c ==> widths@[k] == 0,
        decreases cols - c,
    {
        widths.push(0);
        c = c + 1;
    }
    let mut i: usize = 0;
    while i < n
        invariant
            n == lens.len(),
            gl == lens@,
            1 <= cols <= n,
            rows == rows_for(n as nat, cols as nat),
            i <= n,
            widths@.len() == cols,
            forall|k: int|
                0 <= k < cols ==> #[trigger] widths@[k] == seg_max(
                    gl,
                    k * rows,
                    if (k + 1) * rows < i { (k + 1) * rows } else { i as int },
                ),
        decreases n - i,
    {
        proof {
            lemma_rows_cover(n as nat, cols as nat, i as nat);
        }
        let col = i / rows;
        let len = lens[i];
        if len > widths[col] {
            widths.set(col, len);
        }
        proof {
            assert forall|k: int| 0 <= k < cols implies #[trigger] widths@[k] == seg_max(
                gl,
                k * rows,
                if (k + 1) * rows < i + 1 { (k + 1) * rows } else { (i + 1) as int },
            ) by {
                if k < col {
                    assert((k + 1) * rows <= col * rows) by (nonlinear_arith)
                        requires
                            k < col,
                            rows >= 1,
                    ;
                } else if k > col {
                    assert(k * rows >= (col + 1) * rows) by (nonlinear_arith)
                        requires
                            k > col,
                            rows >= 1,
                    ;
                    assert(seg_max(gl, k * rows, (i + 1) as int) == 0);
                    assert(seg_max(gl, k * rows, i as int) == 0);
                } else {
                    assert(seg_max(gl, k * rows, (i + 1) as int) == (if gl[i as int]
                        > seg_max(gl, k * rows, i as int) {
                        gl[i as int]
                    } else {
                        seg_max(gl, k * rows, i as int)
                    }));
                }
            }
        }
        i = i + 1;
    }
    assert(widths@ =~= layout_widths(gl, cols as nat));
    (rows, widths)
}

/// The total width of a line with column widths `ws`, or `None` when it does
/// not fit in a `usize`.
fn line_width_of(ws: &Vec<usize>) -> (r: Option<usize>)
    ensures
        r matches Some(t) ==> t == line_width(ws@),
        r is None ==> line_width(ws@) > usize::MAX,
{
    let len = ws.len();
    if len == 0 {
        return Some(0);
    }
    let mut acc: usize = 0;
    let mut c: usize = 0;
    while c < len
        invariant
            len == ws@.len(),
            c <= len,
            acc == sum_widths(ws@.take(c as int)),
        decreases len - c,
    {
        assert(ws@.take(c + 1).drop_last() =~= ws@.take(c as int));
        proof {
            lemma_sum_widths_nonneg(ws@.take(c as int));
        }
        match acc.checked_add(ws[c]) {
            Some(t) => {
                acc = t;
            },
            None => {
                proof {
                    lemma_sum_widths_prefix_le(ws@, c as int + 1);
                }
                return None;
            },
        }
        c = c + 1;
    }
    assert(ws@.take(len as int) =~= ws@);
    match (len - 1).checked_mul(COLUMN_PADDING) {
        Some(p) => match acc.checked_add(p) {
            Some(t) => Some(t),
            None => None,
        },
        None => {
            proof {
                lemma_sum_widths_nonneg(ws@);
            }
            None
        },
    }
}

/// When nothing above `k` (up to `c`) fits and `k` fits (or is 0), the best
/// column count up to `c` is `k`.
proof fn lemma_best_cols(lens: Seq<usize>, tw: nat, c: nat, k: nat)
    requires
        k <= c,
        k == 0 || fits(lens, k, tw),
        forall|j: nat| k < j <= c ==> !#[trigger] fits(lens, j, tw),
    ensures
        best_cols(lens, tw, c) == k,
    decreases c,
{
    if c > k {
        lemma_best_cols(lens, tw, (c - 1) as nat, k);
    }
}

/// Sums of widths are never negative.
pub(crate) proof fn lemma_sum_widths_nonneg(ws: Seq<usize>)
    ensures
        sum_widths(ws) >= 0,
    decreases ws.len(),
{
    if ws.len() > 0 {
        lemma_sum_widths_nonneg(ws.drop_last());
    }
}

/// The sum of a prefix is at most the sum of the whole.
proof fn lemma_sum_widths_prefix_le(ws: Seq<usize>, k: int)
    requires
        0 <= k <= ws.len(),
    ensures
        sum_widths(ws.take(k)) <= sum_widths(ws),
    decreases ws.len() - k,
{
    if k < ws.len() {
        lemma_sum_widths_prefix_le(ws, k + 1);
        assert(ws.take(k + 1).drop_last() =~= ws.take(k));
    } else {
        assert(ws.take(k) =~= ws);
    }
}

/// Chooses the short listing's layout for terminal width `term_width`: the
/// greatest number of columns (at most one per entry) whose line fits, with its
/// row count and column widths; a single column as wide as the longest name
/// when no number of columns fits.
pub fn compute_layout(entries: &[FileEntry], term_width: usize) -> (r: (usize, usize, Vec<usize>))
    ensures
        some_layout_fits(name_lens(entries@), term_width as nat) ==> {
            &&& 1 <= r.0 <= entries@.len()
            &&& fits(name_lens(entries@), r.0 as nat, term_width as nat)
            &&& forall|c: nat|
                r.0 < c <= entries@.len() ==> !#[trigger] fits(
                    name_lens(entries@),
                    c,
                    term_width as nat,
                )
            &&& r.1 == rows_for(entries@.len(), r.0 as nat)
            &&& r.2@ == layout_widths(name_lens(entries@), r.0 as nat)
        },
        !some_layout_fits(name_lens(entries@), term_width as nat) ==> {
            &&& r.0 == 1
            &&& r.1 == entries@.len()
            &&& r.2@ == seq![seg_max(name_lens(entries@), 0, entries@.len() as int)]
        },
        (r.0 as nat, r.1 as nat, r.2@) == short_layout(name_lens(entries@), term_width as nat),
{
    let lens = name_lengths(entries);
    let ghost gl = lens@;
    let n = lens.len();
    let mut cols = n;
    while cols >= 1
        invariant
            n == lens@.len(),
            gl == lens@,
            gl == name_lens(entries@),
            cols <= n,
            forall|c: nat| cols < c <= n ==> !#[trigger] fits(gl, c, term_width as nat),
        decreases cols,
    {
        let (rows, ws) = widths_for(&lens, cols);
        match line_width_of(&ws) {
            Some(t) => {
                if t <= term_width {
                    proof {
                        lemma_best_cols(gl, term_width as nat, n as nat, cols as nat);
                    }
                    return (cols, rows, ws);
                }
            },
            None => {},
        }
        cols = cols - 1;
    }
    assert(!some_layout_fits(gl, term_width as nat));
    proof {
        lemma_best_cols(gl, term_width as nat, n as nat, 0);
    }
    let mut max_w: usize = 0;
    let mut i: usize = 0;
    while i < n
        invariant
            n == lens@.len(),
            gl == lens@,
            i <= n,
            max_w == seg_max(gl, 0, i as int),
        decreases n - i,
    {
        if lens[i] > max_w {
            max_w = lens[i];
        }
        i = i + 1;
    }
    let mut ws: Vec<usize> = Vec::new();
    ws.push(max_w);
    assert(ws@ =~= seq![seg_max(gl, 0, n as int)]);
    (1, n, ws)
}

} // verus!
