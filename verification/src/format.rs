//! The two listing formats: the short one (names in columns) and the long one
//! (one line of metadata per file).

use vstd::prelude::*;
use crate::entry::FileEntry;
use crate::layout::{
    best_cols, compute_layout, fits, layout_widths, rows_for, seg_max, sum_widths, lemma_best_cols_bound, lemma_seg_max_is_max,
    lemma_sum_widths_nonneg, line_width, name_lens, short_layout, COLUMN_PADDING,
};
use crate::color::{
    bold_sgr, colorize, escape_resets, reset_seq, shown, shown_as, shows_entry,
};
use crate::clock::{
    clock_text, date_column, date_text, four_digits, in_time_range, local_now, local_of,
    month_abbrev, space_padded, time_text, two_digits, valid_local, year_text, LocalTime,
};
use crate::text::{
    byte_len, char_count, decimal, decimal_string, digit_char, push_char, push_spaces, push_str, single_line,
    spaces,
};

verus! {

/// The text of one grid cell: the cell at `row` of column `col` holds entry
/// `col * rows + row` (when there is one), followed by padding up to the
/// column's width plus the column gap, unless it is in the last column.
pub open spec fn grid_cell(
    lens: Seq<usize>,
    cells: Seq<Seq<char>>,
    cols: nat,
    rows: nat,
    ws: Seq<usize>,
    row: nat,
    col: nat,
) -> Seq<char> {
    let idx = col * rows + row;
    if idx < lens.len() {
        if col + 1 < cols {
            cells[idx as int] + spaces((ws[col as int] - lens[idx as int] + COLUMN_PADDING) as nat)
        } else {
            cells[idx as int]
        }
    } else {
        Seq::empty()
    }
}

/// The first `k` cells of a row, concatenated.
pub open spec fn grid_row(
    lens: Seq<usize>,
    cells: Seq<Seq<char>>,
    cols: nat,
    rows: nat,
    ws: Seq<usize>,
    row: nat,
    k: nat,
) -> Seq<char>
    decreases k,
{
    if k == 0 {
        Seq::empty()
    } else {
        grid_row(lens, cells, cols, rows, ws, row, (k - 1) as nat) + grid_cell(
            lens,
            cells,
            cols,
            rows,
            ws,
            row,
            (k - 1) as nat,
        )
    }
}

/// The first `k` rows of the grid, each ended by a newline.
pub open spec fn grid_text(
    lens: Seq<usize>,
    cells: Seq<Seq<char>>,
    cols: nat,
    rows: nat,
    ws: Seq<usize>,
    k: nat,
) -> Seq<char>
    decreases k,
{
    if k == 0 {
        Seq::empty()
    } else {
        grid_text(lens, cells, cols, rows, ws, (k - 1) as nat) + grid_row(
            lens,
            cells,
            cols,
            rows,
            ws,
            (k - 1) as nat,
            cols,
        ).push('\n')
    }
}

/// The short listing of names with byte lengths `lens`, shown as `cells`, on a
/// terminal `term_width` wide.
pub open spec fn short_text(lens: Seq<usize>, cells: Seq<Seq<char>>, term_width: nat) -> Seq<char> {
    let (cols, rows, ws) = short_layout(lens, term_width);
    grid_text(lens, cells, cols, rows, ws, rows)
}

/// The views of a list of strings.
pub open spec fn views(strs: Seq<String>) -> Seq<Seq<char>> {
    strs.map_values(|s: String| s@)
}

/// Each width is at most the line width.
proof fn lemma_width_le_line(ws: Seq<usize>, c: int)
    requires
        0 <= c < ws.len(),
    ensures
        ws[c] + COLUMN_PADDING * (ws.len() - 1) <= line_width(ws),
    decreases ws.len(),
{
    if c < ws.len() - 1 {
        lemma_width_le_line(ws.drop_last(), c);
    } else {
        lemma_sum_widths_nonneg(ws.drop_last());
    }
}

/// The name at `idx = col * rows + row` lies in column `col` of the chosen
/// layout, so that column is at least as wide as the name.
proof fn lemma_cell_fits(lens: Seq<usize>, tw: nat, row: nat, col: nat)
    requires
        lens.len() >= 1,
        row < short_layout(lens, tw).1,
        col < short_layout(lens, tw).0,
        col * short_layout(lens, tw).1 + row < lens.len(),
    ensures
        short_layout(lens, tw).2.len() == short_layout(lens, tw).0,
        lens[(col * short_layout(lens, tw).1 + row) as int] <= short_layout(lens, tw).2[col as int],
        col + 1 < short_layout(lens, tw).0 ==> short_layout(lens, tw).2[col as int]
            + COLUMN_PADDING <= tw,
{
    let (cols, rows, ws) = short_layout(lens, tw);
    let n = lens.len();
    let idx = col * rows + row;
    let b = best_cols(lens, tw, n);
    lemma_best_cols_bound(lens, tw, n);
    if b == 0 {
        lemma_seg_max_is_max(lens, 0, n as int, idx as int);
    } else {
        lemma_best_cols_fits(lens, tw, n);
        assert(col * rows <= idx);
        assert(idx < (col + 1) * rows) by (nonlinear_arith)
            requires
                idx == col * rows + row,
                row < rows,
        ;
        let hi: int = ((col + 1) * rows) as int;
        lemma_seg_max_is_max(lens, (col * rows) as int, if hi < n { hi } else { n as int }, idx as int);
        if col + 1 < cols {
            lemma_width_le_line(ws, col as int);
        }
    }
}

proof fn lemma_best_cols_fits(lens: Seq<usize>, tw: nat, c: nat)
    ensures
        best_cols(lens, tw, c) == 0 || fits(lens, best_cols(lens, tw, c), tw),
    decreases c,
{
    if c > 0 {
        lemma_best_cols_fits(lens, tw, (c - 1) as nat);
    }
}

/// Lays out already-rendered cells in the short format: `cells[i]` is how
/// entry `i` is shown, and the padding after it follows the byte length of
/// its name.
pub fn short_grid(entries: &[FileEntry], cells: &Vec<String>, term_width: usize) -> (r: String)
    requires
        cells@.len() == entries@.len(),
    ensures
        r@ == short_text(name_lens(entries@), views(cells@), term_width as nat),
{
    let (cols, rows, ws) = compute_layout(entries, term_width);
    let ghost lens = name_lens(entries@);
    let ghost gc = views(cells@);
    let ghost tw = term_width as nat;
    let n = entries.len();
    let mut out = String::new();
    let mut row: usize = 0;
    while row < rows
        invariant
            (cols as nat, rows as nat, ws@) == short_layout(lens, tw),
            tw == term_width as nat,
            lens == name_lens(entries@),
            gc == views(cells@),
            cells@.len() == n,
            n == entries@.len(),
            row <= rows,
            out@ == grid_text(lens, gc, cols as nat, rows as nat, ws@, row as nat),
        decreases rows - row,
    {
        let ghost before = out@;
        let mut idx: usize = row;
        let mut past_end = false;
        let mut col: usize = 0;
        while col < cols
            invariant
                (cols as nat, rows as nat, ws@) == short_layout(lens, tw),
                tw == term_width as nat,
                lens == name_lens(entries@),
                gc == views(cells@),
                cells@.len() == n,
                n == entries@.len(),
                row < rows,
                col <= cols,
                !past_end ==> idx == col * rows + row,
                past_end ==> col * rows + row > usize::MAX,
                out@ == before + grid_row(lens, gc, cols as nat, rows as nat, ws@, row as nat, col as nat),
            decreases cols - col,
        {
            proof {
                if !past_end && idx < n {
                    lemma_cell_fits(lens, tw, row as nat, col as nat);
                }
                assert((col + 1) * rows + row == col * rows + row + rows) by (nonlinear_arith);
            }
            if !past_end {
                if idx < n {
                    let name_len = entries[idx].name.as_str().len();
                    assert(name_len == lens[idx as int]);
                    assert(lens[idx as int] <= ws@[col as int]);
                    push_str(&mut out, cells[idx].as_str());
                    if col + 1 < cols {
                        let pad = ws[col] - name_len + COLUMN_PADDING;
                        push_spaces(&mut out, pad);
                    }
                }
                match idx.checked_add(rows) {
                    Some(next) => {
                        idx = next;
                    },
                    None => {
                        past_end = true;
                    },
                }
            }
            col = col + 1;
        }
        push_char(&mut out, '\n');
        row = row + 1;
    }
    out
}

/// The terminal's width in columns, from `terminal_size::terminal_size`, which
/// asks standard output, then standard error, then standard input, and gives
/// `None` when none of them is a terminal. It depends on the environment, so
/// nothing is stated of it.
#[verifier::external_body]
fn terminal_columns() -> Option<u16> {
    match terminal_size::terminal_size() {
        Some((terminal_size::Width(w), _)) => Some(w),
        None => None,
    }
}

/// `text` is the short listing of `entries` on a terminal `term_width` wide,
/// where entry `i` is shown as `cells[i]`: its name in the color that its kind
/// calls for (see `shows_entry`).
pub open spec fn shown_short(
    entries: Seq<FileEntry>,
    cells: Seq<Seq<char>>,
    term_width: nat,
    text: Seq<char>,
) -> bool {
    &&& cells.len() == entries.len()
    &&& term_width <= usize::MAX
    &&& forall|i: int| 0 <= i < entries.len() ==> shows_entry(#[trigger] cells[i], entries[i])
    &&& text == short_text(name_lens(entries), cells, term_width)
}

/// The display of an entry's colored name shows the entry.
proof fn lemma_shown_entry(entry: FileEntry, c: colored::ColoredString, text: Seq<char>)
    requires
        c == crate::color::colorized(entry),
        crate::color::display_of(text, c),
    ensures
        shows_entry(text, entry),
{
    let name = entry.name@;
    if entry.is_symlink {
        assert(c == crate::color::cyan_bold_of(name));
    } else if entry.is_dir {
        assert(c == crate::color::blue_bold_of(name));
    } else if entry.is_executable {
        assert(c == crate::color::green_bold_of(name));
    } else {
        assert(c == crate::color::plain_of(name));
    }
}

/// The colored names of the entries, as they will be printed.
fn shown_names(entries: &[FileEntry]) -> (cells: Vec<String>)
    ensures
        cells@.len() == entries@.len(),
        forall|i: int| 0 <= i < entries@.len() ==> shows_entry(#[trigger] cells@[i]@, entries@[i]),
{
    let mut cells: Vec<String> = Vec::new();
    let mut i: usize = 0;
    while i < entries.len()
        invariant
            i <= entries.len(),
            cells@.len() == i,
            forall|k: int| 0 <= k < i ==> shows_entry(#[trigger] cells@[k]@, entries@[k]),
        decreases entries.len() - i,
    {
        let c = colorize(&entries[i]);
        let text = shown(&c);
        proof {
            lemma_shown_entry(entries@[i as int], c, text@);
        }
        cells.push(text);
        i = i + 1;
    }
    cells
}

/// The short listing: the entries' colored names in as many columns as fit the
/// terminal (80 columns when the width is unknown), filled column by column;
/// a lone newline when there are no entries.
pub fn short_format(entries: &[FileEntry]) -> (r: String)
    ensures
        entries@.len() == 0 ==> r@ == seq!['\n'],
        entries@.len() > 0 ==> exists|cells: Seq<Seq<char>>, reported: Option<u16>|
            #[trigger] shown_short(entries@, cells, layout_width(reported), r@),
{
    let reported = terminal_columns();
    short_format_for(entries, reported)
}

/// The width the short listing is laid out for, when the terminal reports
/// `reported` columns (`None` when it reports none).
pub open spec fn layout_width(reported: Option<u16>) -> nat {
    match reported {
        Some(w) => w as nat,
        None => 80,
    }
}

/// The short listing is laid out for the width the terminal reports, and for
/// 80 columns only when it reports none.
pub proof fn lemma_layout_width(reported: Option<u16>)
    ensures
        forall|w: u16| reported == Some(w) ==> layout_width(reported) == w as nat,
        reported is None ==> layout_width(reported) == 80,
{
}

/// The width to lay the short listing out for, from the terminal's report.
pub fn screen_width(reported: Option<u16>) -> (r: usize)
    ensures
        r as nat == layout_width(reported),
{
    match reported {
        Some(w) => w as usize,
        None => 80,
    }
}

/// The short listing for a terminal that reports `reported` columns (`None`
/// when it reports none): the entries' colored names in as many columns as fit
/// that width (80 when none is reported), filled column by column; a lone
/// newline when there are no entries.
pub fn short_format_for(entries: &[FileEntry], reported: Option<u16>) -> (r: String)
    ensures
        entries@.len() == 0 ==> r@ == seq!['\n'],
        entries@.len() > 0 ==> exists|cells: Seq<Seq<char>>|
            #[trigger] shown_short(entries@, cells, layout_width(reported), r@),
{
    if entries.len() == 0 {
        let mut out = String::new();
        push_char(&mut out, '\n');
        return out;
    }
    let term_width = screen_width(reported);
    let cells = shown_names(entries);
    let out = short_grid(entries, &cells, term_width);
    assert(shown_short(entries@, views(cells@), term_width as nat, out@));
    out
}

/// Whether bit `b` of `mode` is set.
pub open spec fn mode_bit(mode: u32, b: u32) -> bool {
    (mode >> b) & 1u32 == 1u32
}

/// The file-type character: `l` for a symlink, `d` for a directory, `-` otherwise.
pub open spec fn type_char(entry: FileEntry) -> char {
    if entry.is_symlink {
        'l'
    } else if entry.is_dir {
        'd'
    } else {
        '-'
    }
}

/// The `rwx` characters for the three permission bits starting at `shift`.
pub open spec fn rwx(mode: u32, shift: u32) -> Seq<char> {
    seq![
        if mode_bit(mode, (shift + 2) as u32) { 'r' } else { '-' },
        if mode_bit(mode, (shift + 1) as u32) { 'w' } else { '-' },
        if mode_bit(mode, shift) { 'x' } else { '-' },
    ]
}

/// The ten-character permission column, as in `ls -l`: the type character,
/// then read/write/execute for owner, group and others.
pub open spec fn permissions(entry: FileEntry) -> Seq<char> {
    seq![type_char(entry)] + rwx(entry.mode, 6) + rwx(entry.mode, 3) + rwx(entry.mode, 0)
}

/// The permission bits that a permission column shows: each of its nine
/// `rwx` positions that is not `-` stands for one bit, from 0o400 down to 0o001.
pub open spec fn shown_mode_bits(p: Seq<char>) -> int {
    (if p[1] != '-' { 256int } else { 0 }) + (if p[2] != '-' { 128int } else { 0 }) + (if p[3] != '-' {
        64int
    } else {
        0
    }) + (if p[4] != '-' { 32int } else { 0 }) + (if p[5] != '-' { 16int } else { 0 }) + (if p[6]
        != '-' {
        8int
    } else {
        0
    }) + (if p[7] != '-' { 4int } else { 0 }) + (if p[8] != '-' { 2int } else { 0 }) + (if p[9]
        != '-' {
        1int
    } else {
        0
    })
}

/// The permission column shows exactly the nine permission bits of the mode:
/// position `1 + k` is not `-` just when bit `8 - k` is set, and together they
/// spell `mode & 0o777`. So modes that differ only above those bits (file type,
/// setuid, setgid, sticky) give the same column.
pub proof fn lemma_permissions_mirror_mode(entry: FileEntry)
    ensures
        forall|k: int|
            0 <= k < 9 ==> (#[trigger] permissions(entry)[1 + k] != '-') == mode_bit(
                entry.mode,
                (8 - k) as u32,
            ),
        shown_mode_bits(permissions(entry)) == (entry.mode & 0o777u32) as int,
{
    let m = entry.mode;
    let p = permissions(entry);
    assert(p =~= seq![type_char(entry)] + rwx(m, 6) + rwx(m, 3) + rwx(m, 0));
    assert forall|k: int| 0 <= k < 9 implies (#[trigger] p[1 + k] != '-') == mode_bit(m, (8 - k) as u32) by {
        if k < 3 {
            assert(p[1 + k] == rwx(m, 6)[k]);
        } else if k < 6 {
            assert(p[1 + k] == rwx(m, 3)[k - 3]);
        } else {
            assert(p[1 + k] == rwx(m, 0)[k - 6]);
        }
    }
    let b8 = (m >> 8u32) & 1u32;
    let b7 = (m >> 7u32) & 1u32;
    let b6 = (m >> 6u32) & 1u32;
    let b5 = (m >> 5u32) & 1u32;
    let b4 = (m >> 4u32) & 1u32;
    let b3 = (m >> 3u32) & 1u32;
    let b2 = (m >> 2u32) & 1u32;
    let b1 = (m >> 1u32) & 1u32;
    let b0 = (m >> 0u32) & 1u32;
    assert(b8 <= 1 && b7 <= 1 && b6 <= 1 && b5 <= 1 && b4 <= 1 && b3 <= 1 && b2 <= 1 && b1 <= 1
        && b0 <= 1) by (bit_vector)
        requires
            b8 == (m >> 8u32) & 1u32,
            b7 == (m >> 7u32) & 1u32,
            b6 == (m >> 6u32) & 1u32,
            b5 == (m >> 5u32) & 1u32,
            b4 == (m >> 4u32) & 1u32,
            b3 == (m >> 3u32) & 1u32,
            b2 == (m >> 2u32) & 1u32,
            b1 == (m >> 1u32) & 1u32,
            b0 == (m >> 0u32) & 1u32,
    ;
    assert((m & 0o777u32) as int == b8 * 256 + b7 * 128 + b6 * 64 + b5 * 32 + b4 * 16 + b3 * 8 + b2
        * 4 + b1 * 2 + b0) by (bit_vector)
        requires
            b8 == (m >> 8u32) & 1u32,
            b7 == (m >> 7u32) & 1u32,
            b6 == (m >> 6u32) & 1u32,
            b5 == (m >> 5u32) & 1u32,
            b4 == (m >> 4u32) & 1u32,
            b3 == (m >> 3u32) & 1u32,
            b2 == (m >> 2u32) & 1u32,
            b1 == (m >> 1u32) & 1u32,
            b0 == (m >> 0u32) & 1u32,
    ;
    assert(p[1] != '-' <==> b8 == 1);
    assert(p[2] != '-' <==> b7 == 1);
    assert(p[3] != '-' <==> b6 == 1);
    assert(p[4] != '-' <==> b5 == 1);
    assert(p[5] != '-' <==> b4 == 1);
    assert(p[6] != '-' <==> b3 == 1);
    assert(p[7] != '-' <==> b2 == 1);
    assert(p[8] != '-' <==> b1 == 1);
    assert(p[9] != '-' <==> b0 == 1);
}

/// The permission column is ten characters: first `l` for a symlink, `d` for
/// a directory that is not a symlink, and `-` for anything else (whatever its
/// execute bits); then, for owner, group and others, the letters `r`, `w`,
/// `x` in that order, each replaced by `-` when its bit is clear.
pub proof fn lemma_permissions_letters(entry: FileEntry)
    ensures
        permissions(entry).len() == 10,
        permissions(entry)[0] == (if entry.is_symlink {
            'l'
        } else if entry.is_dir {
            'd'
        } else {
            '-'
        }),
        forall|k: int|
            0 <= k < 9 ==> #[trigger] permissions(entry)[1 + k] == '-' || permissions(entry)[1 + k]
                == seq!['r', 'w', 'x'][k % 3],
{
    let p = permissions(entry);
    assert forall|k: int| 0 <= k < 9 implies #[trigger] p[1 + k] == '-' || p[1 + k] == seq![
        'r',
        'w',
        'x',
    ][k % 3] by {
        if k < 3 {
            assert(p[1 + k] == rwx(entry.mode, 6)[k]);
        } else if k < 6 {
            assert(p[1 + k] == rwx(entry.mode, 3)[k - 3]);
        } else {
            assert(p[1 + k] == rwx(entry.mode, 0)[k - 6]);
        }
    }
}

/// Appends the `rwx` triplet for the bits starting at `shift`.
fn push_rwx(s: &mut String, mode: u32, shift: u32)
    requires
        shift <= 6,
    ensures
        final(s)@ == old(s)@ + rwx(mode, shift),
{
    push_char(s, if mode >> (shift + 2) & 1 == 1 { 'r' } else { '-' });
    push_char(s, if mode >> (shift + 1) & 1 == 1 { 'w' } else { '-' });
    push_char(s, if mode >> shift & 1 == 1 { 'x' } else { '-' });
    assert(s@ =~= old(s)@ + rwx(mode, shift));
}

/// The permission column of the long listing for `entry`.
pub fn permissions_string(entry: &FileEntry) -> (r: String)
    ensures
        r@ == permissions(*entry),
        r@.len() == 10,
        r@[0] == (if entry.is_symlink {
            'l'
        } else if entry.is_dir {
            'd'
        } else {
            '-'
        }),
{
    proof {
        lemma_permissions_letters(*entry);
    }
    let mut s = String::new();
    push_char(
        &mut s,
        if entry.is_symlink {
            'l'
        } else if entry.is_dir {
            'd'
        } else {
            '-'
        },
    );
    let mode = entry.mode;
    push_rwx(&mut s, mode, 6);
    push_rwx(&mut s, mode, 3);
    push_rwx(&mut s, mode, 0);
    assert(s@ =~= permissions(*entry));
    s
}

/// What the user and group databases answered for the owners of the listed
/// files: pairs of an id and its name. An id that is not listed has no name
/// and is shown as its number.
pub struct OwnerNames {
    pub users: Vec<(u32, String)>,
    pub groups: Vec<(u32, String)>,
}

/// The name that `table` gives `id`: that of its first pair for `id`, if any.
pub open spec fn name_in(table: Seq<(u32, String)>, id: u32) -> Option<Seq<char>>
    decreases table.len(),
{
    if table.len() == 0 {
        None
    } else if table[0].0 == id {
        Some(table[0].1@)
    } else {
        name_in(table.drop_first(), id)
    }
}

/// An optional string as an optional character sequence.
pub open spec fn name_view(found: Option<String>) -> Option<Seq<char>> {
    match found {
        Some(s) => Some(s@),
        None => None,
    }
}

/// The name of `id` in `table`, searched from the front.
fn find_name(table: &Vec<(u32, String)>, id: u32) -> (r: Option<String>)
    ensures
        name_view(r) == name_in(table@, id),
{
    let mut i: usize = 0;
    assert(table@.skip(0) =~= table@);
    while i < table.len()
        invariant
            i <= table@.len(),
            name_in(table@.skip(i as int), id) == name_in(table@, id),
        decreases table.len() - i,
    {
        assert(table@.skip(i as int)[0] == table@[i as int]);
        if table[i].0 == id {
            return Some(table[i].1.clone());
        }
        assert(table@.skip(i as int).drop_first() =~= table@.skip(i + 1));
        i = i + 1;
    }
    assert(table@.skip(i as int).len() == 0);
    None
}

/// A name found in a table is the name of one of its pairs.
proof fn lemma_name_in_member(table: Seq<(u32, String)>, id: u32)
    requires
        name_in(table, id) is Some,
    ensures
        exists|k: int| 0 <= k < table.len() && #[trigger] table[k].1@ == name_in(table, id)->0,
    decreases table.len(),
{
    if table[0].0 == id {
        assert(table[0].1@ == name_in(table, id)->0);
    } else {
        lemma_name_in_member(table.drop_first(), id);
        let k = choose|k: int|
            0 <= k < table.drop_first().len() && #[trigger] table.drop_first()[k].1@ == name_in(
                table.drop_first(),
                id,
            )->0;
        assert(table[k + 1] == table.drop_first()[k]);
    }
}

/// An owner column: the name found in the database, or the number itself.
pub open spec fn name_or_id(found: Option<Seq<char>>, id: u32) -> Seq<char> {
    match found {
        Some(name) => name,
        None => decimal(id as nat),
    }
}

/// The owner column from a database answer: the name when one was found,
/// else the decimal id.
pub fn name_or_number(found: Option<String>, id: u32) -> (r: String)
    ensures
        r@ == name_or_id(name_view(found), id),
{
    match found {
        Some(name) => name,
        None => decimal_string(id as u64),
    }
}

/// The user column for `uid`: the user's name as `owners` gives it, or the
/// number when it gives none.
pub fn user_name(uid: u32, owners: &OwnerNames) -> (r: String)
    ensures
        r@ == name_or_id(name_in(owners.users@, uid), uid),
{
    name_or_number(find_name(&owners.users, uid), uid)
}

/// The group column for `gid`: the group's name as `owners` gives it, or the
/// number when it gives none.
pub fn group_name(gid: u32, owners: &OwnerNames) -> (r: String)
    ensures
        r@ == name_or_id(name_in(owners.groups@, gid), gid),
{
    name_or_number(find_name(&owners.groups, gid), gid)
}

/// The widest cell (in bytes) of column `i` among the first `k` rows.
pub open spec fn widest(rows: Seq<[String; 7]>, i: int, k: nat) -> usize
    decreases k,
{
    if k == 0 {
        0
    } else {
        let m = widest(rows, i, (k - 1) as nat);
        let l = byte_len(rows[k - 1]@[i]@);
        if l > m {
            l
        } else {
            m
        }
    }
}

/// The width of each of the seven columns: its widest cell, in bytes.
pub open spec fn cell_widths(rows: Seq<[String; 7]>) -> Seq<usize> {
    Seq::new(7, |i: int| widest(rows, i, rows.len()))
}

/// The larger of two widths.
pub open spec fn max_width(a: usize, b: usize) -> usize {
    if a > b {
        a
    } else {
        b
    }
}

proof fn lemma_widest_prefix(a: Seq<[String; 7]>, b: Seq<[String; 7]>, i: int, k: nat)
    requires
        k <= a.len(),
    ensures
        widest(a + b, i, k) == widest(a, i, k),
    decreases k,
{
    if k > 0 {
        lemma_widest_prefix(a, b, i, (k - 1) as nat);
    }
}

proof fn lemma_widest_concat(a: Seq<[String; 7]>, b: Seq<[String; 7]>, i: int, k: nat)
    requires
        k <= b.len(),
    ensures
        widest(a + b, i, a.len() + k) == max_width(widest(a, i, a.len()), widest(b, i, k)),
    decreases k,
{
    if k == 0 {
        lemma_widest_prefix(a, b, i, a.len());
    } else {
        lemma_widest_concat(a, b, i, (k - 1) as nat);
        assert((a + b)[a.len() + k - 1] == b[k - 1]);
    }
}

/// The column widths of two blocks of rows put together are, column by
/// column, the larger of the two blocks' widths; so they do not depend on the
/// order of the rows.
pub proof fn lemma_column_widths_concat(a: Seq<[String; 7]>, b: Seq<[String; 7]>)
    ensures
        cell_widths(a + b) == Seq::new(
            7,
            |i: int| max_width(cell_widths(a)[i], cell_widths(b)[i]),
        ),
{
    assert forall|i: int| 0 <= i < 7 implies #[trigger] cell_widths(a + b)[i] == max_width(
        cell_widths(a)[i],
        cell_widths(b)[i],
    ) by {
        lemma_widest_concat(a, b, i, b.len());
        assert((a + b).len() == a.len() + b.len());
    }
    assert(cell_widths(a + b) =~= Seq::new(
        7,
        |i: int| max_width(cell_widths(a)[i], cell_widths(b)[i]),
    ));
}

/// The widths of the long listing's seven columns: for each, the byte length of
/// its longest cell (0 when there are no rows).
pub fn column_widths(rows: &[[String; 7]]) -> (w: [usize; 7])
    ensures
        w@ == cell_widths(rows@),
{
    let mut widths: [usize; 7] = [0usize; 7];
    let mut r: usize = 0;
    while r < rows.len()
        invariant
            r <= rows.len(),
            widths@ == Seq::new(7, |i: int| widest(rows@, i, r as nat)),
        decreases rows.len() - r,
    {
        let mut i: usize = 0;
        while i < 7
            invariant
                r < rows.len(),
                i <= 7,
                widths@ == Seq::new(
                    7,
                    |j: int|
                        if j < i {
                            widest(rows@, j, (r + 1) as nat)
                        } else {
                            widest(rows@, j, r as nat)
                        },
                ),
            decreases 7 - i,
        {
            let len = rows[r][i].as_str().len();
            if len > widths[i] {
                widths[i] = len;
            }
            assert(widths@ =~= Seq::new(
                7,
                |j: int|
                    if j < i + 1 {
                        widest(rows@, j, (r + 1) as nat)
                    } else {
                        widest(rows@, j, r as nat)
                    },
            ));
            i = i + 1;
        }
        assert(widths@ =~= Seq::new(7, |j: int| widest(rows@, j, (r + 1) as nat)));
        r = r + 1;
    }
    assert(widths@ =~= cell_widths(rows@));
    widths
}

/// `s` right-aligned in a field of `w` characters.
pub open spec fn pad_left(s: Seq<char>, w: nat) -> Seq<char> {
    if s.len() < w {
        spaces((w - s.len()) as nat) + s
    } else {
        s
    }
}

/// `s` left-aligned in a field of `w` characters.
pub open spec fn pad_right(s: Seq<char>, w: nat) -> Seq<char> {
    if s.len() < w {
        s + spaces((w - s.len()) as nat)
    } else {
        s
    }
}

/// One line of the long listing: permissions, link count (right-aligned),
/// user and group (left-aligned), size (right-aligned), date and name,
/// separated by single spaces.
pub open spec fn long_line(row: Seq<Seq<char>>, ws: Seq<usize>) -> Seq<char> {
    row[0] + seq![' '] + pad_left(row[1], ws[1] as nat) + seq![' '] + pad_right(
        row[2],
        ws[2] as nat,
    ) + seq![' '] + pad_right(row[3], ws[3] as nat) + seq![' '] + pad_left(row[4], ws[4] as nat)
        + seq![' '] + row[5] + seq![' '] + row[6] + seq!['\n']
}

/// The cells of a row, as character sequences.
pub open spec fn row_views(row: [String; 7]) -> Seq<Seq<char>> {
    row@.map_values(|s: String| s@)
}

/// The first `k` lines of the long listing.
pub open spec fn long_lines(rows: Seq<[String; 7]>, ws: Seq<usize>, k: nat) -> Seq<char>
    decreases k,
{
    if k == 0 {
        Seq::empty()
    } else {
        long_lines(rows, ws, (k - 1) as nat) + long_line(row_views(rows[k - 1]), ws)
    }
}

/// The long listing of `rows`: a `total` line, then one line per row with
/// columns as wide as their widest cell.
pub open spec fn long_text(rows: Seq<[String; 7]>, total: nat) -> Seq<char> {
    "total "@ + decimal(total) + seq!['\n'] + long_lines(rows, cell_widths(rows), rows.len())
}

/// Appends `s` right-aligned in a field of `w` characters.
fn push_left_padded(out: &mut String, s: &str, w: usize)
    ensures
        final(out)@ == old(out)@ + pad_left(s@, w as nat),
{
    let count = char_count(s);
    if count < w {
        push_spaces(out, w - count);
    }
    push_str(out, s);
    assert(out@ =~= old(out)@ + pad_left(s@, w as nat));
}

/// Appends `s` left-aligned in a field of `w` characters.
fn push_right_padded(out: &mut String, s: &str, w: usize)
    ensures
        final(out)@ == old(out)@ + pad_right(s@, w as nat),
{
    let count = char_count(s);
    push_str(out, s);
    if count < w {
        push_spaces(out, w - count);
    }
    assert(out@ =~= old(out)@ + pad_right(s@, w as nat));
}

/// Appends one line of the long listing.
fn push_long_line(out: &mut String, row: &[String; 7], ws: &[usize; 7])
    ensures
        final(out)@ == old(out)@ + long_line(row_views(*row), ws@),
{
    push_str(out, row[0].as_str());
    push_char(out, ' ');
    push_left_padded(out, row[1].as_str(), ws[1]);
    push_char(out, ' ');
    push_right_padded(out, row[2].as_str(), ws[2]);
    push_char(out, ' ');
    push_right_padded(out, row[3].as_str(), ws[3]);
    push_char(out, ' ');
    push_left_padded(out, row[4].as_str(), ws[4]);
    push_char(out, ' ');
    push_str(out, row[5].as_str());
    push_char(out, ' ');
    push_str(out, row[6].as_str());
    push_char(out, '\n');
    assert(out@ =~= old(out)@ + long_line(row_views(*row), ws@));
}

/// Lays out already-rendered rows in the long format, under a `total` line.
pub fn long_grid(rows: &Vec<[String; 7]>, total: u64) -> (r: String)
    ensures
        r@ == long_text(rows@, total as nat),
{
    let ws = column_widths(rows.as_slice());
    let mut out = String::new();
    push_str(&mut out, "total ");
    let t = decimal_string(total);
    push_str(&mut out, t.as_str());
    push_char(&mut out, '\n');
    proof {
        reveal_strlit("total ");
    }
    let ghost head = out@;
    assert(head =~= "total "@ + decimal(total as nat) + seq!['\n']);
    let mut k: usize = 0;
    while k < rows.len()
        invariant
            k <= rows@.len(),
            ws@ == cell_widths(rows@),
            out@ == head + long_lines(rows@, ws@, k as nat),
        decreases rows.len() - k,
    {
        push_long_line(&mut out, &rows[k], &ws);
        k = k + 1;
        assert(out@ =~= head + long_lines(rows@, ws@, k as nat));
    }
    out
}

/// The `total` line's figure: the entries' blocks in 1024-byte units (each
/// entry's 512-byte block count halved, rounded down), summed.
pub open spec fn total_blocks(entries: Seq<FileEntry>) -> int
    decreases entries.len(),
{
    if entries.len() == 0 {
        0
    } else {
        total_blocks(entries.drop_last()) + entries.last().blocks / 2
    }
}

/// The current year, when the current time is known.
pub open spec fn year_of(now: Option<LocalTime>) -> Option<i32> {
    match now {
        Some(t) => Some(t.year),
        None => None,
    }
}

/// What a long-listing row holds for `entry` modified at local time `mtime`,
/// when the current local time is `now` (`None` when unknown) and the owners'
/// names are those of `owners`: permissions, link count, user, group, size and
/// date as stated, the date being `mtime`, which is the entry's modification
/// time read in some time zone; the name in the color its kind calls for.
pub open spec fn long_row_of(
    row: [String; 7],
    entry: FileEntry,
    owners: OwnerNames,
    mtime: LocalTime,
    now: Option<LocalTime>,
) -> bool {
    &&& row@[0]@ == permissions(entry)
    &&& row@[1]@ == decimal(entry.nlink as nat)
    &&& row@[2]@ == name_or_id(name_in(owners.users@, entry.uid), entry.uid)
    &&& row@[3]@ == name_or_id(name_in(owners.groups@, entry.gid), entry.gid)
    &&& row@[4]@ == decimal(entry.size as nat)
    &&& valid_local(mtime)
    &&& row@[5]@ == time_text(mtime, year_of(now))
    &&& local_of(entry.modified as int, mtime)
    &&& shows_entry(row@[6]@, entry)
}

/// The long listing of `entries` is `text`, with rows `rows` whose date column
/// shows the local times `times`, at current local time `now` (`None` when the
/// clock cannot be read as a local time), with the owners' names of `owners`.
pub open spec fn long_listing_of(
    entries: Seq<FileEntry>,
    owners: OwnerNames,
    now: Option<LocalTime>,
    times: Seq<LocalTime>,
    rows: Seq<[String; 7]>,
    text: Seq<char>,
) -> bool {
    &&& rows.len() == entries.len()
    &&& times.len() == entries.len()
    &&& forall|k: int|
        0 <= k < entries.len() ==> #[trigger] long_row_of(rows[k], entries[k], owners, times[k], now)
    &&& text == long_text(rows, total_blocks(entries) as nat)
}

/// The date column of the long listing: a file modified in the current year
/// (when the current time is known) shows month, day and time of day, like
/// `Jan  3 14:23`; any other file, and every file when the current time is
/// unknown, shows month, day and year, like `Jan  3 2024`.
pub proof fn lemma_long_listing_dates(
    entries: Seq<FileEntry>,
    owners: OwnerNames,
    now: Option<LocalTime>,
    times: Seq<LocalTime>,
    rows: Seq<[String; 7]>,
    text: Seq<char>,
    k: int,
)
    requires
        long_listing_of(entries, owners, now, times, rows, text),
        0 <= k < entries.len(),
    ensures
        ({
            let t = times[k];
            let day = month_abbrev(t.month as int) + seq![' '] + space_padded(t.day as int) + seq![' '];
            &&& (now matches Some(n) && n.year == t.year) ==> rows[k]@[5]@ == day + two_digits(
                t.hour as int,
            ) + seq![':'] + two_digits(t.minute as int)
            &&& !(now matches Some(n) && n.year == t.year) ==> rows[k]@[5]@ == day + year_text(
                t.year as int,
            )
            &&& local_of(entries[k].modified as int, t)
        }),
{
    assert(long_row_of(rows[k], entries[k], owners, times[k], now));
    let t = times[k];
    let day = month_abbrev(t.month as int) + seq![' '] + space_padded(t.day as int) + seq![' '];
    assert(clock_text(t) =~= day + two_digits(t.hour as int) + seq![':'] + two_digits(t.minute as int));
    assert(date_text(t) =~= day + year_text(t.year as int));
}

/// Every entry's modification time can be shown in local time.
pub open spec fn times_in_range(entries: Seq<FileEntry>) -> bool {
    forall|k: int| 0 <= k < entries.len() ==> in_time_range(#[trigger] entries[k].modified)
}

/// The cells of the long listing's row for `entry`.
fn long_row(entry: &FileEntry, owners: &OwnerNames, now: &Option<LocalTime>) -> (row: [String; 7])
    requires
        in_time_range(entry.modified),
    ensures
        exists|mtime: LocalTime| #[trigger] long_row_of(row, *entry, *owners, mtime, *now),
{
    let perms = permissions_string(entry);
    let links = decimal_string(entry.nlink);
    let user = user_name(entry.uid, owners);
    let group = group_name(entry.gid, owners);
    let size = decimal_string(entry.size);
    let now_year = match now {
        Some(t) => Some(t.year),
        None => None,
    };
    let date = date_column(entry.modified, now_year);
    let colored = colorize(entry);
    let name = shown(&colored);
    proof {
        lemma_shown_entry(*entry, colored, name@);
    }
    let row = [perms, links, user, group, size, date, name];
    let ghost mtime = choose|lt: LocalTime|
        valid_local(lt) && local_of(entry.modified as int, lt) && date@ == #[trigger] time_text(
            lt,
            now_year,
        );
    assert(long_row_of(row, *entry, *owners, mtime, *now));
    row
}

/// The sum of the entries' blocks in 1024-byte units.
fn sum_blocks(entries: &[FileEntry]) -> (t: u64)
    requires
        total_blocks(entries@) <= u64::MAX,
    ensures
        t == total_blocks(entries@),
{
    let mut t: u64 = 0;
    let mut i: usize = 0;
    while i < entries.len()
        invariant
            i <= entries.len(),
            total_blocks(entries@) <= u64::MAX,
            t == total_blocks(entries@.take(i as int)),
        decreases entries.len() - i,
    {
        assert(entries@.take(i + 1).drop_last() =~= entries@.take(i as int));
        proof {
            lemma_total_blocks_prefix(entries@, i + 1);
        }
        t = t + entries[i].blocks / 2;
        i = i + 1;
    }
    assert(entries@.take(i as int) =~= entries@);
    t
}

/// Block totals of prefixes never exceed the whole.
proof fn lemma_total_blocks_prefix(entries: Seq<FileEntry>, k: int)
    requires
        0 <= k <= entries.len(),
    ensures
        0 <= total_blocks(entries.take(k)) <= total_blocks(entries),
    decreases entries.len() - k,
{
    if k < entries.len() {
        lemma_total_blocks_prefix(entries, k + 1);
        assert(entries.take(k + 1).drop_last() =~= entries.take(k));
        lemma_total_blocks_nonneg(entries.take(k));
    } else {
        assert(entries.take(k) =~= entries);
        lemma_total_blocks_nonneg(entries);
    }
}

proof fn lemma_total_blocks_nonneg(entries: Seq<FileEntry>)
    ensures
        total_blocks(entries) >= 0,
    decreases entries.len(),
{
    if entries.len() > 0 {
        lemma_total_blocks_nonneg(entries.drop_last());
    }
}

/// The long listing at current local time `now` (`None` when unknown): a
/// `total` line with the entries' size in 1024-byte blocks, then one aligned
/// line per entry with its permissions, link count, owner, group, size,
/// modification date and colored name.
pub fn long_format_at(entries: &[FileEntry], owners: &OwnerNames, now: Option<LocalTime>) -> (r: String)
    requires
        total_blocks(entries@) <= u64::MAX,
        times_in_range(entries@),
    ensures
        exists|times: Seq<LocalTime>, rows: Seq<[String; 7]>|
            #[trigger] long_listing_of(entries@, *owners, now, times, rows, r@),
{
    let mut rows: Vec<[String; 7]> = Vec::new();
    let ghost mut times: Seq<LocalTime> = Seq::empty();
    let mut i: usize = 0;
    while i < entries.len()
        invariant
            i <= entries.len(),
            times_in_range(entries@),
            rows@.len() == i,
            times.len() == i,
            forall|k: int|
                0 <= k < i ==> #[trigger] long_row_of(rows@[k], entries@[k], *owners, times[k], now),
        decreases entries.len() - i,
    {
        assert(in_time_range(entries@[i as int].modified));
        let row = long_row(&entries[i], owners, &now);
        let ghost mtime = choose|lt: LocalTime|
            #[trigger] long_row_of(row, entries@[i as int], *owners, lt, now);
        rows.push(row);
        proof {
            times = times.push(mtime);
        }
        i = i + 1;
    }
    let total = sum_blocks(entries);
    let out = long_grid(&rows, total);
    assert(long_listing_of(entries@, *owners, now, times, rows@, out@));
    out
}

/// The long listing at the current local time, as the system clock and time
/// zone give it.
pub fn long_format(entries: &[FileEntry], owners: &OwnerNames) -> (r: String)
    requires
        total_blocks(entries@) <= u64::MAX,
        times_in_range(entries@),
    ensures
        exists|now: Option<LocalTime>, times: Seq<LocalTime>, rows: Seq<[String; 7]>|
            (now matches Some(t) ==> valid_local(t)) && #[trigger] long_listing_of(
                entries@,
                *owners,
                now,
                times,
                rows,
                r@,
            ),
{
    let now = local_now();
    long_format_at(entries, owners, now)
}

/// The number of line breaks in `s`.
pub open spec fn line_breaks(s: Seq<char>) -> nat
    decreases s.len(),
{
    if s.len() == 0 {
        0
    } else {
        line_breaks(s.drop_last()) + if s.last() == '\n' {
            1nat
        } else {
            0nat
        }
    }
}

proof fn lemma_line_breaks_concat(a: Seq<char>, b: Seq<char>)
    ensures
        line_breaks(a + b) == line_breaks(a) + line_breaks(b),
    decreases b.len(),
{
    if b.len() > 0 {
        lemma_line_breaks_concat(a, b.drop_last());
        assert((a + b).drop_last() =~= a + b.drop_last());
    } else {
        assert(a + b =~= a);
    }
}

proof fn lemma_single_line_no_breaks(s: Seq<char>)
    requires
        single_line(s),
    ensures
        line_breaks(s) == 0,
    decreases s.len(),
{
    if s.len() > 0 {
        lemma_single_line_no_breaks(s.drop_last());
    }
}

proof fn lemma_cell_single_line(
    lens: Seq<usize>,
    cells: Seq<Seq<char>>,
    cols: nat,
    rows: nat,
    ws: Seq<usize>,
    row: nat,
    col: nat,
)
    requires
        cells.len() == lens.len(),
        forall|i: int| 0 <= i < cells.len() ==> single_line(#[trigger] cells[i]),
    ensures
        line_breaks(grid_cell(lens, cells, cols, rows, ws, row, col)) == 0,
{
    let idx = col * rows + row;
    if idx < lens.len() {
        assert(single_line(cells[idx as int]));
        lemma_single_line_no_breaks(cells[idx as int]);
        if col + 1 < cols {
            let sp = spaces((ws[col as int] - lens[idx as int] + COLUMN_PADDING) as nat);
            lemma_single_line_no_breaks(sp);
            lemma_line_breaks_concat(cells[idx as int], sp);
        }
    }
}

proof fn lemma_row_single_line(
    lens: Seq<usize>,
    cells: Seq<Seq<char>>,
    cols: nat,
    rows: nat,
    ws: Seq<usize>,
    row: nat,
    k: nat,
)
    requires
        cells.len() == lens.len(),
        forall|i: int| 0 <= i < cells.len() ==> single_line(#[trigger] cells[i]),
    ensures
        line_breaks(grid_row(lens, cells, cols, rows, ws, row, k)) == 0,
    decreases k,
{
    if k > 0 {
        lemma_row_single_line(lens, cells, cols, rows, ws, row, (k - 1) as nat);
        lemma_cell_single_line(lens, cells, cols, rows, ws, row, (k - 1) as nat);
        lemma_line_breaks_concat(
            grid_row(lens, cells, cols, rows, ws, row, (k - 1) as nat),
            grid_cell(lens, cells, cols, rows, ws, row, (k - 1) as nat),
        );
    }
}

proof fn lemma_grid_lines(
    lens: Seq<usize>,
    cells: Seq<Seq<char>>,
    cols: nat,
    rows: nat,
    ws: Seq<usize>,
    k: nat,
)
    requires
        cells.len() == lens.len(),
        forall|i: int| 0 <= i < cells.len() ==> single_line(#[trigger] cells[i]),
    ensures
        line_breaks(grid_text(lens, cells, cols, rows, ws, k)) == k,
        k > 0 ==> grid_text(lens, cells, cols, rows, ws, k).last() == '\n',
    decreases k,
{
    if k > 0 {
        let prev = grid_text(lens, cells, cols, rows, ws, (k - 1) as nat);
        let line = grid_row(lens, cells, cols, rows, ws, (k - 1) as nat, cols);
        lemma_grid_lines(lens, cells, cols, rows, ws, (k - 1) as nat);
        lemma_row_single_line(lens, cells, cols, rows, ws, (k - 1) as nat, cols);
        lemma_line_breaks_concat(prev, line.push('\n'));
        assert(line.push('\n').drop_last() =~= line);
    }
}

/// The short listing of at least one entry, when no shown name holds a line
/// break, has exactly one line per row of its layout, and ends with a line
/// break.
pub proof fn lemma_short_text_lines(lens: Seq<usize>, cells: Seq<Seq<char>>, term_width: nat)
    requires
        lens.len() >= 1,
        cells.len() == lens.len(),
        forall|i: int| 0 <= i < cells.len() ==> single_line(#[trigger] cells[i]),
    ensures
        line_breaks(short_text(lens, cells, term_width)) == short_layout(lens, term_width).1,
        short_layout(lens, term_width).1 >= 1,
        short_text(lens, cells, term_width).last() == '\n',
{
    crate::layout::lemma_each_entry_in_one_cell(lens, term_width, 0);
    let (cols, rows, ws) = short_layout(lens, term_width);
    lemma_grid_lines(lens, cells, cols, rows, ws, rows);
}

proof fn lemma_pad_left_breaks(s: Seq<char>, w: nat)
    ensures
        line_breaks(pad_left(s, w)) == line_breaks(s),
{
    if s.len() < w {
        let sp = spaces((w - s.len()) as nat);
        lemma_single_line_no_breaks(sp);
        lemma_line_breaks_concat(sp, s);
    }
}

proof fn lemma_pad_right_breaks(s: Seq<char>, w: nat)
    ensures
        line_breaks(pad_right(s, w)) == line_breaks(s),
{
    if s.len() < w {
        let sp = spaces((w - s.len()) as nat);
        lemma_single_line_no_breaks(sp);
        lemma_line_breaks_concat(s, sp);
    }
}

proof fn lemma_long_line_breaks(row: Seq<Seq<char>>, ws: Seq<usize>)
    requires
        row.len() == 7,
        ws.len() == 7,
        forall|c: int| 0 <= c < 7 ==> single_line(#[trigger] row[c]),
    ensures
        line_breaks(long_line(row, ws)) == 1,
        long_line(row, ws).last() == '\n',
{
    let sp = seq![' '];
    let nl = seq!['\n'];
    lemma_one_char_breaks(' ');
    lemma_one_char_breaks('\n');
    assert forall|c: int| 0 <= c < 7 implies line_breaks(#[trigger] row[c]) == 0 by {
        lemma_single_line_no_breaks(row[c]);
    }
    let p1 = pad_left(row[1], ws[1] as nat);
    let p2 = pad_right(row[2], ws[2] as nat);
    let p3 = pad_right(row[3], ws[3] as nat);
    let p4 = pad_left(row[4], ws[4] as nat);
    lemma_pad_left_breaks(row[1], ws[1] as nat);
    lemma_pad_right_breaks(row[2], ws[2] as nat);
    lemma_pad_right_breaks(row[3], ws[3] as nat);
    lemma_pad_left_breaks(row[4], ws[4] as nat);
    let s1 = row[0] + sp;
    lemma_line_breaks_concat(row[0], sp);
    let s2 = s1 + p1;
    lemma_line_breaks_concat(s1, p1);
    let s3 = s2 + sp;
    lemma_line_breaks_concat(s2, sp);
    let s4 = s3 + p2;
    lemma_line_breaks_concat(s3, p2);
    let s5 = s4 + sp;
    lemma_line_breaks_concat(s4, sp);
    let s6 = s5 + p3;
    lemma_line_breaks_concat(s5, p3);
    let s7 = s6 + sp;
    lemma_line_breaks_concat(s6, sp);
    let s8 = s7 + p4;
    lemma_line_breaks_concat(s7, p4);
    let s9 = s8 + sp;
    lemma_line_breaks_concat(s8, sp);
    let s10 = s9 + row[5];
    lemma_line_breaks_concat(s9, row[5]);
    let s11 = s10 + sp;
    lemma_line_breaks_concat(s10, sp);
    let s12 = s11 + row[6];
    lemma_line_breaks_concat(s11, row[6]);
    let s13 = s12 + nl;
    lemma_line_breaks_concat(s12, nl);
    assert(long_line(row, ws) == s13);
}

proof fn lemma_long_lines_breaks(rows: Seq<[String; 7]>, ws: Seq<usize>, k: nat)
    requires
        k <= rows.len(),
        ws.len() == 7,
        forall|r: int, c: int| 0 <= r < rows.len() && 0 <= c < 7 ==> single_line(#[trigger] rows[r]@[c]@),
    ensures
        line_breaks(long_lines(rows, ws, k)) == k,
        k > 0 ==> long_lines(rows, ws, k).last() == '\n',
    decreases k,
{
    if k > 0 {
        lemma_long_lines_breaks(rows, ws, (k - 1) as nat);
        let row = row_views(rows[k - 1]);
        assert forall|c: int| 0 <= c < 7 implies single_line(#[trigger] row[c]) by {
            assert(single_line(rows[k - 1]@[c]@));
        }
        lemma_long_line_breaks(row, ws);
        lemma_line_breaks_concat(long_lines(rows, ws, (k - 1) as nat), long_line(row, ws));
    }
}

/// The long listing, when no cell holds a line break, has exactly one line
/// per row plus the `total` line, and ends with a line break.
pub proof fn lemma_long_text_lines(rows: Seq<[String; 7]>, total: nat)
    requires
        forall|r: int, c: int| 0 <= r < rows.len() && 0 <= c < 7 ==> single_line(#[trigger] rows[r]@[c]@),
    ensures
        line_breaks(long_text(rows, total)) == rows.len() + 1,
        long_text(rows, total).last() == '\n',
{
    let head = "total "@ + decimal(total) + seq!['\n'];
    lemma_long_lines_breaks(rows, cell_widths(rows), rows.len());
    let body = long_lines(rows, cell_widths(rows), rows.len());
    lemma_line_breaks_concat(head, body);
    lemma_line_breaks_concat("total "@ + decimal(total), seq!['\n']);
    lemma_decimal_single_line(total);
    reveal_strlit("total ");
    assert(single_line("total "@));
    lemma_single_line_no_breaks("total "@);
    lemma_single_line_no_breaks(decimal(total));
    lemma_line_breaks_concat("total "@, decimal(total));
    lemma_one_char_breaks('\n');
    if rows.len() == 0 {
        assert(long_text(rows, total) =~= head);
    }
}

proof fn lemma_one_char_breaks(c: char)
    ensures
        line_breaks(seq![c]) == if c == '\n' {
            1nat
        } else {
            0nat
        },
{
    assert(seq![c].drop_last() =~= Seq::<char>::empty());
    assert(line_breaks(Seq::<char>::empty()) == 0);
}

/// Decimal numerals are digits only.
proof fn lemma_decimal_single_line(n: nat)
    ensures
        single_line(decimal(n)),
    decreases n,
{
    if n >= 10 {
        lemma_decimal_single_line(n / 10);
    }
}

/// Two one-line texts put together make one line.
proof fn lemma_single_line_concat(a: Seq<char>, b: Seq<char>)
    requires
        single_line(a),
        single_line(b),
    ensures
        single_line(a + b),
{
    assert forall|i: int| 0 <= i < (a + b).len() implies (a + b)[i] != '\n' by {
        if i < a.len() {
            assert((a + b)[i] == a[i]);
        } else {
            assert((a + b)[i] == b[i - a.len()]);
        }
    }
}

proof fn lemma_digit_not_break(d: nat)
    requires
        d < 10,
    ensures
        digit_char(d) != '\n',
{
    let ds = seq!['0', '1', '2', '3', '4', '5', '6', '7', '8', '9'];
    assert(ds[d as int] != '\n') by {
        if d == 0 {
        } else if d == 1 {
        } else if d == 2 {
        } else if d == 3 {
        } else if d == 4 {
        } else if d == 5 {
        } else if d == 6 {
        } else if d == 7 {
        } else if d == 8 {
        } else {
        }
    }
}

proof fn lemma_two_digits_single_line(v: int)
    requires
        0 <= v < 100,
    ensures
        single_line(two_digits(v)),
        single_line(space_padded(v)),
{
    lemma_digit_not_break((v / 10) as nat);
    lemma_digit_not_break((v % 10) as nat);
    if v < 10 {
        lemma_digit_not_break(v as nat);
    }
}

proof fn lemma_month_single_line(m: int)
    ensures
        single_line(month_abbrev(m)),
{
    reveal_strlit("Jan");
    reveal_strlit("Feb");
    reveal_strlit("Mar");
    reveal_strlit("Apr");
    reveal_strlit("May");
    reveal_strlit("Jun");
    reveal_strlit("Jul");
    reveal_strlit("Aug");
    reveal_strlit("Sep");
    reveal_strlit("Oct");
    reveal_strlit("Nov");
    reveal_strlit("Dec");
}

proof fn lemma_four_digits_single_line(n: nat)
    ensures
        single_line(four_digits(n)),
{
    lemma_decimal_single_line(n);
    let d = decimal(n);
    if d.len() < 4 {
        let z = Seq::new((4 - d.len()) as nat, |i: int| '0');
        lemma_single_line_concat(z, d);
    }
}

/// The date column is one line.
proof fn lemma_time_text_single_line(t: LocalTime, now_year: Option<i32>)
    requires
        valid_local(t),
    ensures
        single_line(time_text(t, now_year)),
{
    let sp = seq![' '];
    let m = month_abbrev(t.month as int);
    let d = space_padded(t.day as int);
    lemma_month_single_line(t.month as int);
    lemma_two_digits_single_line(t.day as int);
    lemma_two_digits_single_line(t.hour as int);
    lemma_two_digits_single_line(t.minute as int);
    lemma_single_line_concat(m, sp);
    lemma_single_line_concat(m + sp, d);
    lemma_single_line_concat(m + sp + d, sp);
    let base = m + sp + d + sp;
    if now_year == Some(t.year) {
        let h = two_digits(t.hour as int);
        lemma_single_line_concat(base, h);
        lemma_single_line_concat(base + h, seq![':']);
        lemma_single_line_concat(base + h + seq![':'], two_digits(t.minute as int));
        assert(clock_text(t) == base + h + seq![':'] + two_digits(t.minute as int));
    } else {
        let y = t.year as int;
        let yt = year_text(y);
        if 0 <= y <= 9999 {
            lemma_four_digits_single_line(y as nat);
        } else if y >= 0 {
            lemma_four_digits_single_line(y as nat);
            lemma_single_line_concat(seq!['+'], four_digits(y as nat));
        } else {
            lemma_four_digits_single_line((-y) as nat);
            lemma_single_line_concat(seq!['-'], four_digits((-y) as nat));
        }
        lemma_single_line_concat(base, yt);
        assert(date_text(t) == base + yt);
    }
}

/// Putting select sequences back after resets keeps a text on one line.
proof fn lemma_escape_resets_single_line(s: Seq<char>, p: Seq<char>)
    requires
        single_line(s),
        single_line(p),
    ensures
        single_line(escape_resets(s, p)),
    decreases s.len(),
{
    if s.len() >= 4 {
        let r = reset_seq();
        assert(single_line(r));
        if s.take(4) == r {
            assert(single_line(s.skip(4)));
            lemma_escape_resets_single_line(s.skip(4), p);
            lemma_single_line_concat(r, p);
            lemma_single_line_concat(r + p, escape_resets(s.skip(4), p));
        } else {
            assert(single_line(s.skip(1)));
            lemma_escape_resets_single_line(s.skip(1), p);
            lemma_single_line_concat(seq![s[0]], escape_resets(s.skip(1), p));
        }
    }
}

/// A name on one line is shown on one line, colored or not.
proof fn lemma_shown_as_single_line(r: Seq<char>, s: Seq<char>, code: Seq<char>)
    requires
        shown_as(r, s, code),
        single_line(s),
        single_line(code),
    ensures
        single_line(r),
{
    if r != s {
        let p = bold_sgr(code);
        assert(single_line(seq!['\x1B', '[', '1', ';']));
        lemma_single_line_concat(seq!['\x1B', '[', '1', ';'], code);
        lemma_single_line_concat(seq!['\x1B', '[', '1', ';'] + code, seq!['m']);
        lemma_escape_resets_single_line(s, p);
        lemma_single_line_concat(p, escape_resets(s, p));
        assert(single_line(reset_seq()));
        lemma_single_line_concat(p + escape_resets(s, p), reset_seq());
    }
}

proof fn lemma_shown_entry_single_line(cell: Seq<char>, entry: FileEntry)
    requires
        shows_entry(cell, entry),
        single_line(entry.name@),
    ensures
        single_line(cell),
{
    assert(single_line(crate::color::cyan_code()));
    assert(single_line(crate::color::blue_code()));
    assert(single_line(crate::color::green_code()));
    if entry.is_symlink {
        lemma_shown_as_single_line(cell, entry.name@, crate::color::cyan_code());
    } else if entry.is_dir {
        lemma_shown_as_single_line(cell, entry.name@, crate::color::blue_code());
    } else if entry.is_executable {
        lemma_shown_as_single_line(cell, entry.name@, crate::color::green_code());
    }
}

/// The permission column is one line.
proof fn lemma_permissions_single_line(entry: FileEntry)
    ensures
        single_line(permissions(entry)),
{
    let p = permissions(entry);
    assert forall|i: int| 0 <= i < p.len() implies p[i] != '\n' by {
        assert(p =~= seq![type_char(entry)] + rwx(entry.mode, 6) + rwx(entry.mode, 3) + rwx(
            entry.mode,
            0,
        ));
    }
}

/// Every name that `table` holds is a single line.
pub open spec fn names_single_line(table: Seq<(u32, String)>) -> bool {
    forall|k: int| 0 <= k < table.len() ==> single_line(#[trigger] table[k].1@)
}

/// An owner column is a single line when every name it may come from is.
proof fn lemma_owner_single_line(table: Seq<(u32, String)>, id: u32)
    requires
        names_single_line(table),
    ensures
        single_line(name_or_id(name_in(table, id), id)),
{
    if name_in(table, id) is Some {
        lemma_name_in_member(table, id);
    } else {
        lemma_decimal_single_line(id as nat);
    }
}

/// In a long listing of entries whose names, and the user and group names
/// given for their owners, hold no line break, no cell holds one.
proof fn lemma_listing_cells_single_line(
    entries: Seq<FileEntry>,
    owners: OwnerNames,
    now: Option<LocalTime>,
    times: Seq<LocalTime>,
    rows: Seq<[String; 7]>,
    text: Seq<char>,
)
    requires
        long_listing_of(entries, owners, now, times, rows, text),
        forall|k: int| 0 <= k < entries.len() ==> single_line(#[trigger] entries[k].name@),
        names_single_line(owners.users@),
        names_single_line(owners.groups@),
    ensures
        forall|r: int, c: int|
            0 <= r < rows.len() && 0 <= c < 7 ==> single_line(#[trigger] rows[r]@[c]@),
{
    assert forall|r: int, c: int| 0 <= r < rows.len() && 0 <= c < 7 implies single_line(
        #[trigger] rows[r]@[c]@,
    ) by {
        assert(long_row_of(rows[r], entries[r], owners, times[r], now));
        assert(single_line(entries[r].name@));
        if c == 0 {
            lemma_permissions_single_line(entries[r]);
        } else if c == 1 {
            lemma_decimal_single_line(entries[r].nlink as nat);
        } else if c == 2 {
            lemma_owner_single_line(owners.users@, entries[r].uid);
        } else if c == 3 {
            lemma_owner_single_line(owners.groups@, entries[r].gid);
        } else if c == 4 {
            lemma_decimal_single_line(entries[r].size as nat);
        } else if c == 5 {
            lemma_time_text_single_line(times[r], year_of(now));
        } else if c == 6 {
            lemma_shown_entry_single_line(rows[r]@[6]@, entries[r]);
        }
    }
}

/// The long listing of entries whose names, and the user and group names
/// given for their owners, hold no line break starts with the `total` line,
/// has exactly one line per entry after it, and ends with a line break.
pub proof fn lemma_long_listing_lines(
    entries: Seq<FileEntry>,
    owners: OwnerNames,
    now: Option<LocalTime>,
    times: Seq<LocalTime>,
    rows: Seq<[String; 7]>,
    text: Seq<char>,
)
    requires
        long_listing_of(entries, owners, now, times, rows, text),
        forall|k: int| 0 <= k < entries.len() ==> single_line(#[trigger] entries[k].name@),
        names_single_line(owners.users@),
        names_single_line(owners.groups@),
    ensures
        text.subrange(0, 7 + decimal(total_blocks(entries) as nat).len() as int) == "total "@ + decimal(
            total_blocks(entries) as nat,
        ) + seq!['\n'],
        line_breaks(text) == entries.len() + 1,
        text.last() == '\n',
{
    lemma_listing_cells_single_line(entries, owners, now, times, rows, text);
    lemma_long_text_lines(rows, total_blocks(entries) as nat);
    let t = total_blocks(entries) as nat;
    reveal_strlit("total ");
    let head = "total "@ + decimal(t) + seq!['\n'];
    assert(text == head + long_lines(rows, cell_widths(rows), rows.len()));
    assert(head.len() == 7 + decimal(t).len());
    assert(text.subrange(0, head.len() as int) =~= head);
}

/// The part of a long-listing line before the date: permissions, then link
/// count, user, group and size padded to their columns, each followed by a
/// space.
pub open spec fn long_prefix(row: Seq<Seq<char>>, ws: Seq<usize>) -> Seq<char> {
    row[0] + seq![' '] + pad_left(row[1], ws[1] as nat) + seq![' '] + pad_right(
        row[2],
        ws[2] as nat,
    ) + seq![' '] + pad_right(row[3], ws[3] as nat) + seq![' '] + pad_left(row[4], ws[4] as nat)
        + seq![' ']
}

/// A string has no more characters than its UTF-8 encoding has bytes.
proof fn lemma_chars_le_bytes(s: Seq<char>)
    ensures
        s.len() <= vstd::utf8::encode_utf8(s).len(),
    decreases s.len(),
{
    if s.len() > 0 {
        lemma_chars_le_bytes(s.drop_first());
    }
}

/// The widest cell of a column is at least as wide as each of its cells.
proof fn lemma_widest_ge(rows: Seq<[String; 7]>, i: int, k: nat, r: int)
    requires
        0 <= r < k,
    ensures
        byte_len(rows[r]@[i]@) <= widest(rows, i, k),
    decreases k,
{
    if r < k - 1 {
        lemma_widest_ge(rows, i, (k - 1) as nat, r);
    }
}

/// The columns of the long listing are aligned: in every line the date starts
/// at the same position, the permission column's length plus five separators
/// plus the widths of the four padded columns. (Widths count bytes and padding
/// counts characters, and a string never has more characters than bytes, so
/// padding always reaches the width.)
pub proof fn lemma_long_columns_aligned(rows: Seq<[String; 7]>, k: int)
    requires
        0 <= k < rows.len(),
        forall|r: int, c: int|
            0 <= r < rows.len() && 0 <= c < 7 ==> vstd::utf8::encode_utf8(
                #[trigger] rows[r]@[c]@,
            ).len() <= usize::MAX,
    ensures
        ({
            let row = row_views(rows[k]);
            let ws = cell_widths(rows);
            &&& long_line(row, ws) == long_prefix(row, ws) + row[5] + seq![' '] + row[6] + seq!['\n']
            &&& long_prefix(row, ws).len() == row[0].len() + 5 + ws[1] + ws[2] + ws[3] + ws[4]
        }),
{
    let row = row_views(rows[k]);
    let ws = cell_widths(rows);
    assert forall|c: int| 1 <= c <= 4 implies #[trigger] row[c].len() <= ws[c] by {
        lemma_chars_le_bytes(rows[k]@[c]@);
        assert(vstd::utf8::encode_utf8(rows[k]@[c]@).len() <= usize::MAX);
        lemma_widest_ge(rows, c, rows.len(), k);
        assert(row[c] == rows[k]@[c]@);
    }
    assert(row[1].len() <= ws[1]);
    assert(row[2].len() <= ws[2]);
    assert(row[3].len() <= ws[3]);
    assert(row[4].len() <= ws[4]);
    assert(long_line(row, ws) =~= long_prefix(row, ws) + row[5] + seq![' '] + row[6] + seq!['\n']);
}

/// The first `k` lines of the long listing begin the first `n`, for `k <= n`.
proof fn lemma_long_lines_prefix(rows: Seq<[String; 7]>, ws: Seq<usize>, k: nat, n: nat)
    requires
        k <= n,
    ensures
        long_lines(rows, ws, k).len() <= long_lines(rows, ws, n).len(),
        long_lines(rows, ws, n).subrange(0, long_lines(rows, ws, k).len() as int) == long_lines(
            rows,
            ws,
            k,
        ),
    decreases n,
{
    if k < n {
        let m = (n - 1) as nat;
        lemma_long_lines_prefix(rows, ws, k, m);
        let lm = long_lines(rows, ws, m);
        let ln = long_lines(rows, ws, n);
        assert(ln.subrange(0, lm.len() as int) =~= lm);
        assert(ln.subrange(0, long_lines(rows, ws, k).len() as int) =~= lm.subrange(
            0,
            long_lines(rows, ws, k).len() as int,
        ));
    } else {
        assert(long_lines(rows, ws, n).subrange(0, long_lines(rows, ws, n).len() as int)
            =~= long_lines(rows, ws, n));
    }
}

/// Where row `k`'s line stands in the long listing: after the `total` line
/// and the lines of the rows before it.
pub open spec fn long_line_start(rows: Seq<[String; 7]>, total: nat, k: nat) -> int {
    (7 + decimal(total).len() + long_lines(rows, cell_widths(rows), k).len()) as int
}

/// The long listing before row `k`'s line is the `total` line and the lines
/// of the rows before it, and row `k`'s line follows.
proof fn lemma_long_text_split(rows: Seq<[String; 7]>, total: nat, k: nat)
    requires
        k < rows.len(),
    ensures
        ({
            let text = long_text(rows, total);
            let ws = cell_widths(rows);
            let line = long_line(row_views(rows[k as int]), ws);
            let start = long_line_start(rows, total, k);
            &&& text.subrange(0, start) == "total "@ + decimal(total) + seq!['\n'] + long_lines(
                rows,
                ws,
                k,
            )
            &&& start + line.len() <= text.len()
            &&& text.subrange(start, start + line.len()) == line
        }),
{
    let text = long_text(rows, total);
    let ws = cell_widths(rows);
    let line = long_line(row_views(rows[k as int]), ws);
    reveal_strlit("total ");
    let head = "total "@ + decimal(total) + seq!['\n'];
    let n = rows.len();
    let body = long_lines(rows, ws, n);
    let before = long_lines(rows, ws, k);
    let upto = long_lines(rows, ws, k + 1);
    lemma_long_lines_prefix(rows, ws, k + 1, n);
    lemma_long_lines_prefix(rows, ws, k, n);
    assert(upto == before + line);
    let start = long_line_start(rows, total, k);
    assert(head.len() == 7 + decimal(total).len());
    assert(text == head + body);
    assert(text.subrange(0, start) =~= head + before) by {
        assert(body.subrange(0, before.len() as int) == before);
    }
    assert(text.subrange(start, start + line.len()) =~= line) by {
        assert(body.subrange(0, upto.len() as int) == upto);
        assert forall|j: int| 0 <= j < line.len() implies text.subrange(
            start,
            start + line.len(),
        )[j] == line[j] by {
            assert(text[start + j] == body[before.len() + j]);
            assert(body.subrange(0, upto.len() as int)[before.len() + j] == body[before.len() + j]);
            assert(upto[before.len() + j] == line[j]);
        }
    }
}

/// The `total` line and the lines of `k` rows with single-line cells hold
/// `k + 1` line breaks.
proof fn lemma_long_head_breaks(rows: Seq<[String; 7]>, total: nat, k: nat)
    requires
        k <= rows.len(),
        forall|r: int, c: int|
            0 <= r < rows.len() && 0 <= c < 7 ==> single_line(#[trigger] rows[r]@[c]@),
    ensures
        line_breaks(
            "total "@ + decimal(total) + seq!['\n'] + long_lines(rows, cell_widths(rows), k),
        ) == k + 1,
{
    let ws = cell_widths(rows);
    let head = "total "@ + decimal(total) + seq!['\n'];
    lemma_long_lines_breaks(rows, ws, k);
    lemma_line_breaks_concat(head, long_lines(rows, ws, k));
    lemma_line_breaks_concat("total "@ + decimal(total), seq!['\n']);
    lemma_decimal_single_line(total);
    reveal_strlit("total ");
    assert(single_line("total "@));
    lemma_single_line_no_breaks("total "@);
    lemma_single_line_no_breaks(decimal(total));
    lemma_line_breaks_concat("total "@, decimal(total));
    lemma_one_char_breaks('\n');
}

/// Row `k`'s line of the long listing is the listing's line `k + 2`: before
/// it stand exactly `k + 1` line breaks (those of the `total` line and of the
/// `k` rows before it). It starts with the columns before the date, and these
/// take the same number of characters on every line: the permission column's
/// length plus five separators plus the widths of the four padded columns.
pub proof fn lemma_long_text_line(rows: Seq<[String; 7]>, total: nat, k: nat)
    requires
        k < rows.len(),
        forall|r: int, c: int|
            0 <= r < rows.len() && 0 <= c < 7 ==> single_line(#[trigger] rows[r]@[c]@),
        forall|r: int, c: int|
            0 <= r < rows.len() && 0 <= c < 7 ==> vstd::utf8::encode_utf8(
                #[trigger] rows[r]@[c]@,
            ).len() <= usize::MAX,
    ensures
        ({
            let text = long_text(rows, total);
            let ws = cell_widths(rows);
            let row = row_views(rows[k as int]);
            let start = long_line_start(rows, total, k);
            &&& line_breaks(text.subrange(0, start)) == k + 1
            &&& start + long_line(row, ws).len() <= text.len()
            &&& text.subrange(start, start + long_line(row, ws).len()) == long_line(row, ws)
            &&& text.subrange(start, start + long_prefix(row, ws).len()) == long_prefix(row, ws)
            &&& long_prefix(row, ws).len() == row[0].len() + 5 + ws[1] + ws[2] + ws[3] + ws[4]
        }),
{
    let text = long_text(rows, total);
    let ws = cell_widths(rows);
    let row = row_views(rows[k as int]);
    let line = long_line(row, ws);
    let start = long_line_start(rows, total, k);
    lemma_long_text_split(rows, total, k);
    lemma_long_head_breaks(rows, total, k);
    lemma_long_columns_aligned(rows, k as int);
    let pl = long_prefix(row, ws).len();
    assert(line =~= long_prefix(row, ws) + (row[5] + seq![' '] + row[6] + seq!['\n']));
    assert(text.subrange(start, start + pl) =~= line.subrange(0, pl as int)) by {
        assert(text.subrange(start, start + line.len()) == line);
    }
    assert(line.subrange(0, pl as int) =~= long_prefix(row, ws));
}

/// In the long listing of entries whose names, and the owners' names, hold no
/// line break, the line of entry `k` is the listing's line `k + 2`, and its
/// columns before the date take the same number of characters as on every
/// other entry line.
pub proof fn lemma_long_listing_aligned(
    entries: Seq<FileEntry>,
    owners: OwnerNames,
    now: Option<LocalTime>,
    times: Seq<LocalTime>,
    rows: Seq<[String; 7]>,
    text: Seq<char>,
    k: nat,
)
    requires
        long_listing_of(entries, owners, now, times, rows, text),
        k < entries.len(),
        forall|i: int| 0 <= i < entries.len() ==> single_line(#[trigger] entries[i].name@),
        names_single_line(owners.users@),
        names_single_line(owners.groups@),
        forall|r: int, c: int|
            0 <= r < rows.len() && 0 <= c < 7 ==> vstd::utf8::encode_utf8(
                #[trigger] rows[r]@[c]@,
            ).len() <= usize::MAX,
    ensures
        ({
            let total = total_blocks(entries) as nat;
            let ws = cell_widths(rows);
            let row = row_views(rows[k as int]);
            let start = long_line_start(rows, total, k);
            &&& line_breaks(text.subrange(0, start)) == k + 1
            &&& text.subrange(start, start + long_prefix(row, ws).len()) == long_prefix(row, ws)
            &&& long_prefix(row, ws).len() == row[0].len() + 5 + ws[1] + ws[2] + ws[3] + ws[4]
        }),
{
    lemma_listing_cells_single_line(entries, owners, now, times, rows, text);
    lemma_long_text_line(rows, total_blocks(entries) as nat, k);
}

/// A segment's maximum is at most any bound on its elements.
proof fn lemma_seg_max_le(lens: Seq<usize>, lo: int, hi: int, bound: int)
    requires
        forall|i: int| lo <= i < hi ==> lens[i] <= bound,
        bound >= 0,
    ensures
        seg_max(lens, lo, hi) <= bound,
    decreases hi - lo,
{
    if hi > lo {
        lemma_seg_max_le(lens, lo, hi - 1, bound);
    }
}

/// When some column count up to `c` fits, the best one is at least 1.
proof fn lemma_best_cols_positive(lens: Seq<usize>, tw: nat, c: nat, c0: nat)
    requires
        1 <= c0 <= c,
        fits(lens, c0, tw),
    ensures
        best_cols(lens, tw, c) >= 1,
    decreases c,
{
    if c > c0 && !fits(lens, c, tw) {
        lemma_best_cols_positive(lens, tw, (c - 1) as nat, c0);
    }
}

/// The first `k` cells of a row take at most the first `k` column widths plus
/// the gaps after all but the last column.
proof fn lemma_row_prefix_len(lens: Seq<usize>, cells: Seq<Seq<char>>, tw: nat, row: nat, k: nat)
    requires
        lens.len() >= 1,
        cells.len() == lens.len(),
        forall|i: int| 0 <= i < lens.len() ==> #[trigger] cells[i].len() <= lens[i],
        row < short_layout(lens, tw).1,
        k <= short_layout(lens, tw).0,
    ensures
        ({
            let (cols, rows, ws) = short_layout(lens, tw);
            grid_row(lens, cells, cols, rows, ws, row, k).len() <= sum_widths(ws.take(k as int))
                + COLUMN_PADDING * (if k < cols { k as int } else { cols - 1 })
        }),
    decreases k,
{
    let (cols, rows, ws) = short_layout(lens, tw);
    crate::layout::lemma_each_entry_in_one_cell(lens, tw, 0);
    if k > 0 {
        let col = (k - 1) as nat;
        lemma_row_prefix_len(lens, cells, tw, row, col);
        assert(ws.take(k as int).drop_last() =~= ws.take(col as int));
        let idx = col * rows + row;
        if idx < lens.len() {
            lemma_cell_fits(lens, tw, row, col);
        }
    }
}

/// When every name is at most `term_width` bytes and is shown in at most as
/// many characters as its bytes (as names without color are), every line of
/// the short listing is at most `term_width` characters: the listing fits the
/// terminal.
pub proof fn lemma_short_lines_fit(lens: Seq<usize>, cells: Seq<Seq<char>>, term_width: nat, row: nat)
    requires
        lens.len() >= 1,
        cells.len() == lens.len(),
        forall|i: int| 0 <= i < lens.len() ==> #[trigger] lens[i] <= term_width,
        forall|i: int| 0 <= i < lens.len() ==> #[trigger] cells[i].len() <= lens[i],
        row < short_layout(lens, term_width).1,
    ensures
        ({
            let (cols, rows, ws) = short_layout(lens, term_width);
            grid_row(lens, cells, cols, rows, ws, row, cols).len() <= term_width
        }),
{
    let n = lens.len();
    let (cols, rows, ws) = short_layout(lens, term_width);
    // one column always fits, so the layout is a fitting one
    let one = layout_widths(lens, 1);
    assert(rows_for(n, 1) == n);
    lemma_seg_max_le(lens, 0, n as int, term_width as int);
    assert(one[0] == seg_max(lens, 0, n as int));
    assert(one.len() == 1);
    assert(one.drop_last() =~= Seq::<usize>::empty());
    assert(sum_widths(Seq::<usize>::empty()) == 0);
    assert(sum_widths(one) == one[0]);
    assert(line_width(one) == one[0]);
    assert(fits(lens, 1, term_width));
    lemma_best_cols_positive(lens, term_width, n, 1);
    lemma_best_cols_fits(lens, term_width, n);
    lemma_best_cols_bound(lens, term_width, n);
    lemma_row_prefix_len(lens, cells, term_width, row, cols);
    assert(ws.take(cols as int) =~= ws);
}

/// `t` holds no escape character.
pub open spec fn no_escape(t: Seq<char>) -> bool {
    forall|i: int| 0 <= i < t.len() ==> t[i] != '\x1B'
}

/// The number of leading characters of `t` that are digits or `;`.
pub open spec fn sgr_params_len(t: Seq<char>) -> nat
    decreases t.len(),
{
    if t.len() > 0 && (('0' <= t[0] && t[0] <= '9') || t[0] == ';') {
        1 + sgr_params_len(t.skip(1))
    } else {
        0
    }
}

/// The length of the select sequence (`ESC [`, digits and `;`, `m`) that `t`
/// starts with, or 0 when it starts with none.
pub open spec fn sgr_len(t: Seq<char>) -> nat {
    let k = sgr_params_len(t.skip(2));
    if t.len() >= 3 && t[0] == '\x1B' && t[1] == '[' && 2 + k < t.len() && t[(2 + k) as int] == 'm' {
        3 + k
    } else {
        0
    }
}

/// `t` with its select sequences removed: what a terminal shows of it.
pub open spec fn strip_sgr(t: Seq<char>) -> Seq<char>
    decreases t.len(),
{
    if t.len() == 0 {
        t
    } else if sgr_len(t) > 0 {
        strip_sgr(t.skip(sgr_len(t) as int))
    } else {
        seq![t[0]] + strip_sgr(t.skip(1))
    }
}

proof fn lemma_strip_plain_prefix(f: Seq<char>, b: Seq<char>)
    requires
        no_escape(f),
    ensures
        strip_sgr(f + b) == f + strip_sgr(b),
    decreases f.len(),
{
    if f.len() == 0 {
        assert(f + b =~= b);
    } else {
        assert((f + b)[0] == f[0]);
        assert(sgr_len(f + b) == 0);
        assert((f + b).skip(1) =~= f.skip(1) + b);
        lemma_strip_plain_prefix(f.skip(1), b);
        assert(f =~= seq![f[0]] + f.skip(1));
    }
}

/// A select sequence `ESC [ <params> m`, followed by anything, is removed whole.
proof fn lemma_strip_sgr_prefix(params: Seq<char>, b: Seq<char>)
    requires
        forall|i: int| 0 <= i < params.len() ==> ('0' <= #[trigger] params[i] && params[i] <= '9')
            || params[i] == ';',
    ensures
        strip_sgr(seq!['\x1B', '['] + params + seq!['m'] + b) == strip_sgr(b),
{
    let t = seq!['\x1B', '['] + params + seq!['m'] + b;
    lemma_params_len(params, seq!['m'] + b);
    assert(t.skip(2) =~= params + (seq!['m'] + b));
    assert(t[2 + params.len() as int] == 'm');
    assert(sgr_len(t) == 3 + params.len());
    assert(t.skip(3 + params.len() as int) =~= b);
}

proof fn lemma_params_len(params: Seq<char>, rest: Seq<char>)
    requires
        forall|i: int| 0 <= i < params.len() ==> ('0' <= #[trigger] params[i] && params[i] <= '9')
            || params[i] == ';',
        rest.len() > 0,
        rest[0] == 'm',
    ensures
        sgr_params_len(params + rest) == params.len(),
    decreases params.len(),
{
    if params.len() == 0 {
        assert(params + rest =~= rest);
    } else {
        assert((params + rest).skip(1) =~= params.skip(1) + rest);
        assert((params + rest)[0] == params[0]);
        lemma_params_len(params.skip(1), rest);
    }
}

/// A name without escape characters, shown in color or not, is the name once
/// its select sequences are removed.
proof fn lemma_strip_shown(cell: Seq<char>, s: Seq<char>, code: Seq<char>, b: Seq<char>)
    requires
        shown_as(cell, s, code),
        no_escape(s),
        code.len() == 2,
        forall|i: int| 0 <= i < 2 ==> '0' <= #[trigger] code[i] && code[i] <= '9',
    ensures
        strip_sgr(cell + b) == s + strip_sgr(b),
{
    if cell == s {
        lemma_strip_plain_prefix(s, b);
    } else {
        let p = bold_sgr(code);
        lemma_escape_resets_plain(s, p);
        let params = seq!['1', ';'] + code;
        assert(p =~= seq!['\x1B', '['] + params + seq!['m']);
        assert(cell + b =~= seq!['\x1B', '['] + params + seq!['m'] + (s + (reset_seq() + b)));
        assert forall|i: int| 0 <= i < params.len() implies ('0' <= #[trigger] params[i]
            && params[i] <= '9') || params[i] == ';' by {
            if i >= 2 {
                assert(params[i] == code[i - 2]);
            }
        }
        lemma_strip_sgr_prefix(params, s + (reset_seq() + b));
        lemma_strip_plain_prefix(s, reset_seq() + b);
        let zero = seq!['0'];
        assert(reset_seq() + b =~= seq!['\x1B', '['] + zero + seq!['m'] + b);
        lemma_strip_sgr_prefix(zero, b);
    }
}

/// Without escape characters there is no reset to re-select after.
proof fn lemma_escape_resets_plain(s: Seq<char>, p: Seq<char>)
    requires
        no_escape(s),
    ensures
        escape_resets(s, p) == s,
    decreases s.len(),
{
    if s.len() >= 4 {
        assert(s.take(4) != reset_seq()) by {
            assert(s.take(4)[0] == s[0]);
        }
        lemma_escape_resets_plain(s.skip(1), p);
        assert(s =~= seq![s[0]] + s.skip(1));
    }
}

/// A shown entry is its name once select sequences are removed.
proof fn lemma_strip_entry(cell: Seq<char>, entry: FileEntry, b: Seq<char>)
    requires
        shows_entry(cell, entry),
        no_escape(entry.name@),
    ensures
        strip_sgr(cell + b) == entry.name@ + strip_sgr(b),
{
    let s = entry.name@;
    if entry.is_symlink {
        lemma_strip_shown(cell, s, crate::color::cyan_code(), b);
    } else if entry.is_dir {
        lemma_strip_shown(cell, s, crate::color::blue_code(), b);
    } else if entry.is_executable {
        lemma_strip_shown(cell, s, crate::color::green_code(), b);
    } else {
        lemma_strip_plain_prefix(s, b);
    }
}

/// With select sequences removed, a row of shown cells is the row of plain
/// names.
proof fn lemma_strip_row(
    lens: Seq<usize>,
    entries: Seq<FileEntry>,
    cells: Seq<Seq<char>>,
    cols: nat,
    rows: nat,
    ws: Seq<usize>,
    row: nat,
    k: nat,
    b: Seq<char>,
)
    requires
        cells.len() == entries.len(),
        lens.len() == entries.len(),
        forall|i: int| 0 <= i < entries.len() ==> shows_entry(#[trigger] cells[i], entries[i]),
        forall|i: int| 0 <= i < entries.len() ==> no_escape(#[trigger] entries[i].name@),
    ensures
        strip_sgr(grid_row(lens, cells, cols, rows, ws, row, k) + b) == grid_row(
            lens,
            entries.map_values(|e: FileEntry| e.name@),
            cols,
            rows,
            ws,
            row,
            k,
        ) + strip_sgr(b),
    decreases k,
{
    let names = entries.map_values(|e: FileEntry| e.name@);
    if k == 0 {
        assert(grid_row(lens, cells, cols, rows, ws, row, 0) + b =~= b);
        assert(grid_row(lens, names, cols, rows, ws, row, 0) + strip_sgr(b) =~= strip_sgr(b));
    } else {
        let col = (k - 1) as nat;
        let cell = grid_cell(lens, cells, cols, rows, ws, row, col);
        let pcell = grid_cell(lens, names, cols, rows, ws, row, col);
        let prev = grid_row(lens, cells, cols, rows, ws, row, col);
        assert(grid_row(lens, cells, cols, rows, ws, row, k) + b =~= prev + (cell + b));
        lemma_strip_row(lens, entries, cells, cols, rows, ws, row, col, cell + b);
        let idx = col * rows + row;
        if idx < lens.len() {
            let e = entries[idx as int];
            assert(shows_entry(cells[idx as int], e));
            assert(no_escape(e.name@));
            assert(names[idx as int] == e.name@);
            if col + 1 < cols {
                let sp = spaces((ws[col as int] - lens[idx as int] + COLUMN_PADDING) as nat);
                assert(cell + b =~= cells[idx as int] + (sp + b));
                lemma_strip_entry(cells[idx as int], e, sp + b);
                lemma_strip_plain_prefix(sp, b);
                assert(pcell =~= e.name@ + sp);
            } else {
                lemma_strip_entry(cells[idx as int], e, b);
            }
        } else {
            assert(cell + b =~= b);
        }
        assert(grid_row(lens, names, cols, rows, ws, row, k) =~= grid_row(
            lens,
            names,
            cols,
            rows,
            ws,
            row,
            col,
        ) + pcell);
    }
}

/// The short listing fits the terminal: when every name is at most
/// `term_width` bytes and holds no escape character, every line, once the
/// select sequences of coloring are removed, is at most `term_width`
/// characters.
pub proof fn lemma_short_colored_lines_fit(
    entries: Seq<FileEntry>,
    cells: Seq<Seq<char>>,
    term_width: nat,
    row: nat,
)
    requires
        entries.len() >= 1,
        cells.len() == entries.len(),
        forall|i: int| 0 <= i < entries.len() ==> shows_entry(#[trigger] cells[i], entries[i]),
        forall|i: int|
            0 <= i < entries.len() ==> no_escape(#[trigger] entries[i].name@)
                && vstd::utf8::encode_utf8(entries[i].name@).len() <= term_width,
        term_width <= usize::MAX,
        row < short_layout(name_lens(entries), term_width).1,
    ensures
        ({
            let lens = name_lens(entries);
            let (cols, rows, ws) = short_layout(lens, term_width);
            strip_sgr(grid_row(lens, cells, cols, rows, ws, row, cols)).len() <= term_width
        }),
{
    let lens = name_lens(entries);
    let names = entries.map_values(|e: FileEntry| e.name@);
    let (cols, rows, ws) = short_layout(lens, term_width);
    assert forall|i: int| 0 <= i < lens.len() implies #[trigger] lens[i] <= term_width
        && names[i].len() <= lens[i] by {
        lemma_chars_le_bytes(entries[i].name@);
        assert(names[i] == entries[i].name@);
        assert(vstd::utf8::encode_utf8(entries[i].name@).len() <= usize::MAX);
    }
    assert forall|i: int| 0 <= i < lens.len() implies #[trigger] names[i].len() <= lens[i] by {
        lemma_chars_le_bytes(entries[i].name@);
    }
    lemma_short_lines_fit(lens, names, term_width, row);
    lemma_strip_row(lens, entries, cells, cols, rows, ws, row, cols, Seq::empty());
    assert(strip_sgr(Seq::<char>::empty()) =~= Seq::<char>::empty());
    assert(grid_row(lens, cells, cols, rows, ws, row, cols) + Seq::<char>::empty() =~= grid_row(
        lens,
        cells,
        cols,
        rows,
        ws,
        row,
        cols,
    ));
    assert(grid_row(lens, names, cols, rows, ws, row, cols) + Seq::<char>::empty() =~= grid_row(
        lens,
        names,
        cols,
        rows,
        ws,
        row,
        cols,
    ));
}

/// The UTF-8 encoding of a concatenation is the concatenation of encodings.
proof fn lemma_encode_concat(a: Seq<char>, b: Seq<char>)
    ensures
        vstd::utf8::encode_utf8(a + b) == vstd::utf8::encode_utf8(a) + vstd::utf8::encode_utf8(b),
    decreases a.len(),
{
    if a.len() == 0 {
        assert(a + b =~= b);
        assert(vstd::utf8::encode_utf8(a) + vstd::utf8::encode_utf8(b) =~= vstd::utf8::encode_utf8(
            b,
        ));
    } else {
        lemma_encode_concat(a.drop_first(), b);
        assert((a + b).drop_first() =~= a.drop_first() + b);
        assert((a + b)[0] == a[0]);
        assert(vstd::utf8::encode_utf8(a + b) =~= vstd::utf8::encode_scalar(a[0] as u32) + (
        vstd::utf8::encode_utf8(a.drop_first()) + vstd::utf8::encode_utf8(b)));
    }
}

/// Spaces take one byte each in UTF-8.
proof fn lemma_encode_spaces(n: nat)
    ensures
        vstd::utf8::encode_utf8(spaces(n)).len() == n,
    decreases n,
{
    if n > 0 {
        lemma_encode_spaces((n - 1) as nat);
        assert(spaces(n).drop_first() =~= spaces((n - 1) as nat));
        assert(spaces(n)[0] == ' ');
        assert((' ' as u32) == 32);
    }
}

/// The UTF-8 length of a row of names equals the length of the same row with
/// each name replaced by as many spaces as it has bytes.
proof fn lemma_grid_row_bytes(
    lens: Seq<usize>,
    names: Seq<Seq<char>>,
    cols: nat,
    rows: nat,
    ws: Seq<usize>,
    row: nat,
    k: nat,
)
    requires
        names.len() == lens.len(),
        forall|i: int| 0 <= i < lens.len() ==> vstd::utf8::encode_utf8(#[trigger] names[i]).len() == lens[i],
    ensures
        vstd::utf8::encode_utf8(grid_row(lens, names, cols, rows, ws, row, k)).len() == grid_row(
            lens,
            lens.map_values(|l: usize| spaces(l as nat)),
            cols,
            rows,
            ws,
            row,
            k,
        ).len(),
    decreases k,
{
    if k > 0 {
        let blanks = lens.map_values(|l: usize| spaces(l as nat));
        let c = (k - 1) as nat;
        lemma_grid_row_bytes(lens, names, cols, rows, ws, row, c);
        let g = grid_cell(lens, names, cols, rows, ws, row, c);
        lemma_encode_concat(grid_row(lens, names, cols, rows, ws, row, c), g);
        let idx = c * rows + row;
        if idx < lens.len() {
            assert(blanks[idx as int] == spaces(lens[idx as int] as nat));
            if c + 1 < cols {
                let pad = spaces((ws[c as int] - lens[idx as int] + COLUMN_PADDING) as nat);
                lemma_encode_concat(names[idx as int], pad);
                lemma_encode_spaces((ws[c as int] - lens[idx as int] + COLUMN_PADDING) as nat);
            }
        } else {
            assert(vstd::utf8::encode_utf8(g) =~= Seq::<u8>::empty());
        }
    }
}

/// The short listing fits the terminal in bytes: when every name holds no
/// escape character and is at most `term_width` bytes, every line, once the
/// select sequences of coloring are removed, takes at most `term_width` bytes
/// in UTF-8.
pub proof fn lemma_short_colored_lines_fit_bytes(
    entries: Seq<FileEntry>,
    cells: Seq<Seq<char>>,
    term_width: nat,
    row: nat,
)
    requires
        entries.len() >= 1,
        cells.len() == entries.len(),
        forall|i: int| 0 <= i < entries.len() ==> shows_entry(#[trigger] cells[i], entries[i]),
        forall|i: int|
            0 <= i < entries.len() ==> no_escape(#[trigger] entries[i].name@)
                && vstd::utf8::encode_utf8(entries[i].name@).len() <= term_width,
        term_width <= usize::MAX,
        row < short_layout(name_lens(entries), term_width).1,
    ensures
        ({
            let lens = name_lens(entries);
            let (cols, rows, ws) = short_layout(lens, term_width);
            vstd::utf8::encode_utf8(strip_sgr(grid_row(lens, cells, cols, rows, ws, row, cols))).len()
                <= term_width
        }),
{
    let lens = name_lens(entries);
    let names = entries.map_values(|e: FileEntry| e.name@);
    let blanks = lens.map_values(|l: usize| spaces(l as nat));
    let (cols, rows, ws) = short_layout(lens, term_width);
    assert forall|i: int| 0 <= i < lens.len() implies #[trigger] lens[i] <= term_width
        && vstd::utf8::encode_utf8(names[i]).len() == lens[i] by {
        assert(names[i] == entries[i].name@);
        assert(vstd::utf8::encode_utf8(entries[i].name@).len() <= usize::MAX);
    }
    assert forall|i: int| 0 <= i < lens.len() implies #[trigger] blanks[i].len() <= lens[i] by {
        assert(blanks[i] == spaces(lens[i] as nat));
    }
    lemma_short_lines_fit(lens, blanks, term_width, row);
    lemma_grid_row_bytes(lens, names, cols, rows, ws, row, cols);
    lemma_strip_row(lens, entries, cells, cols, rows, ws, row, cols, Seq::empty());
    assert(strip_sgr(Seq::<char>::empty()) =~= Seq::<char>::empty());
    assert(grid_row(lens, cells, cols, rows, ws, row, cols) + Seq::<char>::empty() =~= grid_row(
        lens,
        cells,
        cols,
        rows,
        ws,
        row,
        cols,
    ));
    assert(grid_row(lens, names, cols, rows, ws, row, cols) + Seq::<char>::empty() =~= grid_row(
        lens,
        names,
        cols,
        rows,
        ws,
        row,
        cols,
    ));
}

} // verus!
