//! Which color a name is shown in: links cyan, directories blue, executables
//! green (all bold), anything else plain.

use vstd::prelude::*;
use colored::{ColoredString, Colorize};
use crate::entry::FileEntry;

verus! {

#[verifier::external_type_specification]
#[verifier::external_body]
pub struct ExColoredString(ColoredString);

/// What `name.cyan().bold()` returns in the `colored` crate.
pub uninterp spec fn cyan_bold_of(name: Seq<char>) -> ColoredString;

/// What `name.blue().bold()` returns in the `colored` crate.
pub uninterp spec fn blue_bold_of(name: Seq<char>) -> ColoredString;

/// What `name.green().bold()` returns in the `colored` crate.
pub uninterp spec fn green_bold_of(name: Seq<char>) -> ColoredString;

/// What `name.normal()` returns in the `colored` crate.
pub uninterp spec fn plain_of(name: Seq<char>) -> ColoredString;

/// `colored`'s `Colorize::cyan` followed by `Colorize::bold` on a `&str`. Both
/// only build a `ColoredString` from the text (foreground cyan, bold style), so
/// the result is a function of the text alone.
#[verifier::external_body]
fn cyan_bold(name: &str) -> (r: ColoredString)
    ensures
        r == cyan_bold_of(name@),
{
    name.cyan().bold()
}

/// `colored`'s `Colorize::blue` followed by `Colorize::bold` on a `&str`: a
/// function of the text alone.
#[verifier::external_body]
fn blue_bold(name: &str) -> (r: ColoredString)
    ensures
        r == blue_bold_of(name@),
{
    name.blue().bold()
}

/// `colored`'s `Colorize::green` followed by `Colorize::bold` on a `&str`: a
/// function of the text alone.
#[verifier::external_body]
fn green_bold(name: &str) -> (r: ColoredString)
    ensures
        r == green_bold_of(name@),
{
    name.green().bold()
}

/// `colored`'s `Colorize::normal` on a `&str` (the text with no color or
/// style): a function of the text alone.
#[verifier::external_body]
fn plain(name: &str) -> (r: ColoredString)
    ensures
        r == plain_of(name@),
{
    name.normal()
}

/// The color scheme, as a spec: symlinks first, then directories, then
/// executables, then everything else.
pub open spec fn colorized(entry: FileEntry) -> ColoredString {
    if entry.is_symlink {
        cyan_bold_of(entry.name@)
    } else if entry.is_dir {
        blue_bold_of(entry.name@)
    } else if entry.is_executable {
        green_bold_of(entry.name@)
    } else {
        plain_of(entry.name@)
    }
}

/// Which color each kind of entry gets: a symlink is cyan whatever else it is
/// (a directory, or with execute bits, as symlinks usually have); a directory
/// that is not a symlink is blue; any other entry with execute permission is
/// green (all bold); everything else is plain.
pub proof fn lemma_colors_by_kind(entry: FileEntry)
    ensures
        entry.is_symlink ==> colorized(entry) == cyan_bold_of(entry.name@),
        !entry.is_symlink && entry.is_dir ==> colorized(entry) == blue_bold_of(entry.name@),
        !entry.is_symlink && !entry.is_dir && entry.is_executable ==> colorized(entry)
            == green_bold_of(entry.name@),
        !entry.is_symlink && !entry.is_dir && !entry.is_executable ==> colorized(entry) == plain_of(
            entry.name@,
        ),
{
}

/// How each kind of entry is shown: a symlink's cell is its name painted bold
/// cyan (or the bare name, when colors are off), whatever else it is; a
/// directory that is not a symlink is painted bold blue; any other executable
/// bold green; everything else is the bare name.
pub proof fn lemma_shown_by_kind(cell: Seq<char>, entry: FileEntry)
    requires
        shows_entry(cell, entry),
    ensures
        entry.is_symlink ==> cell == entry.name@ || cell == seq!['\x1B', '[', '1', ';', '3', '6', 'm']
            + escape_resets(entry.name@, bold_sgr(cyan_code())) + reset_seq(),
        !entry.is_symlink && entry.is_dir ==> cell == entry.name@ || cell == seq![
            '\x1B',
            '[',
            '1',
            ';',
            '3',
            '4',
            'm',
        ] + escape_resets(entry.name@, bold_sgr(blue_code())) + reset_seq(),
        !entry.is_symlink && !entry.is_dir && entry.is_executable ==> cell == entry.name@ || cell
            == seq!['\x1B', '[', '1', ';', '3', '2', 'm'] + escape_resets(
            entry.name@,
            bold_sgr(green_code()),
        ) + reset_seq(),
        !entry.is_symlink && !entry.is_dir && !entry.is_executable ==> cell == entry.name@,
{
    assert(bold_sgr(cyan_code()) =~= seq!['\x1B', '[', '1', ';', '3', '6', 'm']);
    assert(bold_sgr(blue_code()) =~= seq!['\x1B', '[', '1', ';', '3', '4', 'm']);
    assert(bold_sgr(green_code()) =~= seq!['\x1B', '[', '1', ';', '3', '2', 'm']);
}

/// The entry's name in the color that its kind calls for.
pub fn colorize(entry: &FileEntry) -> (r: ColoredString)
    ensures
        r == colorized(*entry),
        entry.is_symlink ==> r == cyan_bold_of(entry.name@),
        !entry.is_symlink && entry.is_dir ==> r == blue_bold_of(entry.name@),
        !entry.is_symlink && !entry.is_dir && entry.is_executable ==> r == green_bold_of(entry.name@),
        !entry.is_symlink && !entry.is_dir && !entry.is_executable ==> r == plain_of(entry.name@),
{
    proof {
        lemma_colors_by_kind(*entry);
    }
    if entry.is_symlink {
        cyan_bold(entry.name.as_str())
    } else if entry.is_dir {
        blue_bold(entry.name.as_str())
    } else if entry.is_executable {
        green_bold(entry.name.as_str())
    } else {
        plain(entry.name.as_str())
    }
}

/// The terminal reset sequence `ESC [ 0 m`.
pub open spec fn reset_seq() -> Seq<char> {
    seq!['\x1B', '[', '0', 'm']
}

/// The bold-and-color select sequence `ESC [ 1 ; <code> m`.
pub open spec fn bold_sgr(code: Seq<char>) -> Seq<char> {
    seq!['\x1B', '[', '1', ';'] + code + seq!['m']
}

/// The foreground code for cyan.
pub open spec fn cyan_code() -> Seq<char> {
    seq!['3', '6']
}

/// The foreground code for blue.
pub open spec fn blue_code() -> Seq<char> {
    seq!['3', '4']
}

/// The foreground code for green.
pub open spec fn green_code() -> Seq<char> {
    seq!['3', '2']
}

/// `s` with the select sequence `p` put back after each reset sequence inside
/// it, so that the color continues past it.
pub open spec fn escape_resets(s: Seq<char>, p: Seq<char>) -> Seq<char>
    decreases s.len(),
{
    if s.len() < 4 {
        s
    } else if s.take(4) == reset_seq() {
        reset_seq() + p + escape_resets(s.skip(4), p)
    } else {
        seq![s[0]] + escape_resets(s.skip(1), p)
    }
}

/// `s` painted with select sequence `p`: the sequence, the text (its inner
/// resets re-selecting `p`), and a reset.
pub open spec fn painted(s: Seq<char>, p: Seq<char>) -> Seq<char> {
    p + escape_resets(s, p) + reset_seq()
}

/// `r` shows `s` in bold with color `code`: painted when colors are on, as it
/// is when they are off.
pub open spec fn shown_as(r: Seq<char>, s: Seq<char>, code: Seq<char>) -> bool {
    r == s || r == painted(s, bold_sgr(code))
}

/// `r` is how `colored` displays `c`, for each of the four forms made here.
pub open spec fn display_of(r: Seq<char>, c: ColoredString) -> bool {
    forall|s: Seq<char>|
        #![trigger plain_of(s)]
        #![trigger cyan_bold_of(s)]
        #![trigger blue_bold_of(s)]
        #![trigger green_bold_of(s)]
        {
            &&& c == plain_of(s) ==> r == s
            &&& c == cyan_bold_of(s) ==> shown_as(r, s, cyan_code())
            &&& c == blue_bold_of(s) ==> shown_as(r, s, blue_code())
            &&& c == green_bold_of(s) ==> shown_as(r, s, green_code())
        }
}

/// `cell` is how `entry`'s name is shown: cyan for symlinks, blue for
/// directories, green for executables (all bold, or uncolored when colors are
/// off), and as it is for anything else.
pub open spec fn shows_entry(cell: Seq<char>, entry: FileEntry) -> bool {
    if entry.is_symlink {
        shown_as(cell, entry.name@, cyan_code())
    } else if entry.is_dir {
        shown_as(cell, entry.name@, blue_code())
    } else if entry.is_executable {
        shown_as(cell, entry.name@, green_code())
    } else {
        cell == entry.name@
    }
}

/// `ColoredString`'s `Display` (through `to_string`). Whether colors are on
/// depends on the environment (`NO_COLOR`, `CLICOLOR`, whether stdout is a
/// terminal). When they are off, or the string has no color and no style (as
/// from `normal()`), its text is written as it is. Otherwise `colored` writes
/// `ESC [`, the style codes (`1` for bold), `;`, the foreground code (`36`
/// cyan, `34` blue, `32` green), `m`, then the text with that sequence put
/// back after each reset inside it, then `ESC [ 0 m`.
#[verifier::external_body]
pub(crate) fn shown(c: &ColoredString) -> (r: String)
    ensures
        display_of(r@, *c),
{
    c.to_string()
}

} // verus!
