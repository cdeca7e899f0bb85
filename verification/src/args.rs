//! The command-line options.

use vstd::prelude::*;

verus! {

/// What to list and how: the path (`.` by default), `-a`/`--all` to show
/// hidden entries, `-l`/`--long` for the long format.
pub struct Args {
    pub path: String,
    pub all: bool,
    pub long: bool,
}

} // verus!
