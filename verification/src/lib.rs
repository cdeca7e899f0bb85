//! A small `ls`: which entries of a directory are listed, in what order, and
//! how they are laid out in the short (columns) and long (`-l`) formats.

pub mod args;
pub mod clock;
pub mod color;
pub mod entry;
pub mod format;
pub mod layout;
pub mod listing;
pub mod text;
