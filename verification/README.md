# ls-rs

A small `ls`: it lists a directory (or a single file) either as names in
columns fitted to the terminal, or, with `-l`, as one line of metadata per
file. `-a` also lists hidden entries.

The library under `src/` holds the listing logic and is verified with Verus:

- `entry.rs` — a listed file, built from its path and metadata;
- `listing.rs` — which entries are listed and their order (case-insensitive,
  stable), and the choice between the two formats;
- `layout.rs` — how many columns the short format uses and how wide they are;
- `format.rs` — the short and long formats, permissions, owner names, and the
  laws on their line structure;
- `clock.rs` — the date column, through `chrono`;
- `color.rs` — the color of each name, through `colored`;
- `text.rs` — decimal numerals and padding.

`app/main.rs` parses the command line with `clap`, reads the file system,
asks the user and group databases (through `users`) for the owners' names,
and prints the result. The long format takes those answers as a table of ids
and names, and shows an id that the table does not name as its number.

The long format reads the current time from the system clock (before 1970
too). When the clock reads a time that cannot be shown in local time, every
date shows its year.
