# kea

The logic of `kea`, a pacman/AUR helper for Arch Linux, as a Verus-verified
library, with a thin command line program around it.

- `src/` — the verified library:
  - `package` — package descriptions and the ordered package list;
  - `search` — database and AUR packages as plain values, the stable
    popularity order of AUR search results, and the lists that searches show;
  - `upgrade` — splitting installed packages into repository and AUR ones,
    the plan of AUR information requests, and which packages are outdated;
  - `config` — the configuration, the server table of the sync databases,
    and the configuration generated from pacman's settings;
  - `callbacks` — answers to libalpm's log, download and question callbacks;
  - `terminal` — colours, selection numbers, and reading the user's answers;
  - `kea` — the steps of a run, the package search session, the selection
    of packages by number, and the system upgrade steps.
- `app/` — the program: clap, the `~/.kea` TOML file, libalpm, the AUR web
  interface and the terminal.
- `tests/` — tests of the library.

AUR popularity scores are floats; the library orders packages by an integer
key that the program derives from the score (its magnitude bits, negated for
negative scores), which orders as the scores do.

libalpm's version comparison (`alpm_pkg_vercmp`, through alpm-rs) is called
by the program, not by the library: alpm-rs links the libalpm shared library,
which is not installed where this crate is built and tested, so a library
that called it could not link its tests. The library takes the comparison as
a function argument (`upgrade::outdated_aur`, `AurQueryPlan::request_answered`)
and states which versions it hands to it and what it does with each answer.

The original calls `handle_input` and `handle_yes_no` without defining them.
The library's versions are this crate's own: `handle_yes_no` reads the first
character of the line (the program trims leading blanks), and `handle_input`
takes the words of the line that write a number fitting in an `i32` and
passes over the others.
