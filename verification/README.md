# anyv-core

Shared substrate for `*v` language toolchain managers (`gv` for Go, `rv`
for Ruby), with its logic verified by Verus.

- `src/` — the verified library `anyv_core`: path algebra with std's unix
  and Windows meanings (`path`), the XDG directory layout (`paths`), ANSI styling, humanized sizes and durations and
  shell quoting (`presentation`), archive-format detection (`extract`), disk
  accounting and walk filtering (`fs`), the `<app>x` dispatch test
  (`argv0`), target triples (`target`), version comparison (`semver`) and
  the decisions of self-update, checksum verification included
  (`selfupdate`).
- `app/` — the unverified shell around it: environment lookup, the disk, the
  network, spinners and the process-wide `--quiet` flag.
- `tests/` — tests of the library, including comparisons against std's
  float formatting, `Path` and `char::is_whitespace`.
