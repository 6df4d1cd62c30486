# resync

Resync finds comments that have gone stale: it pairs each comment of a source
file with the code right below it, reads the git history of both, and reports
the pairs whose code changed after the comment did, when no single commit
accounts for most of the code.

The library under `src/` is written in Verus. Its functions carry contracts
that Verus proves, except for a few small wrappers around `char`, `String`
and `aho-corasick` calls, whose contracts are taken on trust from those
libraries' documentation and source.

- `span.rs`, `scan.rs`: windows into a text and the scanning steps the
  comment and symbol scanners are built from.
- `parser.rs`, `parsers/`: the scanners for block and line comments, the
  JavaScript and TypeScript function scanners, the pairing of comments with
  the symbols below them, the Rust item pairing, and the choice of a parser
  for a file.
- `tools.rs`, `check.rs`: reading blame information over a symbol, the test
  for an out of sync pair, and the decisions of a check.
- `formatters/`: the reports, for people and for machines.
- `ignore.rs`: ignore patterns, matched with `aho-corasick`.

`app/` is the command line program around the library: argument handling,
git, the file system, the syntax trees of `syn` and `swc`, the database of
past checks, and printing.
