# bosync

A git repository that behaves like a cloud drive: its files appear as placeholders, are hydrated
from git blobs on open, and are committed back on save. Beside the drive there is a small sync
protocol, in which a client asks whether the file versions it holds are current and gets the diffs.

## Layout

- `src/` is the library, in [Verus](https://github.com/verus-lang/verus): the decisions, with
  their contracts and proofs. It performs no I/O. An operation that alternates between deciding and
  looking at the world is a value that asks one question at a time and is resumed with the answer;
  its contract says to what every such exchange leads. The calls into gix, similar and the standard
  library that the proofs rely on are gathered in `src/trusted.rs`, each with the facts that are
  claimed of it.
- `app/` is the program around it: the command line, the gix repository, the FUSE and Cloud
  Filter mounts, and JSON. The fractions by which the sync scheduler is paced (the decay of a
  push deadline, the growth and the jitter of the fetch interval) are floating point, so
  `app/pace.rs` computes the scaled amounts and hands them to `src/schedule.rs`.
- `tests/` runs the library on concrete values.

`Cargo.toml` holds `kstring`, on which gix depends, at 2.0.2: later releases ask for a newer Rust
compiler.

## Commands

    bosync sample --repo DIR                     create a sample repository
    bosync mount --remote URL [--into DIR]       mount a remote as a drive
    bosync sync --repo DIR --manifest            list path, blob id and size of every file
    bosync sync --repo DIR --drive DIR           which files are stale, gone or new?
    bosync sync --repo DIR --serve               newline-delimited JSON on stdin/stdout
    bosync unmount                               clean up after an unclean exit (Windows)
