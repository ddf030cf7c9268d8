# xtask

Repository automation for Ember, run as `cargo xtask <command>`: the single
check that continuous integration and the hooks call, the dedicated server dev
loop, the schema recovery and diff, and the localization table writer.

The library under `src/` holds the rules and formats those commands work by,
each function with a contract stating what it returns and the laws between
them proved:

- `image`: a Windows executable read from its bytes, with virtual addresses
  and file offsets mapped through the section table.
- `schema`: the reflection descriptors, program records and network message
  registry recovered from an image, the printable strings in it, the record an
  extraction writes, and the diff between two extractions.
- `kfc`: the revision record in a data pack's header.
- `loca`: the localization tables a client's languages are written to.
- `root`, `steam`: the dev root's directories, the buildid rule and the Steam
  library refusal.
- `server`, `proc`: the configuration a run starts from, what a pid file
  names, and how a stop or a remote load is judged.
- `check`: the check's rows and how each is judged.
- `sig`: the seed list, file names and headless run arguments of the
  address-following stages.
- `policy`: readers over the repository's own configuration files.
- `text`, `order`, `ui`: text handling, string order and a sorted map, and the
  text of every line a command prints.

`app/` is the binary around it: argument parsing, files, processes and the
terminal. It also keeps what the library cannot hold: the table layout of
result rows, byte counts (floating point), and the sequencing of each
command's file and process work. The Windows process control (spawning,
attaching to and injecting into the server) is not part of this crate; on
every host the binary refuses those actions with the message the library
gives.
