# env_manager

A small desktop tool that manages SDK installations (Java, Scala, Go) under a
base directory: it lists the installed versions of each language, points the
language's environment variable at a chosen version, and downloads and unpacks
further versions from a remote catalogue.

The crate is split in two:

- `src/` is the verified library (Verus). It holds the tool's rules with their
  contracts: which directories are language categories (`manager`), the sorted
  list of installed versions and the folding of a lone top-level directory
  (`listing`), the resource catalogue, archive names, the choice of unpacker and
  the decisions of a streamed download (`remote`), the progress shown for a
  download (`progress`), and the character-level string operations these rest
  on (`text`).
- `app/` is the program around it: the egui window, environment variables,
  network requests, file-system work and archive unpacking. It hands the library
  plain values and carries out what the library decides.
