# zed-rules-sync

Syncs markdown rule files into Zed's Rules Library (an LMDB prompt store).

- `src/` is the verified library:
  - `text.rs`: character primitives (ASCII case mapping, case-insensitive
    comparison) and the standard-library character operations it relies on;
  - `words.rs`: the model of splitting text into words and joining them back;
  - `types.rs`: filename to title and title to filename conversions, and the
    round-trip law for slug-form filenames;
  - `ids.rs`: rule identifiers, deterministic v5 UUIDs, and the test for
    rules this tool created;
  - `rules.rs`: listing rows, removal selection, and the sync tally that
    decides what is created, updated and pruned;
  - `files.rs`: which directory entries are rule files, and their order.
- `app/` is the command-line program: argument parsing, the `heed` store,
  the file system and printing.
- `tests/` exercises the library on concrete values.
