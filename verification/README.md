# rover

The core of the Rover file manager, written in Verus. The functions in `src/`
carry contracts that the verifier proves, except the small wrappers around
outside crates and the standard library, whose contracts are trusted: each
says which function it calls and what its contract claims of it.

## Layout

- `src/` — the verified library.
  - `text`, `paths`, `json`, `status_map`, `order` — strings, paths, JSON values
    and ordered maps as the rest of the library reads them.
  - `path_codec`, `settings` — decoding of `file://` and percent-encoded paths,
    the settings document with its favourites and pinned folders.
  - `drives`, `trash`, `fs_ops`, `file_actions`, `operations_queue` — mounted
    drives, the freedesktop trash, directory listings, copy/move/delete
    bookkeeping and the queue of running operations.
  - `vcs`, `vcs_git`, `vcs_pig` — project detection, status parsing, diffs and
    the background status jobs for Git and Pig.
  - `chooser`, `portal`, `file_manager_bus`, `web_entry`, `system_status`,
    `window_shape` — the file chooser portal, the file manager D-Bus service,
    where the web front end is found, and the window's appearance.
- `tests/` — tests of the library on concrete values.
- `app/` — the program around the library: command dispatch, file system and
  process I/O, and the D-Bus services.

