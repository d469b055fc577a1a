# cloudreve_sync_core

The decisions of a desktop client that keeps a local folder and a folder of a Cloudreve server in
step, written in Rust and proved with Verus.

- `src/` is the library. Every function states in its contract what it returns or changes, and
  Verus proves it. The library does no input or output: where the disk or the server has to be
  asked, a course says what to ask next and takes the answer.
- `tests/` runs the library on concrete values.
- `app/` carries out what the library asks for: it reads and writes files, talks to the server
  through the traits of `app/services.rs`, and offers the C functions of the file provider.

## The library

| Modules | What they hold |
| --- | --- |
| `path`, `order`, `path_map`, `aliases` | paths below the sync root, their order, maps over them, names that a disk may take for one another |
| `local_file`, `records`, `hashing` | fingerprints of local content, remote files, the records kept of what was synchronized |
| `sync`, `steps`, `plan`, `agenda`, `deletions` | what is done about each path, and in which order |
| `remote_scan`, `local_scan`, `work`, `reconcile`, `reconcile_laws`, `sync_error` | one reconciliation from its first listing to its last deletion |
| `scope`, `faults`, `provider`, `reading`, `mutations`, `change`, `change_laws` | requests of the file provider: reads, and changes that can be repeated |
| `events`, `commands`, `toast`, `finder` | when to synchronize, commands, notifications, the Finder helper |
| `text`, `outside` | texts, and the calls into other crates |

What is believed without proof stands in `outside` and, for `String::push`, in `text`: each item
names the function it calls and says what it claims of it.

## What is proved

Beside the contracts, the public proof functions state what holds of the library as a whole, for
every course of a reconciliation or of a change from its beginning on, whatever the answers are.
Among them:

- Nothing is deleted but what was synchronized and has not changed since; every remote deletion is
  soft; folders go only while they are empty, and the deepest entry first.
- A listing that failed, or a root that is missing, deletes nothing.
- A file on one side and a directory on the other pause the reconciliation, and so do two names that
  a disk may take for one another.
- Simultaneous edits keep both versions.
- The journal is written before the server is changed, and a repeated request gets the same answer
  without anything being asked of the server.
- A file that is looked up or listed outside the chosen folder is neither handed out nor changed.
