# BBRR Companion

A desktop companion for raid recordings: it watches a folder of recordings, asks the
server which raid pull each belongs to, uploads those that the user may upload, and
follows the combat log while a guild has a live session.

`src/` is the library that decides. It works on plain values, and Verus proves of every
function in it that it does what its contract says. `app/` is the program around it: the
window, the disk, the network and the keychain. `tests/` runs the library.

| module | what it decides |
|---|---|
| `scan`, `metadata`, `util` | which files are finished recordings, and whose |
| `matching`, `order` | which pull a recording belongs to, and the order of the list |
| `merge`, `lifecycle` | what a scan makes of the list, and what always holds of it |
| `upload`, `transfer`, `part` | the queue, one upload, one part of it |
| `combatlog`, `tailer`, `clock` | what the combat log says, and how it is followed |
| `auth`, `encoding`, `api`, `events`, `session` | signing in, requests and replies |
| `detect`, `settings`, `applog` | where things are, what is set, what is noted |
| `text`, `number` | the text functions the rest is built on |

Where the library calls another crate, the call stands in a small function marked
`#[verifier::external_body]` whose doc comment says what is taken on trust.
