# cleanix

A developer cleanup tool for macOS and Linux. It lists what development tools leave behind, and
removes what the user selects and confirms.

The library under `src/` holds the decisions and is verified with Verus: which paths may be cleaned
up, what is looked for and where, how what is found becomes items, how overlapping items are made
disjoint, what must hold before an item is removed and which step comes after which, and how the
interface answers to keys, clicks and events. It does no input or output: what the system says is
handed to it as plain values, and it hands back what to do next.

The program under `app/` asks the file system, other programs and the terminal, and does what the
library decides.

Conversations and the state of Codex are never cleaned up. Other directories
that must stay go into `ignore` in the settings.

## Where to start

| module | what it decides |
| --- | --- |
| `model` | items, actions, sizes and texts for people |
| `path`, `text`, `order`, `unique`, `index` | paths by component, texts, stable orders, sets |
| `natural`, `binary64` | numbers as doubles round and print them |
| `filesystem`, `platform`, `overlap` | what may be cleaned up, what it takes up, who owns a path |
| `providers`, `caches`, `projects`, `bounds`, `stores`, `extra`, `macos` | what is looked for on disk |
| `managed`, `docker`, `inquiry` | simulators, Android devices, Docker and what it is asked |
| `cleanup`, `removal`, `process` | how items are cleaned up, step by step |
| `scan`, `rows`, `ui`, `screen`, `options`, `config` | reports, the interface, the command line, settings |

Functions named `law_..` state what holds of the library as a whole: nothing is selected by itself,
nothing is cleaned up without confirmation, a dry run takes no step, no path is cleaned up twice, no
link is followed, and what changed since the scan is left alone.

What comes from other crates stands behind functions marked `external_body`, each with a comment
that says what is taken from it: JSON documents and strings from `serde_json`, dates from `time`,
and the width of text from `ratatui`; from the standard library, the lower case of a text, the
quoted form of a path, and adding a character to a text.
