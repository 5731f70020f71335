# vocalcode

The core of a local dictation and meeting-notes application, written in Rust and
verified with Verus. `src/` holds the rules of the application: every function has
a contract, and Verus proves that its body keeps it. `app/` holds the program
around it (arguments, files, threads, sockets, the network), and `tests/` runs the
library on concrete values.

## Layout

| Part of the application | Modules |
| --- | --- |
| Text, lists, digests and JSON | `text`, `lines`, `seqs`, `sorting`, `digest`, `json` |
| The dictionary, what it learns, its file, and imports | `dictionary`, `learning`, `rules_file`, `migration` |
| Settings and how they reach the running engine | `settings`, `config_apply`, `transaction`, `model_setup` |
| The dictation engine and its clocks | `engine`, `clocks`, `history` |
| Meetings: detection, the card, recording, the record | `presence`, `reminder`, `prompt`, `bridge`, `controller`, `live`, `recognition`, `record`, `transcript` |
| Start, end, files, locks and the single instance | `cli`, `files`, `locks`, `recovery`, `instance` |
| Licences and updates | `licensing`, `update` |

Each type that a contract speaks of has a view, a ghost value made of sequences and
plain numbers. Where an operation of the desktop lies between two decisions, the
library has one function per decision: the caller performs the operation and hands
its outcome to the next one. Properties that span several operations stand as public
proof functions beside them.

Functions of `sha2`, `base64`, `serde_json`, `toml` and of Unicode in the standard
library are called through small functions whose contracts are trusted; their doc
comments say what is claimed.
