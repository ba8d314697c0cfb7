# trae_agent

Trae support for a tool that attributes commits to their authors. The library
turns the events of the Trae editor's hooks into checkpoints, reads the
conversations that the editor writes, and keeps the editor's hook file in order.
It is written in Verus: what each function does is stated in its contract and
proved. What is believed without proof are the contracts of the outside functions
that it calls: those of `serde_json` in `src/json.rs`, and two of the standard
library in `src/text.rs`.

- `src/json.rs`: JSON documents, what they mean, and their text, which
  `serde_json` reads and prints.
- `src/hooks.rs`, `src/laws.rs`: the hook file, and what holds of it across
  installing and uninstalling.
- `src/installer.rs`, `src/extras.rs`: where Trae is found, what becomes of its
  hook files, and what is installed besides.
- `src/preset.rs`, `src/transcript.rs`: hook events and conversations.
- `src/text.rs`: searching, trimming and splitting text.
- `app/`: the files, the editor and the terminal around the library.
- `tests/`: the library run on examples.
