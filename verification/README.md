# logquest

A verified library for following EverQuest logs and reacting to them with
triggers, and a thin command-line program around it.

- `src/` is the library, written in Verus: every function carries a contract
  that Verus proves. It holds the GINA pattern language and its compilation,
  matchers and filters, templates, trigger storage and its mutations, the GINA
  package reader and its conversion, log file names and lines, cursors into log
  files, the active character, the timer rules, the configuration rules and the
  approval of system commands. Calls into outside crates (`fancy-regex`,
  `regex-syntax`, `ring`, `base64`, `machine-uid`, `uuid`, `rand`, `chrono`,
  `zip`, `xml-rs`)
  stand behind small trusted wrappers whose contracts are documented where they
  are declared.
- `tests/` runs the library on concrete values.
- `app/` is ordinary Rust: the command line (`clap`), the configuration file
  (`toml`), the stored triggers (`serde_json`), reading the bytes of GINA
  package files, and a polling loop that follows the logs, hands each event to the
  library and performs the actions it decides on.
