# kaizen-core

The core of kaizen, a dotfiles and workstation manager built on chezmoi,
Nix and Steel (Scheme) feature modules.

- `src/` is the library, verified with Verus: parsing of chezmoi output,
  feature and variant selection, the `data.toml` merge, configuration
  rendering, keybinding catalogs, the declarations collected by feature
  modules, the decisions of the sync backends, and the ordered maps and
  path ordering they rest on, and the reading and writing of `data.toml`
  `keybindings.toml` and `enabled.toml` through `toml`. Each public function states its
  result in its contract. Where an answer comes from a trait that users
  implement (`FileSystem`, `ChezmoiClient`, `DevToolsManager`, ...), each
  trait method names its answer with an `answers_...` relation (by default
  any answer), and the contract says which question was asked and what is
  made of the answer that came back. The laws of the library are public proof functions.
- `app/` is the program side around it: file and process I/O, serde
  (de)serialisation of the configuration types and JSON, the Steel interpreter, the sync backends' runs
  of external tools, and the floating-point TOPSIS ranking.
- `tests/` exercises the library on concrete values.
