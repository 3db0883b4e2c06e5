# godot_vim

The editor-side logic of a Vim mode for Godot's script editor, written in
Verus. The functions in `src/` carry contracts that Verus proves, except
for a few small wrappers around `unicode-segmentation` and std (marked
`#[verifier::external_body]`), whose contracts are trusted; the traits
through which the library reaches the editor's folds and the system
clipboard state what their implementations must do.

- `src/` — the verified library: key translation (`input`, `keymap`), text
  positions and the incremental line index (`text`, `lines`, `codec`,
  `document`, `graphemes`), the config file (`parser`, `config_types`,
  `sandbox`, `presets`, `mapping_service`, `config_path`), the decisions of a
  key cycle (`passthrough`, `pipeline`, `completion`, `controller`,
  `vimdebug`), editing effects (`dispatch`, `auto_brace`, `effects`,
  `cursor`, `scroll`, `multi_cursor`, `indent`, `navigation`, `status`),
  external-edit reconciliation (`reconcile`) and timing statistics (`perf`).
- `tests/` — tests of the library on concrete values.
- `app/` — the Godot glue: reads `CodeEdit` and input events, hands plain
  values to the library and performs the editor calls it decides on.
