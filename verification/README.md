# beditor

The decision-making core of a bevy scene editor, written in Verus and
proved against its contracts.

- `src/` is the verified library: entity selection and the events it sends,
  the hierarchy filter and tree decisions, list and set editing in the
  inspector, multi-entity editing, cutting large images into texture chunks,
  text layout runs, the editor's run state and shortcuts, camera drag state,
  change counting, the theme list of the appearance settings, and the pieces of layout saving that are plain logic.
  Calls into `smallvec`, `fuzzy-matcher`, `uuid`, `resvg` (tiny-skia) and
  `convert_case` go through small trusted wrappers whose contracts follow
  those crates' sources.
- `tests/` runs the library on concrete values.
- `app/` is the bevy application around it: systems, observers and egui
  widgets that read input, call the library with plain values and apply what
  it returns.
