# velox

The verified core of a desktop UI toolkit, written in Verus.

- `src/` holds the logic with its proofs: UTF-8 text editing with undo and redo,
  selections and input composition, line starts and paragraph direction, keyed
  matching of child lists, the dispatch tree with capture and bubble paths, focus
  and tab order (with focus traps), hover, press, cursor and drag state, key
  bindings, the pending-input queue of text inputs, and the interaction
  coordinator that drives them from input events.
- `tests/` exercises the library on concrete values.
- `app/` is ordinary Rust around the library: text shaping, glyph rasterizing and
  caret geometry with `cosmic-text`, and kinetic scrolling, all of which compute in
  floating point.
