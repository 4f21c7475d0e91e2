# gpui_play

State and editing logic of a small GPUI drawing playground, written in Verus
and proved against its contracts.

- `src/` — the verified library:
  - `text_input` — a single-line text field: content, selection, grapheme-aware
    cursor movement, undo/redo, UTF-16 offsets for input methods, and the
    editing core of the text input view (clipboard, mouse drag, marked text).
  - `utf`, `graphemes` — byte and UTF-16 measures of text, and grapheme
    cluster boundaries (from `unicode-segmentation`).
  - `shape` — shapes, connectors and the canvas (selection, editing,
    copy/paste, delete, resize, undo/redo), the laws of undo and redo, and the
    drawing view's decisions for pointer gestures, keys and the clipboard.
  - `state_management`, `async_tasks` — a threshold counter and a task status demo.
- `app/` — the UI side that Verus does not see: floating-point geometry, the
  clipboard's JSON form, and the pointer-driven canvas API.
- `tests/` — scenario tests of the library.
