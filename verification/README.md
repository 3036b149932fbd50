# nxvim_core

The core of a modal text editor, verified with Verus. It holds the state of an editor and
says what each key, command and answer of the host does to it. It touches no file, no
terminal and no clock: what has to be read, written or matched is handed to the host and
comes back as a plain value.

## Layout

- `src/text.rs`, `src/rope.rs`, `src/unicode.rs`, `src/strings.rs`: texts as UTF-8 bytes,
  the rope that holds them, graphemes and screen columns.
- `src/buffer.rs`, `src/open.rs`, `src/points.rs`, `src/eol.rs`, `src/listing.rs`: buffers,
  their journals, undo, marks and line breaks.
- `src/command.rs`, `src/motions.rs`, `src/objects.rs`, `src/operate.rs`, `src/edit.rs`,
  `src/typing.rs`, `src/registers.rs`, `src/desk.rs`: the command grammar and what its
  commands do to the text at hand and to the registers.
- `src/layout.rs`, `src/splits.rs`, `src/window.rs`, `src/wins.rs`, `src/scroll.rs`,
  `src/rows.rs`: windows and what they show.
- `src/cmdline.rs`, `src/cmdcomplete.rs`, `src/search.rs`, `src/searching.rs`, `src/ex.rs`,
  `src/setting.rs`, `src/panel.rs`: the command line, searches, commands and lists.
- `src/editor.rs` and `src/editor/`: the whole editor. Its state is modelled by `World`, and
  each public function says which `World` it leads to. `editor/laws.rs` and
  `editor/fixed.rs` hold what is true of the editor as a whole.
- `app/`: a host that reads and writes files and passes the clipboard on.
- `tests/`: examples that run.
