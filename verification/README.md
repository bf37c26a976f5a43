# memex

The editing core of Memex, a keyboard-driven markdown note editor, written
in Verus. Verus proves the library's functions against their
`requires`/`ensures` contracts and the laws stated as proof functions
(undo and redo, edit groups, folding, key bindings, slugs); the calls into
`ropey`, `toml`, `toml_edit`, `fuzzy-matcher` and a few std functions sit
behind small trusted wrappers whose contracts say what those crates do.

## Layout

- `src/` — the verified library
  - `vim/` — the vim state machine: counts, operators, motions, normal and
    visual mode keys (`motion.rs` says where each motion goes, `targets.rs`
    computes it, `operators.rs` turns ranges into edits)
  - `keymap.rs`, `commands.rs` — key combinations, bindings per mode, the
    editor commands they trigger
  - `undo.rs` — undo/redo history with typing coalescing and groups
  - `buffer.rs`, `history_text.rs` — the text and its history together:
    applying edits, and why undo and redo always find the text they expect
  - `editing.rs`, `normal_edits.rs` — cursor moves, selections and the
    edits of editor and vim commands; editing, undoing and redoing through
    the selection
  - `display_map.rs`, `line_style.rs`, `display_line.rs` — line kinds and
    inline styles, folded lines, and how a line is shown (wikilinks as
    their titles, folded headings marked) with offset maps between source
    and display
  - `utf16.rs` — offsets in UTF-16 code units for platform text input
  - `outline.rs` — org-style heading folding and heading navigation
  - `code_edit/` — bracket pairing and indentation inside fenced code blocks
  - `lines.rs` — whole-line ranges, diagram embed lines, moves between
    table cells
  - `document.rs` — a document held in a `ropey` rope, with dirty state
  - `palette.rs`, `command.rs`, `command_tables.rs` — commands, palette
    entries and fuzzy ranking
  - `candidates.rs`, `content_search.rs`, `ranking.rs` — the minibuffer's
    lists (notes, wikilinks, tags, orphans, vaults, themes) and full-text
    search with snippets
  - `confirm.rs`, `app_commands.rs`, `ex.rs` — what confirming a list,
    an application command or a `:` command does
  - `config.rs` — themes and the configuration file, and writing a theme
    into an existing file without disturbing the rest of it
  - `graph.rs` — the wikilink targets a note links to
  - `resource.rs`, `fs.rs` — PDF links, note slugs, titles and path parts
  - `diagram.rs`, `diagram_state.rs` — drawio style strings, colors,
    labels and which cells become which elements; diagram tools, selection,
    commands and snapshot undo
  - `bytes.rs`, `chars.rs`, `text.rs`, `number.rs` — UTF-8 text helpers
- `app/` — the binary around the library: configuration and note files,
  reading notes and directories for search and the vault opener, diagram
  import (floating-point geometry, XML and JSON)
- `tests/` — tests of the library

## Not held here

- Table column alignment (what Tab/Shift-Tab does to a table's column
  widths besides moving between cells) and the markdown parser it rests on
  are not part of this crate; the cell moves are.
- The markdown rendering of blockquotes and `[text](url)` links is not
  modelled: line kinds and inline styles cover headings, code, thematic
  breaks, emphasis, strikethrough and wikilinks. Wikilink extraction takes
  each line's style spans as given by that parser.
- The editor's command dispatch (which command calls which of the verified
  edits) lives with the GUI and is not verified as one function; each edit
  it calls is, and so is dot-repeat (`editing::dot_repeat`).
