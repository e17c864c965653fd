# soda_tui

The terminal user interface of a coding agent, as a verified library.

`src/` holds everything that is decided or computed: the transcript with its
tree of activities, the composer, the dialogs, the keyboard and mouse routing,
the queue of inputs, the slash commands, and the layout of a frame down to the
cells and styles to paint. Every function states what it does in its contract,
over sequences of characters and plain records; `laws.rs`, `view_laws.rs` and
`text_laws.rs` state most of what holds across several of them.

What the library has from other crates is behind a few trusted functions, each
with the claim that is made of it: widths (`unicode-width`), JSON
(`serde_json`), syntax colors (`syntect`), random bytes (`uuid`) and the split
of the screen (`ratatui`).

`app/` is the terminal around it: it reads events with `crossterm`, asks the
host program for what only that can answer, and paints scenes with `ratatui`.

| Modules | What they are about |
| --- | --- |
| `text`, `width`, `style`, `wrap` | characters, cells, colors, rows |
| `json`, `markdown`, `entries` | how entries of the transcript are shown |
| `model`, `spine`, `app` | the state and its mathematical model |
| `activity`, `snapshot`, `messages`, `events` | how the transcript changes |
| `input`, `picker`, `keys`, `commands`, `choices`, `runs` | what the user does |
| `kitty`, `artwork`, `history`, `renderer` | what is in view |
| `layout`, `scene`, `panes`, `draw`, `pace` | where it goes on the screen, and when |
