# coda

The verified core of coda, a keymap-first terminal text editor.

- `src/model/`: the text buffer (UTF-8 lines, grapheme positions, LF/CRLF
  round trips), cursor movement, search, the undo history and the editor
  commands, each specified over an abstract view; `src/model/laws.rs` proves
  what spans several commands (one undo takes back a command, the redo after
  it brings it back, word motions are monotonic, matches never overlap).
- `src/overlay/`, `src/view.rs`, `src/session.rs`, `src/workspace.rs`,
  `src/document.rs`: the state machines behind the terminal front end,
  including what the command palette draws.
- `src/dispatch.rs`, `src/mouse.rs`: what each editor action and each mouse
  event does to the open documents and overlays; the caller performs the
  file writes and scrolling they ask for.
- `src/editor_draw.rs` and the `rows` functions of the overlays and the tab
  bar: what is drawn where, as a list of texts with their cells and styles
  (syntax colors are not part of this build), for a renderer to put on the
  terminal.
- `src/cli.rs`, `src/settings.rs`, `src/theme.rs`, `src/clipboard.rs`,
  `src/text.rs`: argument routing, `config.toml` settings, OSC 52 clipboard
  writes and shared text utilities.
- `src/verify.rs`: the `keymap verify` measurement, which records whether
  each chord the keymap relies on arrives as itself.
- `app/`: the program entry point and file I/O.

This build has no interactive front end: the terminal key decoder, the key
bindings, the syntax highlighter and the terminal renderer are not part of
it, so `coda` loads the files it is given and prints their tabs, and
`inspect-key`, `keymap verify` and `keymap import vscode` report that they
cannot run. The decisions those front ends make (actions, mouse events, the
palette, the overlays, the chord measurement) are in the library.

Grapheme clusters and word boundaries come from `unicode-segmentation`,
display widths from `unicode-width`, TOML parsing from `toml`, and white
space, trimming, lowercasing and a few conversions from the standard
library; each call goes through one small function. Where the documentation
gives the result in a few lines (white space, trimming, the ordering and
tiling of clusters and words), the contract states it; where it would take
pages (cluster and word boundaries themselves, which characters are
alphanumeric, display widths, case mapping, lossy UTF-8 decoding, `Debug`
quoting, which texts are valid TOML, the parsed tables and the parser's
error text), the contract names the result as a function of the arguments,
and the code around the call is proved against that name.
