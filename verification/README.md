# aparte

The screen library of a terminal XMPP client, verified with Verus: text
editing with vim-style motions and registers, the cell grid that views draw
into and the minimal redraw sent to the terminal, layouts, scrolling
windows, lists, popups, and the decisions of the chat screen.

## Layout

- `src/` — the library, with its contracts and laws proved by Verus.
  - `text`, `unicode`, `word`, `decimal`, `message_text`: terminal strings
    (escape sequences, visible length, truncation), grapheme clusters and
    widths, word splitting, numbers, message bodies.
  - `motion`, `vim`, `registers`, `text_editor`, `input`: the input line,
    its vim-style command parser, motions and registers.
  - `charxel`, `color`, `rendering`, `paint`, `redraw`, `screen`: cells,
    colors, the offscreen buffer, the difference between two frames and
    the operations that draw it, and buffered output.
  - `layout`, `linear_layout`, `dimension`, `label`, `popup`, `list_view`,
    `scroll`, `wrap`, `winbar`: measuring and placing views, and what the
    views show.
  - `completion`, `disco`, `ui`: completion of the input line, service
    features, and the windows and keys of the chat screen: what each
    conversation window shows, and the roster's groups.
- `tests/` — tests run against the compiled library.
- `app/` — the terminal side: crossterm output, serde settings, and the
  containers whose order or identity comes from the caller's own traits.
