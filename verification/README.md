# rslides

A terminal slide presenter for Markdown decks, written in Verus.

Slides are separated by `---` lines (outside fenced code). A delimiter may carry a
small config (`--- {title: "..", columns: [1,3], image-mode: native}`), the first
slide may be a cover (`title:`, `sub_title:`, `author:`, `image:`), and HTML comments
inside a slide switch on reveal steps, set line spacing, pick a column or an
alignment. Slides are drawn with big ASCII titles, wrapped text, lists, quotes,
callouts, tables, highlighted code, and pictures shaded with block characters or
shown through the kitty or iTerm image protocols.

## Layout

- `src/` is the verified library.
  - `strings.rs`: character-sequence helpers and their specifications.
  - `markdown.rs`: the Markdown events of a slide, read through `pulldown-cmark`.
  - `parser.rs`: splitting a deck into slides, delimiter configs, covers, directives.
  - `builder.rs`: turning Markdown events into the blocks of a slide.
  - `model.rs`: the data of a deck and its views.
  - `render/`: layout of columns, text wrapping, big text, tables, code (through
    `syntect`), block-character pictures (through `image`), styling and the whole
    screen of a slide.
  - `app.rs`: navigation and reveal state, transitions, terminal frames and image
    commands, key handling and the decisions of the interactive loop.
  - `cli.rs`: command-line arguments: theme files, `--no-ansi`, `--fps`,
    `--line-spacing`, `--columns`, `--image-mode` and `--gif-mode`.
- `app/` is the program around it: terminal I/O with `crossterm`, file reading, SVG
  drawing with `resvg`, and the event loop.
- `tests/` holds the tests, run against the compiled library.
