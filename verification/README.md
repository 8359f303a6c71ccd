# typingterm

A monkeytype-style typing test for the terminal, with its logic verified by Verus.

- `src/` is the verified library: the settings (`config`), the words, quotes and code
  snippets a test is made of (`words`, `data`), the typing engine (`word`, `typing`), the
  themes and their colour codes (`theme`), the program's state machine and key handling
  (`app`), what the screens show and where (`view`), and small text helpers (`text`,
  `clock`). Each public function states its result in its contract; the `law_*` proof
  functions state what holds across calls.
- `app/` is the terminal program: it reads and writes the settings file, parses the theme
  file, computes the floating-point speed figures, draws with ratatui and feeds key
  presses from crossterm to the library.
- `tests/` runs the library on concrete inputs.

## Bundled data

The word lists, code snippets and quotes in `src/data.rs`, and the themes that
`app/files.rs` bundles, are short samples: a few hundred English words per list, a few
dozen words for each other language, two snippets per code language, eight quotes and
fourteen themes. The logic does not depend on their size; longer lists can replace them
as they are, one entry per line (snippets separated by a line `---`, quotes as a source,
a tab and the text).
