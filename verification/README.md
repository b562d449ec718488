# rchtmltopdf

> `wkhtmltopdf` interface, modern Chromium rendering.

A command line in the manner of `wkhtmltopdf` that prints HTML with a headless
Chromium, driven over the Chrome DevTools Protocol. The decisions it makes are a
library verified with [Verus](https://github.com/verus-lang/verus).

## Layout

- `src/` is the library. Each function states in its contract what it returns, and
  Verus proves that it does.
  - The command line: `table`, `tokenizer`, `apply`, `settings`, `run`.
  - A conversion: `convert`, `job`, `plan`, `layout`, `numbering`, `outline`, `toc`,
    `band`, `placeholder`, `clock`.
  - The browser: `locate`, `launch`, `framing`, `message`, `client`, `render`,
    `print`, `intercept`, `file_access`, `network`, `error`.
  - Documents and texts: `document`, `input`, `output`, `paths`, `text`, `numbers`,
    `encoding`, `json`.
- `tests/` runs the library.
- `app/` is the program around it: processes, pipes, files, and the arithmetic of
  lengths, which is floating point.

Trusted code, whose contracts are believed and not proved, stands in `encoding`,
`json` and `text`. It calls base64, serde_json and the standard library. The trait
`locate::Environment` is implemented outside of the library and believed to answer
consistently.

Laws that span several functions are public proof functions, whose names begin with
`law_`.
