# Haul

Paste a link, queue it, download it, and keep only what passes its check.

The library in `src/` decides: what a link is, who is asked about it, what goes
into the queue, how a file is fetched, checked, named and kept. It is written in
Verus; every function states what it gives back, and the statements are proved.
It does no input or output.

`app/` does what the library decides. `app/main.rs` is the command line,
`app/window.rs` the root of the desktop window, which is built with tauri and is
not part of the command line's crate. Both share the other files there.

## Layout of the library

| Module | What it holds |
| --- | --- |
| `text`, `number`, `paths`, `calendar`, `clock` | texts, numbers, paths, dates and times |
| `json`, `pattern`, `web`, `codec` | values, patterns, addresses and encodings, by way of serde_json, regex, url and base64 |
| `browser` | a real browser: starting it, its protocol, its traffic, recording a tab |
| `cookies`, `direct`, `extract`, `gallery`, `page_images`, `song` | the ways to what a link holds |
| `verify` | what is checked of a file, by its kind |
| `engine` | names, queue, resolving, and one item from its job to its file |
| `log`, `settings`, `thumb`, `tools` | the record, the settings, little pictures, the programs in use |
| `cli`, `gui` | what the command line and the window need |

What is believed rather than proved stands in `json`, `pattern`, `web`, `codec`,
`text`, `direct` and `thumb`, each with a comment that says what is believed of
which function.

`tests/` holds tests that run the library with those crates.
