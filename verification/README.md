# aish

The core of an interactive shell front end with history, templates,
completion and AI prompts, written in Verus. The functions of the library
under `src/` carry contracts that Verus proves, except a few small
wrappers around standard-library and outside-crate calls (Unicode widths,
path extensions, lossy UTF-8, randomness, uppercasing), whose contracts
are trusted and say so in their doc comments.

## Layout

- `src/` — the verified library.
  - `text`, `display_width`, `input`, `picker`, `paste`, `modes`,
    `keybindings`: text handling, the line editor and its widgets.
  - `completion/`: token parsing, matching with typo tolerance, ranking,
    rendering, path completion and its ordering, and the work of the
    completion worker (tiers, cache, job coalescing).
  - `history`, `templates`, `log`: the records, the splitting of pasted
    text into commands, JSONL framing, trimming.
  - `config/`: the configuration model, its normalization and the
    directory layout.
  - `pty/`: the protocol with the backend shell — markers, output
    parsing and filtering, launch commands, syntax continuation.
  - `context`, `editor`, `encryption`, `encrypted_writer`, `git_remote`,
    `env_name`: context commands, the external editor, GPG plans and
    OpenPGP message splitting, the background encrypted writer's rules,
    remote and variable name rules.
- `tests/` — tests of the library on concrete values.
- `app/` — the parts that touch the machine: environment variables,
  files, processes and threads, and the serde forms of the records and the
  configuration. The decisions it needs are made by library calls.

The public proof functions state the laws of the library, for example
that a character inserted at the cursor and removed with backspace leaves
the buffer as it was, that quoting a word for the shell reads back as the
word, that JSONL written from records reads back as those records, and
that sorting path completions keeps them and puts them in order.
