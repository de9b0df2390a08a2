# tl_cli

The verified core of `tl`, a wget-like command-line download tool.

- `src/` is the library, verified with Verus:
  - `text` — character-level string operations (`split_once`, `trim`,
    `rsplit`, integer parsing and formatting) with exact specifications;
  - `headers` — a header map keyed by name;
  - `cli`, `config` — command-line options, built-in defaults, merging of
    configuration files and command-line overrides;
  - `callback` — progress events and the slot holding their sender;
  - `download` — file names from URLs, save paths, renaming of partial files,
    engine settings and the active-file list of the progress display;
  - `engine` — file pre-allocation decisions, buffer pool, download status,
    chunk splitting, re-splitting of the busiest chunk, per-chunk byte
    accounting and response-header parsing.
- `tests/` exercises the library on concrete values.
- `app/` is the program around it: argument parsing, YAML files, the C
  callback, the async download loop and the network I/O.
