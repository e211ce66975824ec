# vault_sync

The deciding half of a two-way sync daemon for folders of Markdown notes: which
local changes are pushed, what a pulled note does to a local file, what is
recorded about both, and when the daemon has to hold back. Every decision is a
function with a contract, and [Verus](https://github.com/verus-lang/verus) proves
each contract.

## Layout

- `src/` is the library. It reads no file, opens no socket and asks no clock: it
  takes what was read and returns what to do.
  - `materializer`, `frontmatter`, `conflict_breaker`, `paths`, `scope`,
    `rasp_fence`: pulling.
  - `push_client`, `push_journal`, `push_rate_limit`, `sliding_window`: pushing.
  - `sync_shadow`, `base_seq_store`, `read_receipt`, `retry_ledger`,
    `tray_state`, `stores`, `path_map`: what is remembered.
  - `sse`, `pull_backfill`, `reconciliation`, `sync_health`, `redflag`,
    `persist`, `pairing`, `obsidian_install_detect`, `obsidian_plugin_detect`:
    the tasks around it.
  - `journal_laws`, `materializer_laws`, `note_laws`, `push_laws`: what holds of
    several operations together. Laws about a single module stand in it.
  - `text`, `numbers`, `digest`, `json`: the ground.
- `tests/` runs the library.
- `app/` is the daemon around it: disk, network, clock and background tasks.

## What is trusted

Functions of other crates are called behind small wrappers whose contracts are
believed: SHA-256 and hex (`digest`), Unicode normalization (`sync_shadow`), UTF-8
checking (`frontmatter`), JSON (`json`), YAML and calendar dates (`materializer`)
and base64 (`push_client`). Each wrapper says what it claims.
