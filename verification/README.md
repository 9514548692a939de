# laramux

The core of a terminal dashboard for Laravel development, written in Verus:
every function in `src/` carries a contract, and Verus proves each one except
the few `#[verifier::external_body]` functions that call std or serde_json
(`push_char`, `to_lowercase`, `string_from_utf8`, `char_to_uppercase`,
`duration_from_secs`, `instant_now`, `parse_json_object`). Their contracts are
believed as written, not proved; the `Instant` type declaration is likewise
taken on trust.

- `src/entry.rs`, `src/json.rs`, `src/parser.rs`: Laravel log lines grouped into
  entries at the `[YYYY-MM-DD HH:MM:SS]` prefix, with environment, level,
  message, payload and context JSON blocks, and stack frames.
- `src/files.rs`, `src/logs_tab.rs`, `src/view.rs`: the logs tab — the file
  list order, live and static modes, the entry buffer, cursor, filters, and the
  styled text that the tab draws.
- `src/commands.rs`: the artisan, make and quality tabs — listing, searching,
  and resolving commands.
- `src/config.rs`, `src/number.rs`: the configuration tab and its editable
  drafts, which convert to and from the stored configuration.
- `src/process.rs`: the process registry, restart back-off, and the process
  manager's decisions.
- `src/text.rs`, `src/level.rs`: string helpers and log levels.

`app/` is ordinary Rust around the library: the application state, drawing
with ratatui, and running processes with tokio and nix.

Laws that span several functions are public proof functions named `law_*`.
