# indexd

A webhook bridge between a ring that hears spoken commands and `internd`, which runs
them. A command comes in by `POST /hook`, goes out to `internd` over HTTP, and its
outcome comes back by a callback, with a sweeper that polls for whatever a callback
missed. A private web console shows the log and carries a kill switch.

## Layout

- `src/` is the library: the log of commands, the gates and what each path of the two
  listeners asks for and reaches, the configuration, the queue of the submitter, the
  decisions of the sweeper and the callback, and the engine that drives a terminal agent
  through tmux. It does no I/O beyond reading the clock and drawing random
  ids. Verus proves every contract but those listed below, and the proof functions named
  `law_*` state what holds across functions.
- `app/` is the daemon around it: the two HTTP listeners, SQLite, the HTTP client, the
  configuration file.
- `tests/` runs the library on concrete values.

## What is taken on trust

Calls into other crates stand behind small functions marked
`#[verifier::external_body]`, each with a comment that names the outside function and
says what its contract claims:

| Function | Calls |
|---|---|
| `tmux::extract::remove_matches` | `regex` |
| `ids::random_uuid` | `uuid` |
| `json::string_member` | `serde_json` |
| `auth::token::ct_same` | `subtle` |
| `auth::access::header_kid`, `has_key`, `key_fault`, `signed_claims` | `jsonwebtoken` |
| `db::epoch_secs`, `text::quote`, `text::u16_fault`, `String::push` | the standard library |

## Outcomes

`queued → running → done | timed_out | failed | cancelled`, plus `held` for whatever
arrives while the kill switch is off. The words are the same in the database, the JSON
API and the console. A command that has an outcome keeps it: a callback, a sweep or a
late answer to a submission that comes afterwards changes nothing.
