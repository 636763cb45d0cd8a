# omni

An enrollment service. Run one command on a new machine; thirty seconds later it
is in Termix in the browser, on any device. omni is not in the data path: it
writes configuration for rathole and Termix, which are.

The logic is a library verified with Verus; the program around it does the I/O.

```
src/     the library: what is decided and computed, with its contracts
tests/   the library at work on concrete values
app/     the program: command line, SQLite, HTTP, files
```

## The library

| Module | What it holds |
|---|---|
| `text` | text as sequences of characters: trimming, searching, replacing, numbers, columns |
| `clock` | instants in UTC, their RFC 3339 text, ages |
| `digest`, `random` | SHA-256, random bytes and identifiers |
| `util` | hexadecimal, hashed secrets, names that are safe to quote |
| `config` | settings and their defaults |
| `db` | the registry: machines and enrollment tokens, and what may be done to them |
| `rathole` | `server.toml` and `client.toml` |
| `json`, `termix` | the requests an upsert of a Termix host takes, and what the answers mean |
| `ops` | enrolling, the verbs of the command line, the report of `doctor`, stale markers |
| `serve` | what each HTTP endpoint answers |
| `laws` | what holds of the service as a whole |

The registry stands for the two tables of the database. Its invariant is that of
their schema: ids and ports belong to one machine each, deleted ones counted, and a
name to one live machine. The program loads the rows inside a transaction, lets the
library change them, and writes them back.

What depends on the clock or on chance comes in two forms. One takes the outcome as
an argument and says exactly what follows (`enroll_with`, `age_secs_at`,
`sweep_at`); the other draws it and calls the first (`enroll`, `age_secs`, `sweep`).

## What is trusted

Calls into other crates stand behind small functions whose contracts are believed
rather than proved. They are marked `external_body`, and each says in its comment
what it claims: the clock, RFC 3339 text and time differences of `chrono`; random
bytes of `rand`; identifiers of `uuid`; SHA-256 of `sha2`; reading and quoting JSON
with `serde_json`; and `String::push` of the standard library. The program in
`app/` is ordinary Rust and not verified.

## Use

```sh
omni token new --name laptop
# prints:  curl -fsSL https://omni.tld/install.sh | sudo sh -s -- <token>
# run that on the new machine; it appears in Termix.
omni ls
```

`omni serve` reads the installer it serves from the path given by `--install-sh`
or `OMNI_INSTALL_SH`.
