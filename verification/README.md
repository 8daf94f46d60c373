# sightingdb

SightingDB counts sightings: a value written under a namespace gets the time
it was first and last seen, its count, hourly statistics, and a consensus
(how many namespaces hold the same value, counted under `_all`). Reads are
counted too, under `_shadow/` followed by the namespace. The read route
takes its value in URL-safe base64 without padding.

The library (`src/`) is written in Verus; its functions have contracts,
proved by Verus, except the small wrappers that call outside code, whose
contracts are believed and say what the outside code does.

- `daemon/`: the daemon's attributes (`attribute`, `stats`), its namespaced
  database (`db`), reading and writing (`sighting_reader`,
  `sighting_writer`) and the answers of its web routes (`server`).
- `json`: JSON string literals; the daemon's answers are built from them
  and proved character by character.
- `table`: a string-keyed table whose values can be changed in place.
- `client/`: the interactive client's database and command reading.
- `attribute`, `db`, `db_read`, `db_write`: a plain counting database.
- `b64`: URL-safe base64 of values, both ways.
- The wrappers: `regex_calls` (regex), `b64` (base64, `String::from_utf8`),
  `json` and `daemon/stats` (serde_json), `daemon/attribute` (the system
  clock, chrono's dates) and `text` (`String`).

`app/` holds the programs: the daemon (actix-web server, configuration,
daemonizing), the client (rustyline prompt) and `b64`. `tests/` exercises
the library on concrete values.
