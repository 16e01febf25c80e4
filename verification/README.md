# shelly_web

Backend of a dashboard for a Shelly Plug S: it proxies the plug's meter
reading (with the plug's UTC offset added), keeps an optional SQLite archive
of readings, and serves the archive for a chart: one point per reading below
1440 readings; from 1440 readings on, one point per run of consecutive
readings of one day, stamped with the start of the hour of its first reading
below 43200 readings and with the start of the day from 43200 on.

- `src/` is the library, written in Verus: run options and their
  command-line handling, decimal parsing, the archive rows and units, the
  aggregation of archive entries and its laws, the decisions of the archive
  loop as a state machine, and the computing parts of the Shelly API
  (request URLs, authorization header, reading and adding the UTC offset
  through `serde_json`).
- `app/` is the program around it: configuration file and environment,
  HTTP requests (`minreq`), the SQLite archive (`rusqlite`, `csv`) and the
  web server (`actix-web`).
- `tests/` exercises the library.
