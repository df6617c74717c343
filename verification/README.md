# scada_core

The verified core of a SCADA data server, written in Verus.

- `src/` — the library, every item verified:
  - `hasher`, `measure_store`, `float_bits`: the in-memory ring of recent
    measurements of each value, its filters (unchanged readings, failures),
    and the buffer of readings waiting to be archived;
  - `live`: the last known state of nodes, devices and values, and what each
    web-socket subscriber is still to be told;
  - `vault`: values and events that clients write for each other, by tag;
  - `validation`, `auth`, `setup`: the rules requests and operator input
    must meet, tokens and roles;
  - `group_view`, `chart`, `text`: the UI view of a user group, chart
    colours, and parsing of id lists;
  - `code_decode`: encryption of the database configuration;
  - `routing`: where the controller sends each message;
  - `schemas`: the records of the database and API.
- `tests/` — tests of the library on concrete values.
- `app/` — the server around the library: HTTP routes, web sockets,
  database access, configuration files and logging.
