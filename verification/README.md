# fff

The control plane of a file search engine that runs as a master process and
worker processes, one index per project root, with clients that talk to them
over Unix sockets. The library is written in Verus: every function carries a
contract, and the contracts are proved.

## Layout

- `src/` is the verified library.
  - `path`, `text`, `text_order`, `order`, `disk`: paths by component, texts,
    and orders, as the rest needs them.
  - `types`, `protocol`, `verbs`, `codec`, `wire`: the messages, the JSON
    envelope, frames, and the way between requests and envelopes.
  - `config`, `routing`, `registry`, `listing`: settings, the routing table,
    and the roots that are listed, registered and evicted.
  - `master`, `supervise`, `frontdesk`: which worker serves a root, when
    workers are restarted, stopped and adopted, and what the master answers.
  - `worker`, `session`, `query`, `handlers`: which loaded root serves a
    connection, how connections go on, what the index is asked, and what is
    answered.
  - `client`, `pool`, `lifecycle`: how a client finds an engine, recovers and
    ends.
  - `git`, `exclude`: git statuses, and what is kept out of an index.
  - `ctl`, `ctl_clean`, `ctl_stop`: the operator's tool.
- `tests/` runs the library on concrete values.
- `app/` holds what touches the outside world: sockets, files, signals,
  processes, encodings and the command line. It asks the library what to do,
  does it, and hands back what happened.

## What is trusted

The library calls two outside crates through small wrappers whose contracts
are believed: `ahash`, for the map of git statuses (`git`), and `ignore`, for
glob rules (`exclude`). `protocol` carries `serde_json` values without looking
into them. `path` uses `String::push` of the standard library.

Public functions with a `requires` name it; the callers in `app/` test it
before they call.
