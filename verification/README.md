# dobby_backend

Backend of a single-machine system-monitoring dashboard: it samples CPU,
memory and network rates, stores them in SQLite, serves current and
downsampled history over HTTP, lists and controls Docker containers, and
offers a browser terminal.

## Layout

- `src/` — the verified library (Verus):
  - `domain` — time ranges (wire strings, spans, bucket widths, parsing) and
    the application error;
  - `config` — the configuration read from an environment of name/value pairs;
  - `text`, `order` — verified text helpers (trimming, decimal parsing,
    splitting, lexicographic order) and the stable sort / de-duplication that
    give listings their order, with the laws that they sort and keep items;
  - `api` — HTTP decisions: error bodies, history validation, the current
    reply, the CORS allow-list;
  - `docker` — the model of what the Docker daemon reports and its mapping to
    the list and details bodies, lifecycle actions and daemon errors;
  - `collector`, `sampler`, `storage`, `terminal`, `clock` — the scripted
    collector, network counter bookkeeping, sampler settings and steps, the
    range-query window, the terminal's launch plan and frame handling, and the
    wall clock.
- `app/` — the program around it: environment, SQLite, sysinfo, the Docker
  daemon, the PTY, tokio loops, the axum server, and the floating-point metric
  types and rate computation.
- `tests/` — tests of the library.
