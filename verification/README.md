# pole-rust

Traffic-governance logic of the Pole service-mesh client, written in Verus. Every
function of the library carries a contract. Verus proves them all except those of the
few small functions that call std or an outside crate (regex, sha2, uuid, http), whose
contracts are taken as given and say in their doc comments what they claim.

## Layout

- `src/` — the verified library.
  - `model/`, `specification.rs` — instances, services, errors and the rule data the
    control plane pushes.
  - `plugins/cache/` — the resource cache (watched entries, pushes, reads) and the paths
    of its on-disk copies.
  - `plugins/connector.rs` — the discover protocol's decisions (watch keys, service
    contract lookups).
  - `plugins/router/`, `plugins/loadbalance/` — rule, lane and nearby routing; weighted
    round robin.
  - `plugins/circuitbreaker/` — per-resource circuit states and their transitions.
  - `traffic/` — the governance APIs: circuit breaking, fault detection planning and
    probe reading, rate-limit quota leases (local counter and the quota-server protocol),
    traffic security / mirror / mock evaluation, and the route's governance steps.
  - `text.rs`, `textsort.rs`, `keyed.rs`, `priority.rs` — text, ordering and keyed-list
    helpers the contracts are stated with.
- `tests/` — scenario tests of the library.
- `app/` — the I/O around the library: on-disk cache copies, mirrored requests over
  HTTP/1.1 and HTTP/2, and network fault-detection probes.

Laws that relate several operations (a cache read gives back the last write, lease
updates and settlements are idempotent, re-applying the same consumption totals changes
nothing, a refused reservation consumes nothing, no quota window or concurrency count
ever passes its limit, circuit transitions, weighted round robin picks each instance by
its weight over a full cycle, sampling depends only on the names and the sorted
metadata, endpoint bindings stick) stand in `src/` as public proof functions named
`law_*`.

Circuit breaking keeps one breaker per API: invoke handlers and the fault-detection
reporter (which owns the API while probes run) report into it, and an invoke handler
asks a rule refresher for the service's rules before it checks and before it reports.
