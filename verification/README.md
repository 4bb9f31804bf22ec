# Switchyard

The routing and request-preparation core of Switchyard, verified with Verus.

- `src/fleet_router.rs`: capability and readiness filtering of a candidate fleet,
  and its deterministic ranking.
- `src/resource.rs`: candidate selection from credential-pool state and the
  semantic contract of a request.
- `src/comfy.rs`: intake of a GPU host's snapshots and transition events into a
  bounded ledger.
- `src/client.rs`, `src/body.rs`, `src/headers.rs`, `src/retry.rs`,
  `src/error.rs`, `src/backend.rs`: which backend serves a call, what is sent to
  it, and what each outcome means.
- `src/reasoning_policy.rs`: reasoning policies and how each dialect writes them.
- `src/facts_config.rs`, `src/capability.rs`, `src/runner.rs`: deployment
  configuration and the route table.
- `src/text.rs`, `src/decimal.rs`, `src/json.rs`, `src/assoc.rs`,
  `src/cache.rs`, `src/request.rs`: the data that the rest works on.

Each public function states its result in `ensures`. Public proof functions state
what holds across functions. What rests on an outside crate or on std stands
behind a few trusted functions, each with a comment that says what is claimed of
the call.

`app/` holds the HTTP client, the clocks and locks, and the forms of the
configuration and of the wire payloads that files and hosts use. Times in the
library are integers: nanoseconds for delays and time limits, microseconds for
transition events. Shares of an allowance are millionths of a percent.
