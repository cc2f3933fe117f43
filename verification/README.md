# rollout_coordinator

The control-plane logic of a multi-node RL rollout coordinator, written in
Verus: its functions carry contracts that Verus proves. The few that read
the machine clock (`wall_clock_ms`, `now_ms`, `system_now_ms`) have none:
their value is whatever the clock says.

- `src/work_item.rs`, `src/work_table.rs`, `src/keyed.rs`, `src/storage.rs` —
  the work ledger: a compare-and-swap state machine over work-item rows
  (`Pending -> Running -> Done`), the dispatch queue, and the in-memory
  store that holds the ledger, leases, epochs and the worker registry.
- `src/ledger.rs`, `src/steal.rs`, `src/mock_run.rs`,
  `src/dispatch_counts.rs` — FIFO dispatch, per-worker backlog,
  busiest-peer work stealing, and the mock-backend run that drives them end
  to end (with the counting that shows which peer it steals from).
- `src/lease.rs`, `src/epoch.rs`, `src/fence.rs`, `src/run.rs` — the
  coordinator lease with monotonic epochs, the worker-side epoch guard,
  self-fencing, and the stateless replay at boot.
- `src/registry.rs`, `src/failure_scan.rs` — worker registration,
  heartbeats, and the deadline-based failure scan.
- `src/drain.rs`, `src/config.rs`, `src/errors.rs`, `src/ids.rs`, … — spot
  drain plans, config checks, the error taxonomy and identifiers.
- `src/laws.rs` — properties spanning several operations (single-winner
  claims, ack/steal exclusion, lease exclusion and fencing, FIFO dispatch,
  epoch-guard monotonicity, report-once failure scans, bounded steals).

`app/` is the binary around the library: command line, TOML config
loading, the NDJSON event sink, and the periodic scan / lease-renew loop.
It holds the ledger in memory and has no signal handling, so it runs until
it is killed or fenced.

The store is an in-memory, sequential model of the ledger: every operation
completes atomically and cannot fail, so storage errors, undecodable rows
and concurrent interleavings within one compare-and-swap are outside it.
The single-winner and exclusion laws are proved over every sequential
order of the competing operations.
