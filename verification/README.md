# raft_async

Concurrency exercises around one verified library: the dining philosophers (on
threads and on async tasks) and a Raft cluster simulated on async tasks.

The library in `src/` holds the logic, each function with a contract that Verus
proves:

- `raft/` — the Raft servers. `data/` holds the replicated log and what a server keeps
  (`persistent_state`, `volitile_state`), the messages (`request`), and sorted id sets
  and maps (`id_set`). `state/` holds the roles (`concrete/`: offline, follower,
  candidate, leader) and the step of a whole server (`state::State::handle_request`),
  each specified by a spec function of what one request does. `raft_server` is a first,
  simpler design of a server. `laws` proves properties that span requests: majorities
  intersect, terms never go down, a vote is given once, a re-delivered insert changes
  nothing, a leader only appends, and more. `machine` holds the summing state machine.
- `dinner_party/`, `dinner_party_async/` — forks, philosophers, the table and the
  decisions of a philosopher who tries to eat.
- `random` — the draws from `rand` that the logic uses.

`app/` runs the programs (`threads`, `dinner-party`, `dinner-party-async`, `raft`,
`raft-server`, picked by the first argument): threads, tasks, channels, clocks and
printing. The dinner parties read their guests from `philosophers.txt`.
