# rust_qsim adapters

The verified core of the adapters through which a QSim run talks to its
external services: a routing service and an event-sharing service.

- `src/event_sharing/bins.rs`: the time-bin batching of shared events, the
  adapter state and its invariant; `bin_laws.rs` holds what the batching
  promises for each request and over whole runs of requests (no event lost
  or reordered, bins finalized in order, chunk numbers counting up, sorted
  events never late).
- `src/event_sharing/sender.rs`: the delay statistics, summary row, wire
  batch and counters of each chunk sent.
- `src/event_sharing/listener.rs`: numbering of link events per partition,
  and the counts of what became of events handed to the queue.
- `src/routing.rs`: route requests, their wire message, and replies turned
  into plans of alternating legs and activities.
- `src/flags.rs`, `src/profiling.rs`: measurement switches and CSV records.
- `app/`: environment, clock, CSV files, threads, queues, connections and
  the command line around the library.
