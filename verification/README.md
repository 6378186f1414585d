# venom_domain

A provider-agnostic vulnerability-management domain: managed components,
their immutable artifacts and release collections; canonical provider
snapshots and the findings they discover, repeat and withdraw; governance
decisions (risk acceptance, suppression, reopening); read-side projections,
pages and release dashboards; durable scan commands; an integration outbox;
and a bounded trail of operator-facing system events.

The library in `src/` is written in Verus. Every public function states its
result in an `ensures` clause over mathematical models (`Seq`, `Map`, `Set`
and the views of the library's types), and Verus proves the code against it.
Laws that relate several operations stand as public proof functions, such as
`durable_state::lemma_session_is_rebuilt` (a history of the events that live
work recorded, replayed, is never refused and rebuilds the state the work
left), `scanning::durable_scan_runtime::lemma_queue_session_is_rebuilt` (the
same for the scan command queue, its run order and pending integration
events included) or `findings::finding_tracker::lemma_repeated_snapshot_is_idle`.

Scope:

- The inventory holds components, their artifacts and providers, and
  collections with their members and scan schedules. It has no component
  tags, no registration or assignment of execution-context profiles, and no
  collection sources. So there is no tag-scoped governance, and no function
  that looks up a component's effective context. Callers that know the
  contexts hand them in as `ComponentContext` values: this is the
  `contexts` parameter of `findings::summarize_collection_health` and
  `findings::query_collection_governance_overview`.
- `ScanCommandQueue` is the one scan runtime: it holds the queue, and the
  decisions of its run and publication steps. app/ awaits the provider and
  the publisher and writes the history.
- The lowest severity and the lowest contextual risk level are named
  `NoImpact`, because `None` is a word of the Verus prelude.
- Every public function states its result in `ensures`, except where it
  depends on the clock. Those functions say what they do with each reading,
  and each has an `_at` twin that takes the reading as an argument and
  states its result exactly.

Layout:

- `src/inventory`: components, artifacts, collections and scan schedules.
- `src/findings`: provider reports and their contract, the snapshot tracker,
  governance, the read model, contextual risk, health and dashboards.
- `src/scanning`: scan planning, the collection scheduler, the durable scan
  command queue, and the Syft + Grype report builder.
- `src/integration`: integration events and the publication runtime.
- `src/operations`: the system-event trail and its query index.
- `src/durable_state.rs`: the domain state, the durable events each command
  records, and the replay that rebuilds a state from them.
- `app/`: what touches the world: the JSON-lines histories on disk, the
  Docker-run scanners, and the async loops that run scans and publish events.
- `tests/`: the library's tests.
