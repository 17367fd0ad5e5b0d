# protocol

A DAG-based consensus protocol as a verified Rust library.

`src/` holds the protocol's components as state machines whose behaviour is
stated in `requires`/`ensures` contracts and proved:

- `block_storage`, `block_dag`: blocks by identifier; a block becomes available
  once all of its parents are; past cones of blocks.
- `tip_selection`, `block_factory`, `validator`: the tips, and the blocks a
  validator issues on top of them when a round completes.
- `vote`, `virtual_voting`, `consensus`, `consensus_round`, `consensus_feed`,
  `committee_selection`: votes, the heaviest and the latest accepted milestone,
  the acceptance of past cones, round tracking and the events they produce.
- `inbox`, `outbox`, `networking`, `simulator`, `sim`: queues and who a block
  is sent to.
- `plugin`, `plugins`, `config`, `protocol`: plugin names, the registry and the
  order in which plugins load, start and shut down.
- `index_set`: the `indexmap::IndexSet` calls the library makes.

`app/` runs the components on tokio: channels, workers and logging.
`tests/` exercises the library on concrete values.
