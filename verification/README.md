# subblock_executor

A verified library for executing Ethereum blocks in subblocks: a block is split into runs of
transactions that are executed and proved one by one, and an aggregation checks that the runs make
up the block.

- `src/client` executes a block or a subblock against a witness, stage by stage, and aggregates
  subblocks.
- `src/host` plans what to fetch, splits a block by gas, checks what came out, and lays out files.
- `src/rpc_db` holds the databases that answer execution and record what it asked for.
- The other modules hold the data: blocks, headers, receipts, accounts, state changes, the
  parameters of the chain.

Running transactions, updating state tries, network and files are the work of `app`, which hands
the library plain values and takes plain values back. `app` needs the engine, the state tries and
the prover beside the crates in `Cargo.toml`.

Every type has a model (`Data::model`), in which vectors are sequences and sorted maps are maps.
Contracts speak of the models. Functions named `law_*` state what holds across several functions,
such as that the subblocks of a complete split pass every check of the aggregation
(`host::subblock::law_split_aggregates`).
