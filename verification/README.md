# indexer

A verified core for a set of Internet Computer canisters that index the
transfers of an ERC-20 token (DAI) and measure how concentrated its holdings
are.

- `src/` is the library, verified with Verus:
  - `network`, `config`: supported chains, the token's address and creation
    block per chain, the indexing settings;
  - `indexer_store`, `indexer`: transfer events by block, the error log, the
    sync schedule, what a log fetch does to the store, publishing batches;
  - `mapping_store`: balances built from transfers, the index of accounts by
    balance behind the largest-holders query, the total supply;
  - `hhi`: the Herfindahl-Hirschman index of the largest holders;
  - `snapshot`: periodic index snapshots by time;
  - `relayer`: the relayer's settings and address formatting;
  - `bignat`, `address`, `principal`: amounts, Ethereum addresses and
    canister ids, whose arithmetic and parsing are done by `candid`,
    `ic-web3-rs` and `hex`.
- Stored state is held in verified structures: the event store and the
  balance index are vectors kept in key order (`sorted_map`, `HolderIndex`),
  the balances a list of distinct accounts, the HHI snapshots a `HashMap`.
  Stable-memory collections cannot hold these types, whose items would need
  that crate's derives.
- `app/` holds the canister endpoints, state cells, inter-canister calls and
  timers around the library.
- `tests/` runs the library on concrete values.
