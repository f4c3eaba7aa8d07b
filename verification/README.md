# rinku_node

The verified core of a DAG-based ledger node, written in Verus.

- `src/` is the library. Every function in it is verified against its
  `requires`/`ensures` contract. Calls into outside crates (SHA-256, hex,
  base64, BLS, Reed-Solomon, DEFLATE, randomness, the clock) and a few
  std functions that vstd does not specify go through small
  `#[verifier::external_body]` wrappers whose contracts are trusted; each
  says in its doc comment what it claims of the outside code.
  - `hashing`: digests, hex, base64 and decimal text.
  - `erasure`, `rs_codec`: data-availability shards with Merkle commitments.
  - `bls`: keys, signatures, aggregation and signer bitmaps.
  - `checkpoint`, `gather`, `qcc`: checkpoint hashes, the checks of a peer's
    checkpoint, vote acceptance and tallying, the network height, the
    transaction cap and the choice of a checkpoint's transactions.
  - `scheduling`: the checkpoint service's decisions from tick to tick:
    the pause after its own proposal, the behind-peers self-yield and
    delta-fetch timeouts, the gap-of-one fallback, the stuck-height counter,
    the expiry of a proposer's yield, when a proposer defers or yields, when
    a backup votes a leader timeout and takes over, what a finished or
    overdue certificate collection leads to, where a fetched checkpoint
    goes, tick pacing and pruning.
  - `consensus`: vote messages and the vote ledger.
  - `contracts`: gas, contract identifiers, the token contract's metering,
    state hashes and state diffs.
  - `emission`, `dag_pruning`: supply schedule and DAG retention.
  - `config`, `api`, `cbor_codec`, `benchmark`: settings parsing (the node's
    settings with their defaults and the genesis auto-detect rule), API values,
    length-prefixed framing, benchmark counters and latency statistics.
- `tests/` runs the library on concrete values.
- `app/` is the unverified glue: node configuration from the environment,
  pruning of the stored DAG, the checkpoint service's loop (it drains
  buffered checkpoints, gathers what a tick observes, asks `scheduling` what
  to do and does it), environment and stream I/O, floating-point economics
  and statistics, JSON contract state and the event bus.

Not here: applying a certified checkpoint to the chain state, the contract
storage manager and the gossip and network services work on the node's state,
storage and trie modules and the chain-state crate, which are not part of
this project; `app/` reaches them through the `CheckpointNode` and `DagStore`
traits, which the full node implements. The decisions taken around them
(whether a checkpoint still extends the tip, the finality-time window, the
scheduling above, which stored nodes to prune) are in `src/`.
