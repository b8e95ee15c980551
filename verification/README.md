# insight

A peer of the Insight game network. The node keeps a small ledger and a
chain of blocks, gossips blocks, transactions and player moves with its
peers, and, when it starts, asks its friends for their last block and
follows the block that most of them agree on.

- `src/` is the verified library (Verus): peer identities and peer-keyed
  maps, the bounty/online/friends lists, the transaction pool and the
  choice of a block's transactions, hashing of serialized values, key
  pairs, the most-frequent-answer vote, and the decisions the node takes on
  network events while it catches up with its friends' chain.
- `app/` is the program around it: the libp2p swarm, the RocksDB store,
  serialization, and the parts of the ledger that compute with `f32`
  balances.
- `tests/` exercises the library on concrete values.
