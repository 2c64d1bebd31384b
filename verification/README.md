# Kestrel

A verified core for a Kestrel validator: Byzantine fault tolerant ordering with a
fast path, erasure-coded block propagation, localized fee markets, and optimistic
parallel execution with ordered commit. Every function under `src/` is proved
against its contract with Verus; `app/` is the ordinary program around it.

## Layout

| Module | What it holds |
| --- | --- |
| `types`, `bytes`, `ordered` | hashes, addresses, transactions; byte encodings; ordered maps and sets |
| `crypto` | Ed25519 and BLS12-381 signature schemes, the scheme registry |
| `consensus` | validator sets, votes, certificates, proposals, the replica's safety rules |
| `mempool` | fee ledger, localized fee markets, block selection |
| `execution` | fast-path classification, ordered commit, deferred execution |
| `network` | shreds and relay plans, the reactions of the gossip service |
| `node` | genesis, consensus rounds, block lifecycle, the proposal pipeline |
| `app` | command line, sockets, libp2p, files, worker threads |

Public proof functions whose names begin with `law_` state what holds across
functions: that replicas never finalize two blocks at one height while less than a
fifth of the stake is Byzantine, that settlement neither mints nor burns, that a
collected certificate verifies unless its aggregate signature is the neutral group
element, that parallel execution ends and fails where sequential execution does.

What rests on other crates (`blst`, `ed25519-dalek`, `bcs`, `hex`, `libp2p`,
`rand`, `reed-solomon-erasure`, `sha2`, `tokio`) is called through small functions
whose doc comments say what is taken on trust.
