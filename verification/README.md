# vertic

The verified core of a Substrate-based chain node, written in Verus.

`src/` is the library; its functions carry contracts that Verus proves.
The exceptions are the small `#[verifier::external_body]` functions that
call `parity-scale-codec`, `blake2-rfc` and `lru`: their contracts are
trusted, not proved, and each says in its doc comment what it claims of the
crate it calls. The modules:

- `state_db` — the pruning window of the state database and its journal.
- `balances`, `tokens`, `accounts`, `common` — the runtime ledgers: native
  balances, multi-currency tokens with locks and reserves, and accounts
  with permission groups.
- `runtime`, `chain_spec` — the runtime's parameters and the genesis of
  the test networks.
- `slots`, `babe_rpc`, `basic_authorship`, `block_builder` — slot timing
  and back-off, the slot worker's decisions, the epoch authorship report,
  and the choice of a block's transactions.
- `gossip`, `gossip_engine` — the gossip state machine and the engine that
  forwards validated messages to subscribers.
- `list_cache`, `changes_tries` — the list-based cache of the database and
  the pruning of changes tries.
- `finality_proof`, `warp_sync`, `import_verifier`, `digest` — finality
  proofs, warp sync proofs, import verifiers and manual sealing.
- `scale`, `cli` — SCALE encodings made by `parity-scale-codec`, and the
  key-insertion command's key type.

Where a decision depends on the database, the network, the keystore or the
runtime, the library takes what was read as an argument, or is a step
function from state and event to next state and action.

`app/` is plain Rust around the library: the loops that read from those
services, described as traits, and carry out what the library decides.

`tests/` runs the library on concrete values.
