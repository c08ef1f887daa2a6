# eip8025

The rules by which a consensus node handles optional execution proofs (EIP-8025), written and
proved in Verus.

A validator may publish a signed proof that an execution payload is valid. A node keeps the proofs
that it is given, moves a payload from a buffer into its tree of blocks once the payload has enough
proofs, judges fork choice states by that tree, prunes what a final block rules out, asks its peers
for the proofs that it lacks, and stores its state across restarts.

## Layout

- `src/` is the library. Every function in it is verified, but for the few that call another crate.
  - `engine/` holds the proof engine: the state and its model (`state`, `state_model`), fork choice
    updates (`update`, `update_model`), pruning (`prune`, `prune_model`), the stored form and its
    bytes (`persisted_state`, `persisted_codec`, `store_item`), the engine itself (`proof_engine`)
    and its calls to a proof node (`proof_node_client`). What holds of all of it together is proved
    in `laws`, `soundness`, `prune_laws`, `engine_laws` and `reached`.
  - `sync/` decides when proofs are asked for, and of which peer.
  - `execution_proof`, `codec`, `ssz` and `encoded` are the types of proofs and their encodings.
  - `invalid_proof_tracker` bans validators that signed invalid proofs.
  - `api` and `proof_service` answer the beacon API and drive a validator's proof service.
  - `testing/` and `simulator/` are the rules of mock proof nodes and of local test networks.
  - `table`, `hash` and `text` are the maps, digests and texts that the rest is made of.
- `tests/` runs the library, and holds its encodings against the `ssz` crate.
- `app/` is ordinary Rust around the library: HTTP, events, locks, threads and JSON.

## What is trusted

The library calls `ssz_types` for bounded lists (`proof_data`), `hex` for hexadecimal digits
(`text`), `fnv` for the map of open requests (`sync/in_flight`) and `serde_json` for the parameters
and the method of a request (`testing/`). The contract of each such call is stated where it stands.
