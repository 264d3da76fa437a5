# borlaug

The state and rules of the Borlaug chain's pallets — groups with proposals and
votes, decentralized identifiers with properties, claims and catalogs, audits with
observations and evidence, and asset registries with leases — as a library whose
behaviour is stated in contracts and proved with Verus.

Each pallet is a struct holding its storage maps as tables; each dispatchable is a
method that either refuses the call with an error, leaving the state as it was, or
changes the state exactly as its `ensures` clause states and returns the event.
What the runtime supplies — the current time, the block's randomness, the outcome
of a currency transfer, the origin of a call — is passed in as a plain value.

- `src/table.rs` — a map stored as a vector of entries, with prefix operations.
- `src/primitives.rs` — the records the pallets store, and their limits.
- `src/hashing.rs` — SCALE encoding and Blake2 hashing, the only outside calls.
- `src/groups.rs`, `src/collective.rs`, `src/collective_proposals.rs` — groups,
  proposals, votes and origins, and the proposals of a simple collective.
- `src/identity.rs`, `src/catalogs.rs`, `src/identity_queries.rs` — DIDs, claims,
  catalogs and the searches over them.
- `src/audits.rs` — audits, observations, evidence and their links.
- `src/asset_registry.rs` — registries, assets and leases.
- `src/weight_inputs.rs` — the lengths that the weight formulas take.
- `app/lib.rs` — the two catalog searches whose last comparison is a float
  comparison or a `LIKE` match.
