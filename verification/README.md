# cograph

A graph store whose nodes, edges and hyperedges may point at whole
entities or at sub-objects inside them, with a log of every change that
can be replayed — written in Verus, with its behaviour stated in
contracts and proved.

## Layout

- `src/common/` — identifiers, path syntax (`Path`, `LocalObjPath`,
  `GlobalObjPath`), objects and fields, pointee sets, patches.
- `src/db/model.rs` — the mathematical model of a graph (`GraphV`), the
  meaning of each operation and of a replayed log, and the laws that
  relate them (cascades, undo, replay).
- `src/db/graph/` — `Graph`: queries, constructors, destructors,
  modifiers, the cascade of dangling references, and log replay.
- `src/db/object_patch.rs` — applying object patches and the shallow
  object diff.
- `src/db/paths.rs`, `src/db/incidence/` — simple-path and neighbourhood
  queries.
- `src/client.rs`, `src/protocol.rs` — the routing decisions of a client
  connection and the wire frames.
- `src/sdk.rs`, `src/jit.rs`, `src/batteries.rs` — view export names,
  the entropy stub for WebAssembly guests, bulk node creation.
- `app/` — the asynchronous client, the transport trait, the serde wire
  form of patches and the guest-side bindings; none of it is verified.
- `tests/` — tests of the library.

The external `uuid` crate supplies fresh ids, UUID parsing and UUID
text, and `getrandom` the error type of the entropy stub; those three
calls and that type are the library's trusted boundary.
