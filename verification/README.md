# mev_pool_discovery

Discovery and state tracking of DEX liquidity pools (UniswapV2 and
UniswapV3), written in Verus: the library's behaviour is stated in
`requires` / `ensures` contracts and proved.

## Layout

- `src/` — the verified library.
  - `primitives` — 20-byte addresses and 256-bit words as plain integers,
    with their big-endian encodings.
  - `pool_metadata` — pool metadata and its validation.
  - `selection`, `pool_registry` — the registry of discovered pools: the
    main table (a `DashMap`) and the indices by protocol, token pair and
    creation block, with the laws that tie them together.
  - `monitors` — decoding of the factories' pool-creation events
    (`alloy-sol-types`, `alloy-primitives`).
  - `raw_state`, `tracker` — the UniswapV2 reserves slot and what a read of
    it means.
  - `storage` — keys, batches and scans of the persistent pool store.
  - `config`, `exex` — the service configuration and the decisions of the
    discovery service.
- `tests/` — tests run against the compiled library.
- `app/` — the I/O around the library: JSON configuration files, the RocksDB
  store, state reads through a node's provider, and the notification loop.
