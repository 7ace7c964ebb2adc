# pvlog storage core

Verified storage logic of a self-hosted photovoltaic monitoring platform, written in Verus.

`src/` is the verified library:

- `rollup_builder`, `merged_reader`, `summary_rebuild`: telemetry rollups over resolved windows,
  merged raw reads with source precedence, and idempotent daily/lifetime summary projections.
- `columns`, `segment_codec`, `external`: the columnar segment v1 envelope, its decoding, and the
  framing of its bytes with BLAKE3 digests and zstd compression.
- `integrity_planner`, `compaction`, `overlay_folding`: repair planning and the resumable phase
  machines of compaction and overlay folding.
- `migrations`, `provisioning`, `sqlite_router`, `sqlite_projection`: schema status, account
  database lifecycle decisions, pool limits and eviction, and exactly-once projection delivery.
- `worker`, `*_checks`, `yield_forecast`, `yield_results`, `repositories`, `target`, `text`: job
  policy and identity, record validation, and connection settings.
- `rbac_codes`: the stored text of permissions, built-in roles, role kinds, scopes and principals,
  and how it reads back.

`tests/` exercises the library with the real hashing and compression crates. `app/` holds what
cannot be verified: the protobuf form of segments, asynchronous drivers that perform the work the
library decides, serializable copies of report types, and error display text.
