//! Verified storage logic for a photovoltaic telemetry platform: rollup construction,
//! merged raw reads, columnar segment encoding, summary projections, integrity planning,
//! migration status, account database lifecycle decisions, and projection delivery rules.

pub mod rollup_builder;
pub mod merged_reader;
pub mod columns;
pub mod external;
pub mod segment_codec;
pub mod summary_rebuild;
pub mod integrity_planner;
pub mod text;
pub mod compaction;
pub mod overlay_folding;
pub mod migrations;
pub mod provisioning;
pub mod sqlite_projection;
pub mod sqlite_router;
pub mod worker;
pub mod account_checks;
pub mod telemetry_checks;
pub mod operational_checks;
pub mod management_checks;
pub mod administration_checks;
pub mod yield_forecast;
pub mod yield_results;
pub mod repositories;
pub mod target;
pub mod rbac_codes;
