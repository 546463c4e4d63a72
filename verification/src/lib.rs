//! Verified core of a BGP and BMP route collector and of its command line.

pub mod addr;
pub mod best_path;
pub mod bgp_in;
pub mod bmp_in;
pub mod cli;
pub mod clickhouse;
pub mod daemon_info;
pub mod flowspec;
pub mod ingress;
pub mod json;
pub mod keyed;
pub mod metrics;
pub mod order;
pub mod peer_stats;
pub mod representation;
pub mod rib_metrics;
pub mod roto_runtime;
pub mod sorting;
pub mod text;
pub mod toml_doc;
pub mod wire;
