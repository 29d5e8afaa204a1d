//! Verified core of a CSV validation and repository-scanning toolkit.
//!
//! The crate checks CSV tables against declarative schemas, enforces
//! column-level contracts (time stamps, flag sets), builds JSON-ready error
//! reports, keeps the repository CSV index consistent, and hosts the small
//! registries used by the kernel and normalization layers.

pub mod text;
pub mod error;
pub mod schema;
pub mod csv_read;
pub mod validator;
pub mod flags_contract;
pub mod time_contract;
pub mod json_report;
pub mod paths;
pub mod scan;
pub mod kernel_registry;
pub mod index;
pub mod index_scan;
pub mod digest;
pub mod inventory;
pub mod evidence;
pub mod normalization;
pub mod risk;
pub mod cross_shard;
pub mod cross_plane;
