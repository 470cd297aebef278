//! Orchestration of pluggable storage backends ("volumes") and of the storage
//! instances hosted on them: reconciliation of configurations, planning of backend
//! loads, registration of storage workers, and the administrative listing.

pub mod admin;
pub mod config;
pub mod diff;
pub mod model;
pub mod runtime;
