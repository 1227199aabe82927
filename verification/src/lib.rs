//! Filesystem usage aggregation engine: directory statistics, extension
//! distributions, mount-point resolution, and threshold monitoring decisions.
//!
//! The engine works on an in-memory snapshot of a directory subtree
//! ([`fstree::FsEntry`]): the caller lists directories and reads metadata,
//! records every failure and symlink in the snapshot, and the aggregation,
//! resolution and monitoring decisions here are pure functions of it.

pub mod alerts;
pub mod dist;
pub mod fstree;
pub mod models;
pub mod monitor;
pub mod mount;
pub mod order;
pub mod paths;
pub mod scan;
pub mod settings;
pub mod strings;
