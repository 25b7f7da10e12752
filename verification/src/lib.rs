//! Offline mirror of a repository's issues and pull requests.
//!
//! The library holds the cache of repositories, issues, labels and reaction
//! tallies, the policy that decides which cached issues are due for another
//! look, and the engine that works through the pages of a remote and
//! reconciles each record into the cache. Fetching pages and keeping the
//! cache in a file are left to the program around it.
//!
//! - [`store`] is the cache, [`store_model`] what it means, [`store_laws`]
//!   what every write preserves.
//! - [`staleness`] is the policy, on instants that [`clock`] reads and
//!   writes.
//! - [`reconcile`] writes one record; [`sync`] runs a pass, page by page;
//!   [`sync_model`] and the laws in [`sync_laws`], [`reconcile_laws`],
//!   [`growth_laws`] and [`replay_laws`] say what a pass amounts to.
//! - [`query`], [`render`] and [`names`] serve a front end: lists, lookups,
//!   and the plain parts of what it prints and reads.

pub mod clock;
pub mod error;
pub mod growth_laws;
pub mod models;
pub mod names;
pub mod query;
pub mod reconcile;
pub mod reconcile_laws;
pub mod remote;
pub mod replay_laws;
pub mod render;
pub mod staleness;
pub mod store;
pub mod store_laws;
pub mod store_model;
pub mod sync;
pub mod sync_laws;
pub mod sync_model;
pub mod text;
pub mod text_order;
