//! Tools that registries offer: one normal form, read from several kinds of registry,
//! assembled into one catalog and ranked.

pub mod adapters;
pub mod candidate;
pub mod catalog;
pub mod ranking;
pub mod reading_laws;
pub mod registry;
pub mod search_laws;
