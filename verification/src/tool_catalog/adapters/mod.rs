//! One module for each kind of registry: how its own form becomes the normal one.

pub mod github_org;
pub mod mcp_registry;
pub mod rest;
pub mod static_adapter;
