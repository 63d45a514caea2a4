//! Core of a workflow runtime: definitions are JSON documents, instances walk
//! their states, and every rule of that walk is stated and proved here.

pub mod duplicate_laws;
pub mod fingerprint_laws;
pub mod hashing;
pub mod json;
pub mod json_text;
pub mod model;
pub mod owned_file_laws;
pub mod path;
pub mod pointer;
pub mod pointer_laws;
pub mod repo_git;
pub mod repo_git_laws;
pub mod repo_locks;
pub mod run_env;
pub mod runtime;
pub mod scan;
pub mod shared;
pub mod skills;
pub mod slot;
pub mod sandbox;
pub mod sandbox_laws;
pub mod sorting;
pub mod store;
pub mod structural_fingerprint;
pub mod templating;
pub mod text;
pub mod tier;
pub mod tool_catalog;
