//! Where definitions and instances are kept.

pub mod definition_laws;
pub mod repo_definition_store;
pub mod store_file;
pub mod store_sqlite;
pub mod store_sqlite_aux;
