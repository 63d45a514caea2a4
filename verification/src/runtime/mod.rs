//! The runtime: how an instance moves through the states of its definition.

pub mod agent;
pub mod agent_laws;
pub mod chain;
pub mod chain_effect_laws;
pub mod chain_laws;
pub mod chain_path_laws;
pub mod choice_laws;
pub mod context;
pub mod dispatch;
pub mod dispatch_laws;
pub mod effects;
pub mod guard_laws;
pub mod guards;
pub mod handle_laws;
pub mod lifecycle;
pub mod lifecycle_laws;
pub mod links;
pub mod runtime;
pub mod schema;
pub mod queries;
pub mod record;
pub mod record_laws;
pub mod records;
pub mod recovery;
pub mod recovery_laws;
pub mod refusal_laws;
pub mod request_laws;
pub mod response;
pub mod response_laws;
pub mod scope_laws;
pub mod script;
pub mod start;
pub mod start_laws;
pub mod submission_laws;
pub mod submit;
pub mod told_laws;
pub mod transition_resolver;
pub mod verdict_laws;
