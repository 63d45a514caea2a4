//! Slots of the blackboard: what may be written to them, and what they are.

pub mod constraint_laws;
pub mod globs;
pub mod slot_constraint;
pub mod slot_table;
pub mod slot_table_laws;
