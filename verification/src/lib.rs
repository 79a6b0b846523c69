//! Orchestration of agent ensembles: ternary votes, scores of steps, and the
//! decision logic of the conductor.

pub mod trit;
pub mod names;
pub mod harmony;
pub mod measure;
pub mod score;
pub mod memory;
pub mod ensemble;
pub mod conductor;
pub mod baton;
