//! Per-item ranked goal queues for a single economic actor: which of its
//! ends each available means should currently be applied toward.

pub mod goal;
pub mod model;
pub mod actor;
pub mod laws;
