//! The Git proxy's decisions that need no network.

pub mod forward;
pub mod sources;
