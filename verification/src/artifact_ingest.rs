//! What a sync reads out of a repository it already walked.

pub mod activity;
pub mod checkout;
pub mod clone;
pub mod comment_threads;
pub mod graph_backend;
