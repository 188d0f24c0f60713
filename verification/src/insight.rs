//! What another gear may ask Insight for, as plain values.

pub mod port;
