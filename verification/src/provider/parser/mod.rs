//! Formats of subscriptions.

pub mod clash;
pub mod clash_laws;
