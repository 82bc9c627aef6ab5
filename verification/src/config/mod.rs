//! Configuration.

pub mod inbound;

pub mod outbound;
