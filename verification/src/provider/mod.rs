//! Providers: where sets of outbounds come from.

pub mod parser;
