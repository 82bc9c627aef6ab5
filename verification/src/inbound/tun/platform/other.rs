//! Systems on which traffic is not routed automatically.
use vstd::prelude::*;

use crate::config::inbound::TunInboundConfig;
use crate::inbound::tun::platform::command::Command;

verus! {

/// No commands: automatic routing is not supported here.
pub fn setup(_cfg: &TunInboundConfig, _if_name: &str) -> (r: Vec<Command>)
    ensures
        r@.len() == 0,
{
    Vec::new()
}

/// No commands: there is nothing to undo.
pub fn teardown(_cfg: &TunInboundConfig, _if_name: &str) -> (r: Vec<Command>)
    ensures
        r@.len() == 0,
{
    Vec::new()
}

} // verus!
