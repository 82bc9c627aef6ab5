//! Outbounds: where traffic leaves the proxy.
use vstd::prelude::*;

use crate::inbound::Target;
use crate::net::{IpAddr, SocketAddr};

pub mod laws;
pub mod xhttp;
pub mod xhttp_laws;

verus! {

/// Seconds of silence after which a connection is probed.
pub const TCP_KEEPALIVE_IDLE_SECS: u64 = 300;

/// Seconds between two probes of a connection.
pub const TCP_KEEPALIVE_INTERVAL_SECS: u64 = 75;

/// The size of the buffer through which octets are relayed.
pub const RELAY_BUF_SIZE: usize = 65536;

/// What is shown of an outbound.
#[derive(Debug)]
pub struct OutboundStatus {
    pub name: String,
    pub kind: String,
    /// The outbound that is selected, where there is a choice.
    pub now: Option<String>,
    /// The outbounds that there are to choose from.
    pub all: Vec<String>,
    pub history: Vec<OutboundDelay>,
}

/// How long an outbound took to answer.
#[derive(Debug)]
pub struct OutboundDelay {
    /// The tag of the outbound.
    pub name: String,
    /// Milliseconds.
    pub delay: u64,
}

impl OutboundStatus {
    /// What is shown of an outbound that does not say more: its tag, and that it is a proxy.
    pub fn of_proxy(tag: &str) -> (r: OutboundStatus)
        ensures
            r.name@ == tag@,
            r.kind@ == "Proxy"@,
            r.now is None,
            r.all@.len() == 0,
            r.history@.len() == 0,
    {
        OutboundStatus {
            name: tag.to_owned(),
            kind: "Proxy".to_owned(),
            now: None,
            all: Vec::new(),
            history: Vec::new(),
        }
    }
}

/// What is answered where an outbound that offers no choice is asked to choose.
pub fn not_selectable(tag: &str) -> (r: String)
    ensures
        r@ == "outbound '"@ + tag@ + "' is not selectable"@,
{
    let mut out = "outbound '".to_owned();
    out.append(tag);
    out.append("' is not selectable");
    out
}

/// What to do next to copy octets from one end to another.
#[derive(Debug, Clone, Copy, PartialEq, Eq, Structural)]
pub enum CopyStep {
    /// Read.
    Read,
    /// Write so many octets.
    Write(usize),
    /// Tell the writing end that no more will come.
    Finish,
}

/// Copying of octets from one end to another.
#[derive(Debug, Clone, Copy, PartialEq, Eq, Structural)]
pub struct CopyHalf {
    /// How many octets were copied.
    pub total: u64,
}

impl CopyHalf {
    /// Nothing was copied.
    pub fn new() -> (r: CopyHalf)
        ensures
            r.total == 0,
    {
        CopyHalf { total: 0 }
    }

    /// What to do after so many octets were read, or reading failed. No octets tell the end.
    pub fn after_read(&self, read: Option<usize>) -> (r: CopyStep)
        ensures
            r == match read {
                Some(n) => if n == 0 {
                    CopyStep::Finish
                } else {
                    CopyStep::Write(n)
                },
                None => CopyStep::Finish,
            },
    {
        match read {
            Some(n) => if n == 0 {
                CopyStep::Finish
            } else {
                CopyStep::Write(n)
            },
            None => CopyStep::Finish,
        }
    }

    /// What to do after so many octets were written, or writing them failed. Only octets that were
    /// written count.
    pub fn after_write(&mut self, n: usize, written: bool) -> (r: CopyStep)
        requires
            written ==> old(self).total + n <= u64::MAX,
        ensures
            written ==> r == CopyStep::Read && final(self).total == old(self).total + n,
            !written ==> r == CopyStep::Finish && final(self).total == old(self).total,
    {
        if !written {
            return CopyStep::Finish;
        }
        self.total = self.total + n as u64;
        CopyStep::Read
    }
}

/// How to find the address of a target.
#[derive(Debug)]
pub enum Resolution {
    /// It is known.
    Known(SocketAddr),
    /// Ask the system for the addresses of a name.
    AskSystem(String, u16),
    /// Ask the resolver of the proxy for the address of a name.
    AskResolver(String, u16),
}

/// The address of a target could not be found.
#[derive(Debug)]
pub struct LookupFailed {
    /// The name that has no address.
    pub name: String,
}

impl LookupFailed {
    /// The error in words.
    pub fn message(&self) -> (r: String)
        ensures
            r@ == "DNS lookup failed for "@ + self.name@,
    {
        let mut out = "DNS lookup failed for ".to_owned();
        out.append(self.name.as_str());
        out
    }
}

/// How to find the address of a target with the system.
pub fn resolve_target(target: &Target) -> (r: Resolution)
    ensures
        match *target {
            Target::Socket(addr) => r == Resolution::Known(addr),
            Target::Domain(host, port) => r matches Resolution::AskSystem(h, p) && h@ == host@ && p
                == port,
        },
{
    match target {
        Target::Socket(addr) => Resolution::Known(*addr),
        Target::Domain(host, port) => Resolution::AskSystem(host.clone(), *port),
    }
}

/// How to find the address of a target with the resolver of the proxy, or, where there is none,
/// with the system.
pub fn resolve_target_with_dns(target: &Target, has_resolver: bool) -> (r: Resolution)
    ensures
        match *target {
            Target::Socket(addr) => r == Resolution::Known(addr),
            Target::Domain(host, port) => if has_resolver {
                r matches Resolution::AskResolver(h, p) && h@ == host@ && p == port
            } else {
                r matches Resolution::AskSystem(h, p) && h@ == host@ && p == port
            },
        },
{
    match target {
        Target::Socket(addr) => Resolution::Known(*addr),
        Target::Domain(host, port) => if has_resolver {
            Resolution::AskResolver(host.clone(), *port)
        } else {
            Resolution::AskSystem(host.clone(), *port)
        },
    }
}

/// The address to use of those that the system gave for a name: the first.
pub fn first_address(found: &Vec<SocketAddr>, name: &str) -> (r: Result<SocketAddr, LookupFailed>)
    ensures
        match r {
            Ok(a) => found@.len() > 0 && a == found@[0],
            Err(e) => found@.len() == 0 && e.name@ == name@,
        },
{
    if found.len() > 0 {
        Ok(found[0])
    } else {
        Err(LookupFailed { name: name.to_owned() })
    }
}

/// The address to use of the one that the resolver of the proxy gave for a name.
pub fn resolved_address(ip: IpAddr, port: u16) -> (r: SocketAddr)
    ensures
        r == SocketAddr::of(ip, port),
{
    SocketAddr::new(ip, port)
}

/// A name and a port as one text, such as the system looks up.
pub fn host_and_port(host: &str, port: u16) -> (r: String)
    ensures
        r@ == host@ + ":"@ + crate::text::decimal(port as nat),
{
    let mut out = host.to_owned();
    out.append(":");
    crate::text::push_numeral(&mut out, port as u64, 10);
    out
}

} // verus!
