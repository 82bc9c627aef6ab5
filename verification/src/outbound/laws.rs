//! What callers may rely on of what the outbounds have in common.
use vstd::prelude::*;

use crate::inbound::Target;
use crate::net::{IpAddr, SocketAddr};
use crate::outbound::{
    first_address, host_and_port, not_selectable, resolve_target, resolve_target_with_dns,
    resolved_address, CopyHalf, CopyStep, LookupFailed, OutboundStatus, Resolution,
};
use crate::text::decimal;

verus! {

/// Copying reads and writes in turn: what was read is written, and the end of what there is to
/// read, or a failure, finishes it.
pub proof fn law_copies_write_what_they_read(c: CopyHalf, read: Option<usize>, r: CopyStep)
    requires
        call_ensures(CopyHalf::after_read, (&c, read), r),
    ensures
        read matches Some(n) ==> (n > 0 ==> r == CopyStep::Write(n)),
        read is None || read == Some(0usize) ==> r == CopyStep::Finish,
{
}

/// What was written counts, and the next thing is to read; what could not be written does not
/// count, and finishes the copying.
pub proof fn law_copies_count_what_they_write(
    c: &mut CopyHalf,
    n: usize,
    written: bool,
    r: CopyStep,
)
    requires
        call_ensures(CopyHalf::after_write, (c, n, written), r),
    ensures
        written ==> r == CopyStep::Read && final(c).total == old(c).total + n,
        !written ==> r == CopyStep::Finish && final(c).total == old(c).total,
{
}

/// A copying starts with nothing counted.
pub proof fn law_copies_start_at_zero(r: CopyHalf)
    requires
        call_ensures(CopyHalf::new, (), r),
    ensures
        r.total == 0,
{
}

/// A target with an address needs no lookup; a name is asked of the system, with its port.
pub proof fn law_names_are_asked_of_the_system(target: Target, r: Resolution)
    requires
        call_ensures(resolve_target, (&target,), r),
    ensures
        target matches Target::Socket(a) ==> r == Resolution::Known(a),
        target matches Target::Domain(host, port) ==> (r matches Resolution::AskSystem(h, p) && h@
            == host@ && p == port),
{
}

/// A target with an address needs no lookup; a name is asked of the resolver where there is one,
/// and of the system otherwise, with its port.
pub proof fn law_names_are_asked_of_the_resolver(target: Target, has_resolver: bool, r: Resolution)
    requires
        call_ensures(resolve_target_with_dns, (&target, has_resolver), r),
    ensures
        target matches Target::Socket(a) ==> r == Resolution::Known(a),
        target matches Target::Domain(host, port) ==> {
            &&& has_resolver ==> (r matches Resolution::AskResolver(h, p) && h@ == host@ && p
                == port)
            &&& !has_resolver ==> (r matches Resolution::AskSystem(h, p) && h@ == host@ && p
                == port)
        },
{
}

/// Of the addresses that were found the first is used; where there is none, the error names the
/// name.
pub proof fn law_first_address_is_used(
    found: Vec<SocketAddr>,
    name: &str,
    r: Result<SocketAddr, LookupFailed>,
)
    requires
        call_ensures(first_address, (&found, name), r),
    ensures
        r is Ok <==> found@.len() > 0,
        r matches Ok(a) ==> a == found@.first(),
        r matches Err(e) ==> e.name@ == name@,
{
}

/// An address that the resolver gave is used with the port of the target.
pub proof fn law_resolved_addresses_keep_the_port(ip: IpAddr, port: u16, r: SocketAddr)
    requires
        call_ensures(resolved_address, (ip, port), r),
    ensures
        ip matches IpAddr::V4(a) ==> (r matches SocketAddr::V4(s) && s.ip == a && s.port == port),
        ip matches IpAddr::V6(a) ==> (r matches SocketAddr::V6(s) && s.ip == a && s.port == port
            && s.flowinfo == 0 && s.scope_id == 0),
{
}

/// The texts of the outbounds name what they are about.
pub proof fn law_texts_name_their_subject(
    tag: &str,
    host: &str,
    port: u16,
    e: LookupFailed,
    refused: String,
    joined: String,
    failed: String,
)
    requires
        call_ensures(not_selectable, (tag,), refused),
        call_ensures(host_and_port, (host, port), joined),
        call_ensures(LookupFailed::message, (&e,), failed),
    ensures
        refused@ == "outbound '"@ + tag@ + "' is not selectable"@,
        joined@ == host@ + ":"@ + decimal(port as nat),
        failed@ == "DNS lookup failed for "@ + e.name@,
{
}

/// What is shown of an outbound that does not say more is its tag, and that it is a proxy.
pub proof fn law_outbounds_show_their_tag(tag: &str, r: OutboundStatus)
    requires
        call_ensures(OutboundStatus::of_proxy, (tag,), r),
    ensures
        r.name@ == tag@,
        r.kind@ == "Proxy"@,
        r.now is None,
        r.all@.len() == 0 && r.history@.len() == 0,
{
}

} // verus!
