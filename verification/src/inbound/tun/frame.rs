//! How packets are framed on the TUN device.
use vstd::prelude::*;

verus! {

/// Protocol number of TCP.
pub const IPPROTO_TCP: u8 = 6;

/// Protocol number of UDP.
pub const IPPROTO_UDP: u8 = 17;

/// Protocol number of ICMP.
pub const IPPROTO_ICMP: u8 = 1;

/// Protocol number of ICMPv6.
pub const IPPROTO_ICMPV6: u8 = 58;

/// Ethertype of IPv4, as the packet information header carries it.
pub const ETHERTYPE_IPV4: u16 = 0x0800;

/// Ethertype of IPv6, as the packet information header carries it.
pub const ETHERTYPE_IPV6: u16 = 0x86dd;

/// Whether the device puts a packet information header in front of each packet. Linux does,
/// when asked to; the other systems do not.
#[derive(Debug, Clone, Copy, PartialEq, Eq, Structural)]
pub enum Framing {
    /// Four octets, of which the last two hold the ethertype, precede each packet.
    PacketInfo,
    /// A frame is a packet.
    Bare,
}

impl Framing {
    /// Where the packet starts in a frame.
    pub open spec fn start(self) -> int {
        match self {
            Framing::PacketInfo => 4,
            Framing::Bare => 0,
        }
    }

    /// What precedes a packet of the given ethertype.
    pub open spec fn prefix(self, ethertype: u16) -> Seq<u8> {
        match self {
            Framing::PacketInfo => pi_header(ethertype),
            Framing::Bare => Seq::empty(),
        }
    }

    /// Where the packet starts in a frame.
    pub fn offset(self) -> (r: usize)
        ensures
            r == self.start(),
    {
        match self {
            Framing::PacketInfo => 4,
            Framing::Bare => 0,
        }
    }

    /// The frame that carries a packet of the given ethertype.
    pub fn wrap(self, pkt: &[u8], ethertype: u16) -> (r: Vec<u8>)
        ensures
            r@ == self.prefix(ethertype) + pkt@,
    {
        match self {
            Framing::PacketInfo => prepend_pi(pkt, ethertype),
            Framing::Bare => {
                let r = vstd::slice::slice_to_vec(pkt);
                assert(Seq::<u8>::empty() + pkt@ =~= pkt@);
                r
            },
        }
    }
}

/// The packet information header: two octets of flags, two of ethertype.
pub open spec fn pi_header(ethertype: u16) -> Seq<u8> {
    seq![0u8, 0u8, (ethertype / 256) as u8, (ethertype % 256) as u8]
}

/// Puts the packet information header in front of a packet.
pub fn prepend_pi(pkt: &[u8], proto: u16) -> (r: Vec<u8>)
    ensures
        r@ == pi_header(proto) + pkt@,
{
    let mut out: Vec<u8> = Vec::new();
    out.push(0x00);
    out.push(0x00);
    out.push((proto / 256) as u8);
    out.push((proto % 256) as u8);
    assert(out@ =~= pi_header(proto));
    out.extend_from_slice(pkt);
    assert(out@ =~= pi_header(proto) + pkt@);
    out
}

} // verus!
