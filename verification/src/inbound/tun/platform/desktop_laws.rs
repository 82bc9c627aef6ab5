//! What the routing on macOS and Windows comes to: which commands the setup and the teardown give.
use vstd::prelude::*;

use crate::config::inbound::TunInboundConfig;
use crate::inbound::tun::address::{mask_v4, prefix_value, v4_prefixes, v6_prefixes};
use crate::inbound::tun::address_laws::{lemma_picked, picked};
use crate::inbound::tun::platform::command::{commands_view, Command, CommandModel};
use crate::inbound::tun::platform::macos;
use crate::inbound::tun::platform::other;
use crate::inbound::tun::platform::subranges::{sub_ranges_v4, sub_ranges_v6};
use crate::inbound::tun::platform::windows;
use crate::net::{ip_text, ipv4_text, prefix_text, IpAddr};
use crate::text::decimal;

verus! {

/// How many routes there are for a family, given its addresses.
pub open spec fn routes(addresses: nat) -> int {
    if addresses > 0 {
        8
    } else {
        0
    }
}

/// The command on macOS that gives the interface an address.
pub open spec fn ifconfig(if_name: Seq<char>, ip: IpAddr, len: u8) -> CommandModel {
    CommandModel {
        program: "ifconfig"@,
        args: if ip is V4 {
            seq![if_name, ip_text(ip), ip_text(ip)]
        } else {
            seq![
                if_name,
                "inet6"@,
                prefix_text(ip, len),
                "prefixlen"@,
                decimal(len as nat),
                "alias"@,
            ]
        },
    }
}

/// The command on Windows that gives the interface an address.
pub open spec fn netsh_address(if_name: Seq<char>, ip: IpAddr, len: u8) -> CommandModel {
    CommandModel {
        program: "netsh"@,
        args: if ip is V4 {
            seq![
                "interface"@,
                "ipv4"@,
                "set"@,
                "address"@,
                "name"@,
                if_name,
                "static"@,
                ip_text(ip),
                ipv4_text(mask_v4(len)),
            ]
        } else {
            seq![
                "interface"@,
                "ipv6"@,
                "add"@,
                "address"@,
                if_name,
                prefix_text(ip, len),
            ]
        },
    }
}

/// The command on macOS for the address that the `i`th text denotes.
pub open spec fn macos_address(if_name: Seq<char>, a: Seq<String>) -> spec_fn(
    int,
) -> Option<CommandModel> {
    |i: int|
        match prefix_value(a[i]@) {
            Some((ip, len)) => Some(ifconfig(if_name, ip, len)),
            None => None,
        }
}

proof fn lemma_macos_addresses(if_name: Seq<char>, a: Seq<String>, n: nat) -> (at: Seq<int>)
    requires
        n <= a.len(),
    ensures
        picked(
            macos::address_plan(if_name, a.take(n as int)),
            macos_address(if_name, a),
            n as int,
            at,
        ),
    decreases n,
{
    if n == 0 {
        Seq::empty()
    } else {
        let m = (n - 1) as nat;
        let head = lemma_macos_addresses(if_name, a, m);
        let b = a.take(n as int);
        let f = macos_address(if_name, a);
        assert(b.drop_last() =~= a.take(m as int));
        assert(b.last() == a[m as int]);
        lemma_picked(macos::address_plan(if_name, a.take(m as int)), f, m as int, head);
        if f(m as int) is Some {
            head.push(m as int)
        } else {
            head
        }
    }
}

/// The command on Windows for the address that the `i`th text denotes.
pub open spec fn windows_address(if_name: Seq<char>, a: Seq<String>) -> spec_fn(
    int,
) -> Option<CommandModel> {
    |i: int|
        match prefix_value(a[i]@) {
            Some((ip, len)) => Some(netsh_address(if_name, ip, len)),
            None => None,
        }
}

proof fn lemma_windows_addresses(if_name: Seq<char>, a: Seq<String>, n: nat) -> (at: Seq<int>)
    requires
        n <= a.len(),
    ensures
        picked(
            windows::address_plan(if_name, a.take(n as int)),
            windows_address(if_name, a),
            n as int,
            at,
        ),
    decreases n,
{
    if n == 0 {
        Seq::empty()
    } else {
        let m = (n - 1) as nat;
        let head = lemma_windows_addresses(if_name, a, m);
        let b = a.take(n as int);
        let f = windows_address(if_name, a);
        assert(b.drop_last() =~= a.take(m as int));
        assert(b.last() == a[m as int]);
        lemma_picked(windows::address_plan(if_name, a.take(m as int)), f, m as int, head);
        if f(m as int) is Some {
            head.push(m as int)
        } else {
            head
        }
    }
}

/// On macOS the setup gives the interface each address, brings it up, adds a route through it for
/// each network of each family in use, and empties the cache of names at last; nothing more.
pub proof fn law_macos_setup(cfg: TunInboundConfig, if_name: Seq<char>, k: int) -> (at: Seq<int>)
    ensures
        ({
            let plan = macos::setup_plan(cfg, if_name);
            let n = at.len() as int;
            let r4 = routes(v4_prefixes(cfg.address@).len());
            let r6 = routes(v6_prefixes(cfg.address@).len());
            &&& plan.len() == n + 1 + r4 + r6 + 1
            &&& picked(
                plan.take(n),
                macos_address(if_name, cfg.address@),
                cfg.address@.len() as int,
                at,
            )
            &&& plan[n] == (CommandModel { program: "ifconfig"@, args: seq![if_name, "up"@] })
            &&& 0 <= k < r4 ==> plan[n + 1 + k] == (CommandModel {
                program: "route"@,
                args: seq!["add"@, "-net"@, sub_ranges_v4()[k], "-interface"@, if_name],
            })
            &&& 0 <= k < r6 ==> plan[n + 1 + r4 + k] == (CommandModel {
                program: "route"@,
                args: seq!["add"@, "-inet6"@, sub_ranges_v6()[k], "-interface"@, if_name],
            })
            &&& plan.last() == (CommandModel {
                program: "dscacheutil"@,
                args: seq!["-flushcache"@],
            })
        }),
{
    let plan = macos::setup_plan(cfg, if_name);
    let a = macos::address_plan(if_name, cfg.address@);
    let at = lemma_macos_addresses(if_name, cfg.address@, cfg.address@.len());
    assert(cfg.address@.take(cfg.address@.len() as int) =~= cfg.address@);
    assert(plan.take(at.len() as int) =~= a);
    at
}

/// On macOS the teardown deletes the routes and empties the cache of names at last; nothing more.
pub proof fn law_macos_teardown(cfg: TunInboundConfig, k: int)
    ensures
        ({
            let plan = macos::teardown_plan(cfg);
            let r4 = routes(v4_prefixes(cfg.address@).len());
            let r6 = routes(v6_prefixes(cfg.address@).len());
            &&& plan.len() == r4 + r6 + 1
            &&& 0 <= k < r4 ==> plan[k] == (CommandModel {
                program: "route"@,
                args: seq!["delete"@, "-net"@, sub_ranges_v4()[k]],
            })
            &&& 0 <= k < r6 ==> plan[r4 + k] == (CommandModel {
                program: "route"@,
                args: seq!["delete"@, "-inet6"@, sub_ranges_v6()[k]],
            })
            &&& plan.last() == (CommandModel {
                program: "dscacheutil"@,
                args: seq!["-flushcache"@],
            })
        }),
{
}

/// On Windows the setup gives the interface each address, adds a route through it for each network
/// of each family in use, keeps name queries from leaving past it exactly where routing is strict
/// and the system can do so, and empties the cache of names at last; nothing more.
pub proof fn law_windows_setup(
    cfg: TunInboundConfig,
    if_name: Seq<char>,
    windows10: bool,
    k: int,
) -> (at: Seq<int>)
    ensures
        ({
            let plan = windows::setup_plan(cfg, if_name, windows10);
            let n = at.len() as int;
            let r4 = routes(v4_prefixes(cfg.address@).len());
            let r6 = routes(v6_prefixes(cfg.address@).len());
            let blocks: int = if cfg.strict_route && windows10 {
                1
            } else {
                0
            };
            &&& plan.len() == n + r4 + r6 + blocks + 1
            &&& picked(
                plan.take(n),
                windows_address(if_name, cfg.address@),
                cfg.address@.len() as int,
                at,
            )
            &&& 0 <= k < r4 ==> plan[n + k] == (CommandModel {
                program: "netsh"@,
                args: seq![
                    "interface"@,
                    "ipv4"@,
                    "add"@,
                    "route"@,
                    sub_ranges_v4()[k],
                    if_name,
                    "metric=1"@,
                ],
            })
            &&& 0 <= k < r6 ==> plan[n + r4 + k] == (CommandModel {
                program: "netsh"@,
                args: seq![
                    "interface"@,
                    "ipv6"@,
                    "add"@,
                    "route"@,
                    sub_ranges_v6()[k],
                    if_name,
                    "metric=1"@,
                ],
            })
            &&& blocks == 1 ==> plan[n + r4 + r6] == (CommandModel {
                program: "netsh"@,
                args: seq![
                    "advfirewall"@,
                    "firewall"@,
                    "add"@,
                    "rule"@,
                    "name=reflex-tun-strict-dns-block"@,
                    "protocol=UDP"@,
                    "dir=out"@,
                    "remoteport=53"@,
                    "action=block"@,
                ],
            })
            &&& plan.last() == (CommandModel { program: "ipconfig"@, args: seq!["/flushdns"@] })
        }),
{
    let plan = windows::setup_plan(cfg, if_name, windows10);
    let a = windows::address_plan(if_name, cfg.address@);
    let at = lemma_windows_addresses(if_name, cfg.address@, cfg.address@.len());
    assert(cfg.address@.take(cfg.address@.len() as int) =~= cfg.address@);
    assert(plan.take(at.len() as int) =~= a);
    at
}

/// On Windows the teardown deletes the routes, lets name queries leave again where routing was
/// strict, and empties the cache of names at last; nothing more.
pub proof fn law_windows_teardown(cfg: TunInboundConfig, if_name: Seq<char>, k: int)
    ensures
        ({
            let plan = windows::teardown_plan(cfg, if_name);
            let r4 = routes(v4_prefixes(cfg.address@).len());
            let r6 = routes(v6_prefixes(cfg.address@).len());
            let blocks: int = if cfg.strict_route {
                1
            } else {
                0
            };
            &&& plan.len() == r4 + r6 + blocks + 1
            &&& 0 <= k < r4 ==> plan[k] == (CommandModel {
                program: "netsh"@,
                args: seq![
                    "interface"@,
                    "ipv4"@,
                    "delete"@,
                    "route"@,
                    sub_ranges_v4()[k],
                    if_name,
                ],
            })
            &&& 0 <= k < r6 ==> plan[r4 + k] == (CommandModel {
                program: "netsh"@,
                args: seq![
                    "interface"@,
                    "ipv6"@,
                    "delete"@,
                    "route"@,
                    sub_ranges_v6()[k],
                    if_name,
                ],
            })
            &&& blocks == 1 ==> plan[r4 + r6] == (CommandModel {
                program: "netsh"@,
                args: seq![
                    "advfirewall"@,
                    "firewall"@,
                    "delete"@,
                    "rule"@,
                    "name=reflex-tun-strict-dns-block"@,
                ],
            })
            &&& plan.last() == (CommandModel { program: "ipconfig"@, args: seq!["/flushdns"@] })
        }),
{
}

/// What `ver` prints names Windows 10 or later exactly if the text `10.` stands in it, wherever
/// that is.
pub proof fn law_windows10_is_found_anywhere(before: Seq<u8>, after: Seq<u8>, output: Seq<u8>)
    ensures
        windows::names_windows10(before + seq![0x31u8, 0x30u8, 0x2eu8] + after),
        windows::names_windows10(output) ==> exists|i: int|
            0 <= i && i + 3 <= output.len() && #[trigger] output.subrange(i, i + 3) == seq![
                0x31u8,
                0x30u8,
                0x2eu8,
            ],
{
    let s = before + seq![0x31u8, 0x30u8, 0x2eu8] + after;
    assert(windows::ten_at(s, before.len() as int));
    if windows::names_windows10(output) {
        let i = choose|i: int| windows::ten_at(output, i);
        assert(output.subrange(i, i + 3) =~= seq![0x31u8, 0x30u8, 0x2eu8]);
    }
}

/// What the setup and the teardown hand out on macOS are the commands of their plans.
pub proof fn law_macos_hands_out_its_plans(
    cfg: TunInboundConfig,
    if_name: &str,
    up: Vec<Command>,
    down: Vec<Command>,
)
    requires
        call_ensures(macos::setup, (&cfg, if_name), up),
        call_ensures(macos::teardown, (&cfg, if_name), down),
    ensures
        commands_view(up@) == macos::setup_plan(cfg, if_name@),
        commands_view(down@) == macos::teardown_plan(cfg),
{
}

/// What the setup and the teardown hand out on Windows are the commands of their plans, by the
/// version that the system tells.
pub proof fn law_windows_hands_out_its_plans(
    cfg: TunInboundConfig,
    if_name: &str,
    version: Option<&[u8]>,
    up: Vec<Command>,
    down: Vec<Command>,
    ten: bool,
)
    requires
        call_ensures(windows::setup, (&cfg, if_name, version), up),
        call_ensures(windows::teardown, (&cfg, if_name), down),
        call_ensures(windows::is_windows10_or_later, (version,), ten),
    ensures
        ten <==> (version matches Some(o) && windows::names_windows10(o@)),
        commands_view(up@) == windows::setup_plan(cfg, if_name@, ten),
        commands_view(down@) == windows::teardown_plan(cfg, if_name@),
{
}

/// On other systems there are no commands.
pub proof fn law_other_systems_have_no_commands(
    cfg: TunInboundConfig,
    if_name: &str,
    up: Vec<Command>,
    down: Vec<Command>,
)
    requires
        call_ensures(other::setup, (&cfg, if_name), up),
        call_ensures(other::teardown, (&cfg, if_name), down),
    ensures
        up@.len() == 0 && down@.len() == 0,
{
}

} // verus!
