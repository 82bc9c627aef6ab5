//! Routing on Windows.
use vstd::prelude::*;

use crate::config::inbound::TunInboundConfig;
use crate::inbound::tun::address::{
    mask_v4, parse_addr_prefix, parse_addresses, prefix_len_to_mask_v4, prefix_value, v4_prefixes,
    v6_prefixes,
};
use crate::inbound::tun::platform::command::{
    arg, commands_view, no_args, plan_if, run, texts, Command, CommandModel,
};
use crate::inbound::tun::platform::subranges::{
    ipv4_sub_ranges, ipv6_sub_ranges, sub_ranges_v4, sub_ranges_v6,
};
use crate::net::{ip_text, ipv4_text, prefix_text, IpAddr};

verus! {

/// Whether the text `10.` stands at `i`.
pub open spec fn ten_at(output: Seq<u8>, i: int) -> bool {
    &&& 0 <= i
    &&& i + 3 <= output.len()
    &&& output[i] == 0x31
    &&& output[i + 1] == 0x30
    &&& output[i + 2] == 0x2e
}

/// Whether what `ver` prints names a version of Windows from the tenth on: it holds the text
/// `10.`.
pub open spec fn names_windows10(output: Seq<u8>) -> bool {
    exists|i: int| ten_at(output, i)
}

/// Whether the system is Windows 10 or later, by what `ver` printed, if it ran.
pub fn is_windows10_or_later(output: Option<&[u8]>) -> (r: bool)
    ensures
        r == (output matches Some(o) && names_windows10(o@)),
{
    let o = match output {
        Some(o) => o,
        None => {
            return false;
        },
    };
    let len = o.len();
    let mut i: usize = 0;
    while i < len && len - i >= 3
        invariant
            i <= len,
            len == o@.len(),
            output == Some(o),
            forall|k: int| 0 <= k < i ==> !ten_at(o@, k),
        decreases len - i,
    {
        if o[i] == 0x31 && o[i + 1] == 0x30 && o[i + 2] == 0x2e {
            assert(ten_at(o@, i as int));
            return true;
        }
        i += 1;
    }
    false
}

/// A `netsh` command.
pub open spec fn netsh(args: Seq<Seq<char>>) -> CommandModel {
    CommandModel { program: "netsh"@, args }
}

/// The command that gives the interface an address.
pub open spec fn address_command(if_name: Seq<char>, ip: IpAddr, prefix_len: u8) -> CommandModel {
    match ip {
        IpAddr::V4(_) => netsh(
            seq![
                "interface"@,
                "ipv4"@,
                "set"@,
                "address"@,
                "name"@,
                if_name,
                "static"@,
                ip_text(ip),
                ipv4_text(mask_v4(prefix_len)),
            ],
        ),
        IpAddr::V6(_) => netsh(
            seq![
                "interface"@,
                "ipv6"@,
                "add"@,
                "address"@,
                if_name,
                prefix_text(ip, prefix_len),
            ],
        ),
    }
}

/// The commands that give the interface its addresses. Texts that denote no address are passed
/// over.
pub open spec fn address_plan(if_name: Seq<char>, a: Seq<String>) -> Seq<CommandModel>
    decreases a.len(),
{
    if a.len() == 0 {
        Seq::empty()
    } else {
        let before = address_plan(if_name, a.drop_last());
        match prefix_value(a.last()@) {
            Some((ip, prefix_len)) => before.push(address_command(if_name, ip, prefix_len)),
            None => before,
        }
    }
}

/// The commands that add routes for networks of a family.
pub open spec fn route_plan(if_name: Seq<char>, family: Seq<char>, ranges: Seq<Seq<char>>) -> Seq<
    CommandModel,
> {
    Seq::new(
        ranges.len(),
        |i: int|
            netsh(
                seq!["interface"@, family, "add"@, "route"@, ranges[i], if_name, "metric=1"@],
            ),
    )
}

/// The commands that delete routes for networks of a family.
pub open spec fn unroute_plan(
    if_name: Seq<char>,
    family: Seq<char>,
    ranges: Seq<Seq<char>>,
) -> Seq<CommandModel> {
    Seq::new(
        ranges.len(),
        |i: int| netsh(seq!["interface"@, family, "delete"@, "route"@, ranges[i], if_name]),
    )
}

/// The command that keeps name queries from leaving past the interface.
pub open spec fn block_command() -> CommandModel {
    netsh(
        seq![
            "advfirewall"@,
            "firewall"@,
            "add"@,
            "rule"@,
            "name=reflex-tun-strict-dns-block"@,
            "protocol=UDP"@,
            "dir=out"@,
            "remoteport=53"@,
            "action=block"@,
        ],
    )
}

/// The command that lets name queries leave again.
pub open spec fn unblock_command() -> CommandModel {
    netsh(
        seq![
            "advfirewall"@,
            "firewall"@,
            "delete"@,
            "rule"@,
            "name=reflex-tun-strict-dns-block"@,
        ],
    )
}

/// The command that empties the cache of names.
pub open spec fn flush_command() -> CommandModel {
    CommandModel { program: "ipconfig"@, args: seq!["/flushdns"@] }
}

/// The commands that lead the traffic of the system to the interface, on Windows 10 or later or
/// not.
pub open spec fn setup_plan(cfg: TunInboundConfig, if_name: Seq<char>, windows10: bool) -> Seq<
    CommandModel,
> {
    (address_plan(if_name, cfg.address@) + plan_if(
        v4_prefixes(cfg.address@).len() > 0,
        route_plan(if_name, "ipv4"@, sub_ranges_v4()),
    ) + plan_if(
        v6_prefixes(cfg.address@).len() > 0,
        route_plan(if_name, "ipv6"@, sub_ranges_v6()),
    ) + plan_if(cfg.strict_route && windows10, seq![block_command()])).push(flush_command())
}

/// The commands that undo the routing.
pub open spec fn teardown_plan(cfg: TunInboundConfig, if_name: Seq<char>) -> Seq<CommandModel> {
    (plan_if(
        v4_prefixes(cfg.address@).len() > 0,
        unroute_plan(if_name, "ipv4"@, sub_ranges_v4()),
    ) + plan_if(
        v6_prefixes(cfg.address@).len() > 0,
        unroute_plan(if_name, "ipv6"@, sub_ranges_v6()),
    ) + plan_if(cfg.strict_route, seq![unblock_command()])).push(flush_command())
}

/// Adds the command that gives the interface an address.
fn set_address(out: &mut Vec<Command>, if_name: &str, ip: IpAddr, prefix_len: u8)
    ensures
        commands_view(final(out)@) == commands_view(old(out)@).push(
            address_command(if_name@, ip, prefix_len),
        ),
{
    let mut args = no_args();
    arg(&mut args, "interface");
    match ip {
        IpAddr::V4(_) => {
            let text = ip.text();
            let mask = prefix_len_to_mask_v4(prefix_len).text();
            arg(&mut args, "ipv4");
            arg(&mut args, "set");
            arg(&mut args, "address");
            arg(&mut args, "name");
            arg(&mut args, if_name);
            arg(&mut args, "static");
            arg(&mut args, text.as_str());
            arg(&mut args, mask.as_str());
        },
        IpAddr::V6(_) => {
            let text = ip.text_with_prefix(prefix_len);
            arg(&mut args, "ipv6");
            arg(&mut args, "add");
            arg(&mut args, "address");
            arg(&mut args, if_name);
            arg(&mut args, text.as_str());
        },
    }
    assert(texts(args@) =~= address_command(if_name@, ip, prefix_len).args);
    run(out, "netsh", args);
}

/// The commands that give the interface its addresses.
fn address_commands(if_name: &str, addresses: &Vec<String>) -> (out: Vec<Command>)
    ensures
        commands_view(out@) == address_plan(if_name@, addresses@),
{
    let mut out: Vec<Command> = Vec::new();
    let mut i: usize = 0;
    assert(commands_view(out@) =~= address_plan(if_name@, addresses@.take(0)));
    while i < addresses.len()
        invariant
            i <= addresses@.len(),
            commands_view(out@) == address_plan(if_name@, addresses@.take(i as int)),
        decreases addresses@.len() - i,
    {
        let ghost t = addresses@.take(i + 1);
        assert(t.drop_last() =~= addresses@.take(i as int));
        match parse_addr_prefix(addresses[i].as_str()) {
            Some((ip, prefix_len)) => set_address(&mut out, if_name, ip, prefix_len),
            None => {},
        }
        i += 1;
    }
    assert(addresses@.take(i as int) =~= addresses@);
    out
}

/// Adds the commands that add routes for networks of a family.
fn add_routes(out: &mut Vec<Command>, if_name: &str, family: &str, ranges: &Vec<String>)
    ensures
        commands_view(final(out)@) == commands_view(old(out)@) + route_plan(
            if_name@,
            family@,
            texts(ranges@),
        ),
{
    let ghost plan = route_plan(if_name@, family@, texts(ranges@));
    let mut i: usize = 0;
    assert(commands_view(out@) =~= commands_view(old(out)@) + plan.take(0));
    while i < ranges.len()
        invariant
            i <= ranges@.len(),
            plan == route_plan(if_name@, family@, texts(ranges@)),
            commands_view(out@) == commands_view(old(out)@) + plan.take(i as int),
        decreases ranges@.len() - i,
    {
        let mut args = no_args();
        arg(&mut args, "interface");
        arg(&mut args, family);
        arg(&mut args, "add");
        arg(&mut args, "route");
        arg(&mut args, ranges[i].as_str());
        arg(&mut args, if_name);
        arg(&mut args, "metric=1");
        assert(texts(args@) =~= plan[i as int].args);
        run(out, "netsh", args);
        assert(commands_view(out@) =~= commands_view(old(out)@) + plan.take(i + 1));
        i += 1;
    }
    assert(plan.take(i as int) =~= plan);
}

/// Adds the commands that delete routes for networks of a family.
fn delete_routes(out: &mut Vec<Command>, if_name: &str, family: &str, ranges: &Vec<String>)
    ensures
        commands_view(final(out)@) == commands_view(old(out)@) + unroute_plan(
            if_name@,
            family@,
            texts(ranges@),
        ),
{
    let ghost plan = unroute_plan(if_name@, family@, texts(ranges@));
    let mut i: usize = 0;
    assert(commands_view(out@) =~= commands_view(old(out)@) + plan.take(0));
    while i < ranges.len()
        invariant
            i <= ranges@.len(),
            plan == unroute_plan(if_name@, family@, texts(ranges@)),
            commands_view(out@) == commands_view(old(out)@) + plan.take(i as int),
        decreases ranges@.len() - i,
    {
        let mut args = no_args();
        arg(&mut args, "interface");
        arg(&mut args, family);
        arg(&mut args, "delete");
        arg(&mut args, "route");
        arg(&mut args, ranges[i].as_str());
        arg(&mut args, if_name);
        assert(texts(args@) =~= plan[i as int].args);
        run(out, "netsh", args);
        assert(commands_view(out@) =~= commands_view(old(out)@) + plan.take(i + 1));
        i += 1;
    }
    assert(plan.take(i as int) =~= plan);
}

/// Adds the command that empties the cache of names.
fn flush_names(out: &mut Vec<Command>)
    ensures
        commands_view(final(out)@) == commands_view(old(out)@).push(flush_command()),
{
    let mut args = no_args();
    arg(&mut args, "/flushdns");
    assert(texts(args@) =~= seq!["/flushdns"@]);
    run(out, "ipconfig", args);
}

/// Adds the command that keeps name queries from leaving past the interface.
fn block_names(out: &mut Vec<Command>)
    ensures
        commands_view(final(out)@) == commands_view(old(out)@).push(block_command()),
{
    let mut args = no_args();
    arg(&mut args, "advfirewall");
    arg(&mut args, "firewall");
    arg(&mut args, "add");
    arg(&mut args, "rule");
    arg(&mut args, "name=reflex-tun-strict-dns-block");
    arg(&mut args, "protocol=UDP");
    arg(&mut args, "dir=out");
    arg(&mut args, "remoteport=53");
    arg(&mut args, "action=block");
    assert(texts(args@) =~= block_command().args);
    run(out, "netsh", args);
}

/// Adds the command that lets name queries leave again.
fn unblock_names(out: &mut Vec<Command>)
    ensures
        commands_view(final(out)@) == commands_view(old(out)@).push(unblock_command()),
{
    let mut args = no_args();
    arg(&mut args, "advfirewall");
    arg(&mut args, "firewall");
    arg(&mut args, "delete");
    arg(&mut args, "rule");
    arg(&mut args, "name=reflex-tun-strict-dns-block");
    assert(texts(args@) =~= unblock_command().args);
    run(out, "netsh", args);
}

/// The commands that lead the traffic of the system to the interface. `version` is what `ver`
/// printed, if it ran; it matters only where the configuration is strict.
pub fn setup(cfg: &TunInboundConfig, if_name: &str, version: Option<&[u8]>) -> (r: Vec<Command>)
    ensures
        commands_view(r@) == setup_plan(
            *cfg,
            if_name@,
            version matches Some(o) && names_windows10(o@),
        ),
{
    let addrs = parse_addresses(cfg);
    let mut out = address_commands(if_name, &cfg.address);
    let ghost start = commands_view(out@);
    if addrs.inet4.len() > 0 {
        add_routes(&mut out, if_name, "ipv4", &ipv4_sub_ranges());
    }
    if addrs.inet6.len() > 0 {
        add_routes(&mut out, if_name, "ipv6", &ipv6_sub_ranges());
    }
    let windows10 = is_windows10_or_later(version);
    if cfg.strict_route && windows10 {
        block_names(&mut out);
    }
    assert(commands_view(out@) =~= start + plan_if(
        v4_prefixes(cfg.address@).len() > 0,
        route_plan(if_name@, "ipv4"@, sub_ranges_v4()),
    ) + plan_if(
        v6_prefixes(cfg.address@).len() > 0,
        route_plan(if_name@, "ipv6"@, sub_ranges_v6()),
    ) + plan_if(cfg.strict_route && windows10, seq![block_command()]));
    flush_names(&mut out);
    out
}

/// The commands that undo the routing.
pub fn teardown(cfg: &TunInboundConfig, if_name: &str) -> (r: Vec<Command>)
    ensures
        commands_view(r@) == teardown_plan(*cfg, if_name@),
{
    let addrs = parse_addresses(cfg);
    let mut out: Vec<Command> = Vec::new();
    if addrs.inet4.len() > 0 {
        delete_routes(&mut out, if_name, "ipv4", &ipv4_sub_ranges());
    }
    if addrs.inet6.len() > 0 {
        delete_routes(&mut out, if_name, "ipv6", &ipv6_sub_ranges());
    }
    if cfg.strict_route {
        unblock_names(&mut out);
    }
    assert(commands_view(out@) =~= plan_if(
        v4_prefixes(cfg.address@).len() > 0,
        unroute_plan(if_name@, "ipv4"@, sub_ranges_v4()),
    ) + plan_if(
        v6_prefixes(cfg.address@).len() > 0,
        unroute_plan(if_name@, "ipv6"@, sub_ranges_v6()),
    ) + plan_if(cfg.strict_route, seq![unblock_command()]));
    flush_names(&mut out);
    out
}

/// For every route that is set up, one for the same network of the same family is deleted again,
/// and where name queries are kept from leaving, they are let leave again.
pub proof fn law_teardown_reaches_every_route(
    cfg: TunInboundConfig,
    if_name: Seq<char>,
    windows10: bool,
    i: int,
)
    requires
        0 <= i < 8,
    ensures
        v4_prefixes(cfg.address@).len() > 0 ==> setup_plan(cfg, if_name, windows10).contains(
            route_plan(if_name, "ipv4"@, sub_ranges_v4())[i],
        ) && teardown_plan(cfg, if_name).contains(
            unroute_plan(if_name, "ipv4"@, sub_ranges_v4())[i],
        ),
        v6_prefixes(cfg.address@).len() > 0 ==> setup_plan(cfg, if_name, windows10).contains(
            route_plan(if_name, "ipv6"@, sub_ranges_v6())[i],
        ) && teardown_plan(cfg, if_name).contains(
            unroute_plan(if_name, "ipv6"@, sub_ranges_v6())[i],
        ),
        cfg.strict_route && windows10 ==> setup_plan(cfg, if_name, windows10).contains(
            block_command(),
        ),
        cfg.strict_route ==> teardown_plan(cfg, if_name).contains(unblock_command()),
{
    let n = address_plan(if_name, cfg.address@).len() as int;
    let k4 = if v4_prefixes(cfg.address@).len() > 0 {
        8int
    } else {
        0int
    };
    let k6 = if v6_prefixes(cfg.address@).len() > 0 {
        8int
    } else {
        0int
    };
    let s = setup_plan(cfg, if_name, windows10);
    let t = teardown_plan(cfg, if_name);
    if v4_prefixes(cfg.address@).len() > 0 {
        assert(s[n + i] == route_plan(if_name, "ipv4"@, sub_ranges_v4())[i]);
        assert(t[i] == unroute_plan(if_name, "ipv4"@, sub_ranges_v4())[i]);
    }
    if v6_prefixes(cfg.address@).len() > 0 {
        assert(s[n + k4 + i] == route_plan(if_name, "ipv6"@, sub_ranges_v6())[i]);
        assert(t[k4 + i] == unroute_plan(if_name, "ipv6"@, sub_ranges_v6())[i]);
    }
    if cfg.strict_route {
        assert(windows10 ==> s[n + k4 + k6] == block_command());
        assert(t[k4 + k6] == unblock_command());
    }
}

} // verus!
