//! Routing on macOS.
use vstd::prelude::*;

use crate::config::inbound::TunInboundConfig;
use crate::inbound::tun::address::{
    parse_addr_prefix, parse_addresses, prefix_value, v4_prefixes, v6_prefixes,
};
use crate::inbound::tun::platform::command::{
    arg, commands_view, no_args, plan_if, run, texts, Command, CommandModel,
};
use crate::inbound::tun::platform::subranges::{
    ipv4_sub_ranges, ipv6_sub_ranges, sub_ranges_v4, sub_ranges_v6,
};
use crate::net::{ip_text, prefix_text, IpAddr};
use crate::text::{decimal, decimal_text};

verus! {

/// The command that gives the interface an address.
pub open spec fn address_command(if_name: Seq<char>, ip: IpAddr, prefix_len: u8) -> CommandModel {
    CommandModel {
        program: "ifconfig"@,
        args: match ip {
            IpAddr::V4(_) => seq![if_name, ip_text(ip), ip_text(ip)],
            IpAddr::V6(_) => seq![
                if_name,
                "inet6"@,
                prefix_text(ip, prefix_len),
                "prefixlen"@,
                decimal(prefix_len as nat),
                "alias"@,
            ],
        },
    }
}

/// The commands that give the interface its addresses. Texts that denote no address are passed
/// over.
pub open spec fn address_plan(if_name: Seq<char>, a: Seq<String>) -> Seq<CommandModel>
    decreases a.len(),
{
    if a.len() == 0 {
        Seq::empty()
    } else {
        let before = address_plan(if_name, a.drop_last());
        match prefix_value(a.last()@) {
            Some((ip, prefix_len)) => before.push(address_command(if_name, ip, prefix_len)),
            None => before,
        }
    }
}

/// The commands that add routes for networks of a family.
pub open spec fn route_plan(if_name: Seq<char>, family: Seq<char>, ranges: Seq<Seq<char>>) -> Seq<
    CommandModel,
> {
    Seq::new(
        ranges.len(),
        |i: int|
            CommandModel {
                program: "route"@,
                args: seq!["add"@, family, ranges[i], "-interface"@, if_name],
            },
    )
}

/// The commands that delete routes for networks of a family.
pub open spec fn unroute_plan(family: Seq<char>, ranges: Seq<Seq<char>>) -> Seq<CommandModel> {
    Seq::new(
        ranges.len(),
        |i: int| CommandModel { program: "route"@, args: seq!["delete"@, family, ranges[i]] },
    )
}

/// The command that empties the cache of names.
pub open spec fn flush_command() -> CommandModel {
    CommandModel { program: "dscacheutil"@, args: seq!["-flushcache"@] }
}

/// The commands that lead the traffic of the system to the interface.
pub open spec fn setup_plan(cfg: TunInboundConfig, if_name: Seq<char>) -> Seq<CommandModel> {
    (address_plan(if_name, cfg.address@).push(
        CommandModel { program: "ifconfig"@, args: seq![if_name, "up"@] },
    ) + plan_if(
        v4_prefixes(cfg.address@).len() > 0,
        route_plan(if_name, "-net"@, sub_ranges_v4()),
    ) + plan_if(
        v6_prefixes(cfg.address@).len() > 0,
        route_plan(if_name, "-inet6"@, sub_ranges_v6()),
    )).push(flush_command())
}

/// The commands that undo the routing.
pub open spec fn teardown_plan(cfg: TunInboundConfig) -> Seq<CommandModel> {
    (plan_if(v4_prefixes(cfg.address@).len() > 0, unroute_plan("-net"@, sub_ranges_v4())) + plan_if(
        v6_prefixes(cfg.address@).len() > 0,
        unroute_plan("-inet6"@, sub_ranges_v6()),
    )).push(flush_command())
}

/// Adds the command that gives the interface an address.
fn set_address(out: &mut Vec<Command>, if_name: &str, ip: IpAddr, prefix_len: u8)
    ensures
        commands_view(final(out)@) == commands_view(old(out)@).push(
            address_command(if_name@, ip, prefix_len),
        ),
{
    let mut args = no_args();
    arg(&mut args, if_name);
    match ip {
        IpAddr::V4(_) => {
            let text = ip.text();
            arg(&mut args, text.as_str());
            arg(&mut args, text.as_str());
        },
        IpAddr::V6(_) => {
            let text = ip.text_with_prefix(prefix_len);
            let len = decimal_text(prefix_len as u64);
            arg(&mut args, "inet6");
            arg(&mut args, text.as_str());
            arg(&mut args, "prefixlen");
            arg(&mut args, len.as_str());
            arg(&mut args, "alias");
        },
    }
    assert(texts(args@) =~= address_command(if_name@, ip, prefix_len).args);
    run(out, "ifconfig", args);
}

/// The commands that give the interface its addresses.
fn address_commands(if_name: &str, addresses: &Vec<String>) -> (out: Vec<Command>)
    ensures
        commands_view(out@) == address_plan(if_name@, addresses@),
{
    let mut out: Vec<Command> = Vec::new();
    let mut i: usize = 0;
    assert(commands_view(out@) =~= address_plan(if_name@, addresses@.take(0)));
    while i < addresses.len()
        invariant
            i <= addresses@.len(),
            commands_view(out@) == address_plan(if_name@, addresses@.take(i as int)),
        decreases addresses@.len() - i,
    {
        let ghost t = addresses@.take(i + 1);
        assert(t.drop_last() =~= addresses@.take(i as int));
        match parse_addr_prefix(addresses[i].as_str()) {
            Some((ip, prefix_len)) => set_address(&mut out, if_name, ip, prefix_len),
            None => {},
        }
        i += 1;
    }
    assert(addresses@.take(i as int) =~= addresses@);
    out
}

/// Adds the commands that add routes for networks of a family.
fn add_routes(out: &mut Vec<Command>, if_name: &str, family: &str, ranges: &Vec<String>)
    ensures
        commands_view(final(out)@) == commands_view(old(out)@) + route_plan(
            if_name@,
            family@,
            texts(ranges@),
        ),
{
    let ghost plan = route_plan(if_name@, family@, texts(ranges@));
    let mut i: usize = 0;
    assert(commands_view(out@) =~= commands_view(old(out)@) + plan.take(0));
    while i < ranges.len()
        invariant
            i <= ranges@.len(),
            plan == route_plan(if_name@, family@, texts(ranges@)),
            commands_view(out@) == commands_view(old(out)@) + plan.take(i as int),
        decreases ranges@.len() - i,
    {
        let mut args = no_args();
        arg(&mut args, "add");
        arg(&mut args, family);
        arg(&mut args, ranges[i].as_str());
        arg(&mut args, "-interface");
        arg(&mut args, if_name);
        assert(texts(args@) =~= plan[i as int].args);
        run(out, "route", args);
        assert(commands_view(out@) =~= commands_view(old(out)@) + plan.take(i + 1));
        i += 1;
    }
    assert(plan.take(i as int) =~= plan);
}

/// Adds the commands that delete routes for networks of a family.
fn delete_routes(out: &mut Vec<Command>, family: &str, ranges: &Vec<String>)
    ensures
        commands_view(final(out)@) == commands_view(old(out)@) + unroute_plan(
            family@,
            texts(ranges@),
        ),
{
    let ghost plan = unroute_plan(family@, texts(ranges@));
    let mut i: usize = 0;
    assert(commands_view(out@) =~= commands_view(old(out)@) + plan.take(0));
    while i < ranges.len()
        invariant
            i <= ranges@.len(),
            plan == unroute_plan(family@, texts(ranges@)),
            commands_view(out@) == commands_view(old(out)@) + plan.take(i as int),
        decreases ranges@.len() - i,
    {
        let mut args = no_args();
        arg(&mut args, "delete");
        arg(&mut args, family);
        arg(&mut args, ranges[i].as_str());
        assert(texts(args@) =~= plan[i as int].args);
        run(out, "route", args);
        assert(commands_view(out@) =~= commands_view(old(out)@) + plan.take(i + 1));
        i += 1;
    }
    assert(plan.take(i as int) =~= plan);
}

/// Adds the command that empties the cache of names.
fn flush_names(out: &mut Vec<Command>)
    ensures
        commands_view(final(out)@) == commands_view(old(out)@).push(flush_command()),
{
    let mut args = no_args();
    arg(&mut args, "-flushcache");
    assert(texts(args@) =~= seq!["-flushcache"@]);
    run(out, "dscacheutil", args);
}

/// The commands that lead the traffic of the system to the interface.
pub fn setup(cfg: &TunInboundConfig, if_name: &str) -> (r: Vec<Command>)
    ensures
        commands_view(r@) == setup_plan(*cfg, if_name@),
{
    let addrs = parse_addresses(cfg);
    let mut out = address_commands(if_name, &cfg.address);
    let mut args = no_args();
    arg(&mut args, if_name);
    arg(&mut args, "up");
    assert(texts(args@) =~= seq![if_name@, "up"@]);
    run(&mut out, "ifconfig", args);
    let ghost start = commands_view(out@);
    if addrs.inet4.len() > 0 {
        add_routes(&mut out, if_name, "-net", &ipv4_sub_ranges());
    }
    if addrs.inet6.len() > 0 {
        add_routes(&mut out, if_name, "-inet6", &ipv6_sub_ranges());
    }
    assert(commands_view(out@) =~= start + plan_if(
        v4_prefixes(cfg.address@).len() > 0,
        route_plan(if_name@, "-net"@, sub_ranges_v4()),
    ) + plan_if(
        v6_prefixes(cfg.address@).len() > 0,
        route_plan(if_name@, "-inet6"@, sub_ranges_v6()),
    ));
    flush_names(&mut out);
    out
}

/// The commands that undo the routing.
pub fn teardown(cfg: &TunInboundConfig, _if_name: &str) -> (r: Vec<Command>)
    ensures
        commands_view(r@) == teardown_plan(*cfg),
{
    let addrs = parse_addresses(cfg);
    let mut out: Vec<Command> = Vec::new();
    if addrs.inet4.len() > 0 {
        delete_routes(&mut out, "-net", &ipv4_sub_ranges());
    }
    if addrs.inet6.len() > 0 {
        delete_routes(&mut out, "-inet6", &ipv6_sub_ranges());
    }
    assert(commands_view(out@) =~= plan_if(
        v4_prefixes(cfg.address@).len() > 0,
        unroute_plan("-net"@, sub_ranges_v4()),
    ) + plan_if(v6_prefixes(cfg.address@).len() > 0, unroute_plan("-inet6"@, sub_ranges_v6())));
    flush_names(&mut out);
    out
}

/// For every route that is set up, one for the same network of the same family is deleted again.
pub proof fn law_teardown_reaches_every_route(cfg: TunInboundConfig, if_name: Seq<char>, i: int)
    requires
        0 <= i < 8,
    ensures
        v4_prefixes(cfg.address@).len() > 0 ==> setup_plan(cfg, if_name).contains(
            route_plan(if_name, "-net"@, sub_ranges_v4())[i],
        ) && teardown_plan(cfg).contains(unroute_plan("-net"@, sub_ranges_v4())[i]),
        v6_prefixes(cfg.address@).len() > 0 ==> setup_plan(cfg, if_name).contains(
            route_plan(if_name, "-inet6"@, sub_ranges_v6())[i],
        ) && teardown_plan(cfg).contains(unroute_plan("-inet6"@, sub_ranges_v6())[i]),
{
    let n = address_plan(if_name, cfg.address@).len() + 1;
    let k = if v4_prefixes(cfg.address@).len() > 0 {
        8int
    } else {
        0int
    };
    let s = setup_plan(cfg, if_name);
    let t = teardown_plan(cfg);
    if v4_prefixes(cfg.address@).len() > 0 {
        assert(s[n + i] == route_plan(if_name, "-net"@, sub_ranges_v4())[i]);
        assert(t[i] == unroute_plan("-net"@, sub_ranges_v4())[i]);
    }
    if v6_prefixes(cfg.address@).len() > 0 {
        assert(s[n + k + i] == route_plan(if_name, "-inet6"@, sub_ranges_v6())[i]);
        assert(t[k + i] == unroute_plan("-inet6"@, sub_ranges_v6())[i]);
    }
}

} // verus!
