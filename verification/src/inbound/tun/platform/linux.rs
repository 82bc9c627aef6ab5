//! Policy routing on Linux: the `ip` commands that lead the traffic of the system to the
//! interface, and those that undo it.
use vstd::prelude::*;

use crate::config::inbound::TunInboundConfig;
use crate::inbound::tun::address::{
    network_v4, network_v6, parse_addresses, v4_network, v4_prefixes, v6_network, v6_prefixes,
    AddrInfo,
};
use crate::inbound::tun::platform::ranges::{
    build_excluded_uid_ranges, canonical, excluded_uid, in_ranges, law_canonical_is_unique,
};
use crate::inbound::tun::platform::command::{arg, no_args, texts, Command, CommandModel};
use crate::net::{ip_text, prefix_text, IpAddr, Ipv4Addr, Ipv6Addr};
use crate::text::{decimal, decimal_text, push_numeral};

verus! {

/// What a routing rule does.
pub enum RuleBody<S> {
    /// Traffic of the users in a range goes on at another rule.
    UidGoto { lo: u32, hi: u32, target: u32 },
    /// Traffic that came from an interface goes on at another rule.
    IifGoto { iif: S, target: u32 },
    /// All traffic goes on at another rule.
    Goto { target: u32 },
    /// No traffic passes.
    Unreachable,
    /// Traffic to a network goes by a table.
    ToLookup { net: IpAddr, prefix_len: u8, table: u32 },
    /// Traffic that is not from this machine goes by a table, but for its default route.
    ForwardedSuppress { table: u32 },
    /// Traffic that is not from this machine goes by a table.
    ForwardedLookup { table: u32 },
    /// Traffic that is from this machine and from a network goes by a table.
    LocalFromLookup { net: IpAddr, prefix_len: u8, table: u32 },
    /// Traffic goes on at the next rule.
    Nop,
}

/// An `ip` command, over names of type `S`.
pub enum IpCommandOf<S> {
    /// Brings an interface up.
    LinkUp { dev: S },
    /// Adds the default route of a family to a table.
    RouteAdd { via: IpAddr, dev: S, table: u32 },
    /// Empties a table of a family.
    RouteFlush { v6: bool, table: u32 },
    /// Adds a rule of a family.
    RuleAdd { v6: bool, priority: u32, body: RuleBody<S> },
    /// Deletes a rule of a family.
    RuleDel { v6: bool, priority: u32 },
}

/// An `ip` command.
pub type IpCommand = IpCommandOf<String>;

/// An `ip` command as a mathematical object.
pub type IpCommandModel = IpCommandOf<Seq<char>>;

impl View for RuleBody<String> {
    type V = RuleBody<Seq<char>>;

    open spec fn view(&self) -> RuleBody<Seq<char>> {
        match *self {
            RuleBody::UidGoto { lo, hi, target } => RuleBody::UidGoto { lo, hi, target },
            RuleBody::IifGoto { iif, target } => RuleBody::IifGoto { iif: iif@, target },
            RuleBody::Goto { target } => RuleBody::Goto { target },
            RuleBody::Unreachable => RuleBody::Unreachable,
            RuleBody::ToLookup { net, prefix_len, table } => RuleBody::ToLookup {
                net,
                prefix_len,
                table,
            },
            RuleBody::ForwardedSuppress { table } => RuleBody::ForwardedSuppress { table },
            RuleBody::ForwardedLookup { table } => RuleBody::ForwardedLookup { table },
            RuleBody::LocalFromLookup { net, prefix_len, table } => RuleBody::LocalFromLookup {
                net,
                prefix_len,
                table,
            },
            RuleBody::Nop => RuleBody::Nop,
        }
    }
}

impl View for IpCommandOf<String> {
    type V = IpCommandOf<Seq<char>>;

    open spec fn view(&self) -> IpCommandOf<Seq<char>> {
        match *self {
            IpCommandOf::LinkUp { dev } => IpCommandOf::LinkUp { dev: dev@ },
            IpCommandOf::RouteAdd { via, dev, table } => IpCommandOf::RouteAdd {
                via,
                dev: dev@,
                table,
            },
            IpCommandOf::RouteFlush { v6, table } => IpCommandOf::RouteFlush { v6, table },
            IpCommandOf::RuleAdd { v6, priority, body } => IpCommandOf::RuleAdd {
                v6,
                priority,
                body: body@,
            },
            IpCommandOf::RuleDel { v6, priority } => IpCommandOf::RuleDel { v6, priority },
        }
    }
}

/// Commands as mathematical objects.
pub open spec fn plan_view(s: Seq<IpCommand>) -> Seq<IpCommandModel> {
    s.map_values(|c: IpCommand| c@)
}

/// One if a condition holds.
pub open spec fn one_if(b: bool) -> int {
    if b {
        1
    } else {
        0
    }
}

/// The users whose traffic is kept from the interface.
pub open spec fn excluded_ranges(cfg: TunInboundConfig) -> Seq<(u32, u32)> {
    choose|s: Seq<(u32, u32)>|
        canonical(s) && forall|x: u32| #[trigger]
            in_ranges(s, x) <==> excluded_uid(cfg.include_uid@, cfg.exclude_uid@, x)
}

/// Whether there is an IPv4 address.
pub open spec fn has_v4(cfg: TunInboundConfig) -> bool {
    v4_prefixes(cfg.address@).len() > 0
}

/// Whether there is an IPv6 address.
pub open spec fn has_v6(cfg: TunInboundConfig) -> bool {
    v6_prefixes(cfg.address@).len() > 0
}

/// Whether a family is in use.
pub open spec fn has_family(cfg: TunInboundConfig, v6: bool) -> bool {
    if v6 {
        has_v6(cfg)
    } else {
        has_v4(cfg)
    }
}

/// The priority of the first rule on interfaces of a family: rules on users come before.
pub open spec fn interface_priority(cfg: TunInboundConfig, v6: bool) -> int {
    cfg.iproute2_rule_index + one_if(has_family(cfg, v6) && excluded_ranges(cfg).len() > 0)
}

/// The priority after the rules on interfaces of a family.
pub open spec fn strict_priority(cfg: TunInboundConfig, v6: bool) -> int {
    interface_priority(cfg, v6) + if cfg.include_interface@.len() > 0 {
        cfg.include_interface@.len() + one_if(has_family(cfg, v6))
    } else {
        one_if(cfg.exclude_interface@.len() > 0 && has_family(cfg, v6))
    }
}

/// The priority of the rules on the networks of the interface of a family.
pub open spec fn network_priority(cfg: TunInboundConfig, v6: bool) -> int {
    strict_priority(cfg, v6) + one_if(cfg.strict_route && !has_family(cfg, v6))
}

/// The priority of the rule of a family that leaves default routes to the rules after it.
pub open spec fn suppress_priority(cfg: TunInboundConfig, v6: bool) -> int {
    network_priority(cfg, v6) + one_if(has_family(cfg, v6))
}

/// The priority of the last rules of a family before the anchor.
pub open spec fn last_priority(cfg: TunInboundConfig, v6: bool) -> int {
    suppress_priority(cfg, v6) + one_if(has_family(cfg, v6))
}

/// The priority of the anchor, at which traffic goes on that is not led to the interface.
pub open spec fn anchor_priority(cfg: TunInboundConfig) -> int {
    cfg.iproute2_rule_index + 10
}

/// A rule for each family that is in use.
pub open spec fn rule_pair(
    v4: bool,
    v6: bool,
    p4: int,
    p6: int,
    body: RuleBody<Seq<char>>,
) -> Seq<IpCommandModel> {
    rule_if(v4, false, p4, body) + rule_if(v6, true, p6, body)
}

/// A rule where a condition holds.
pub open spec fn rule_if(
    cond: bool,
    v6: bool,
    priority: int,
    body: RuleBody<Seq<char>>,
) -> Seq<IpCommandModel> {
    if cond {
        seq![IpCommandOf::RuleAdd { v6, priority: priority as u32, body }]
    } else {
        Seq::empty()
    }
}

/// The rules on users.
pub open spec fn uid_rules(cfg: TunInboundConfig, s: Seq<(u32, u32)>) -> Seq<IpCommandModel>
    decreases s.len(),
{
    if s.len() == 0 {
        Seq::empty()
    } else {
        let b = cfg.iproute2_rule_index as int;
        uid_rules(cfg, s.drop_last()) + rule_pair(
            has_v4(cfg),
            has_v6(cfg),
            b,
            b,
            RuleBody::UidGoto {
                lo: s.last().0,
                hi: s.last().1,
                target: anchor_priority(cfg) as u32,
            },
        )
    }
}

/// What the rule on an interface whose traffic is routed does: the traffic goes on after the rule
/// for the traffic of all others.
pub open spec fn included_body(cfg: TunInboundConfig, v6: bool, iif: Seq<char>) -> RuleBody<
    Seq<char>,
> {
    RuleBody::IifGoto { iif, target: network_priority(cfg, v6) as u32 }
}

/// The priority of the rule for the traffic of all interfaces that are not listed, where those
/// whose traffic is routed are.
pub open spec fn unlisted_priority(cfg: TunInboundConfig, v6: bool) -> int {
    interface_priority(cfg, v6) + cfg.include_interface@.len()
}

/// The rules on the interfaces whose traffic is routed: each has a priority of its own.
pub open spec fn included_rules(cfg: TunInboundConfig, s: Seq<String>) -> Seq<IpCommandModel>
    decreases s.len(),
{
    if s.len() == 0 {
        Seq::empty()
    } else {
        included_rules(cfg, s.drop_last()) + rule_if(
            has_v4(cfg),
            false,
            interface_priority(cfg, false) + s.len() - 1,
            included_body(cfg, false, s.last()@),
        ) + rule_if(
            has_v6(cfg),
            true,
            interface_priority(cfg, true) + s.len() - 1,
            included_body(cfg, true, s.last()@),
        )
    }
}

/// The rules on the interfaces whose traffic is not routed: they share a priority.
pub open spec fn excluded_rules(cfg: TunInboundConfig, s: Seq<String>) -> Seq<IpCommandModel>
    decreases s.len(),
{
    if s.len() == 0 {
        Seq::empty()
    } else {
        excluded_rules(cfg, s.drop_last()) + rule_pair(
            has_v4(cfg),
            has_v6(cfg),
            interface_priority(cfg, false),
            interface_priority(cfg, true),
            RuleBody::IifGoto { iif: s.last()@, target: anchor_priority(cfg) as u32 },
        )
    }
}

/// The rules on interfaces.
pub open spec fn interface_rules(cfg: TunInboundConfig) -> Seq<IpCommandModel> {
    if cfg.include_interface@.len() > 0 {
        included_rules(cfg, cfg.include_interface@) + rule_pair(
            has_v4(cfg),
            has_v6(cfg),
            unlisted_priority(cfg, false),
            unlisted_priority(cfg, true),
            RuleBody::Goto { target: anchor_priority(cfg) as u32 },
        )
    } else {
        excluded_rules(cfg, cfg.exclude_interface@)
    }
}

/// The rules that keep the traffic of a family that is not in use from leaving.
pub open spec fn strict_rules(cfg: TunInboundConfig) -> Seq<IpCommandModel> {
    rule_pair(
        cfg.strict_route && !has_v4(cfg),
        cfg.strict_route && !has_v6(cfg),
        strict_priority(cfg, false),
        strict_priority(cfg, true),
        RuleBody::Unreachable,
    )
}

/// The network of an IPv4 address.
pub open spec fn net_v4(p: (Ipv4Addr, u8)) -> IpAddr {
    IpAddr::V4(Ipv4Addr { bits: network_v4(p.0.bits, p.1) })
}

/// The network of an IPv6 address.
pub open spec fn net_v6(p: (Ipv6Addr, u8)) -> IpAddr {
    IpAddr::V6(Ipv6Addr { bits: network_v6(p.0.bits, p.1) })
}

/// The rules on traffic to the IPv4 networks of the interface.
pub open spec fn to_rules_v4(priority: int, table: u32, s: Seq<(Ipv4Addr, u8)>) -> Seq<
    IpCommandModel,
> {
    Seq::new(
        s.len(),
        |i: int|
            IpCommandOf::RuleAdd {
                v6: false,
                priority: priority as u32,
                body: RuleBody::ToLookup { net: net_v4(s[i]), prefix_len: s[i].1, table },
            },
    )
}

/// The rules on traffic to the IPv6 networks of the interface.
pub open spec fn to_rules_v6(priority: int, table: u32, s: Seq<(Ipv6Addr, u8)>) -> Seq<
    IpCommandModel,
> {
    Seq::new(
        s.len(),
        |i: int|
            IpCommandOf::RuleAdd {
                v6: true,
                priority: priority as u32,
                body: RuleBody::ToLookup { net: net_v6(s[i]), prefix_len: s[i].1, table },
            },
    )
}

/// The rules on traffic from this machine and from the IPv4 networks of the interface.
pub open spec fn from_rules_v4(priority: int, table: u32, s: Seq<(Ipv4Addr, u8)>) -> Seq<
    IpCommandModel,
> {
    Seq::new(
        s.len(),
        |i: int|
            IpCommandOf::RuleAdd {
                v6: false,
                priority: priority as u32,
                body: RuleBody::LocalFromLookup { net: net_v4(s[i]), prefix_len: s[i].1, table },
            },
    )
}

/// The rules on traffic from this machine and from the IPv6 networks of the interface.
pub open spec fn from_rules_v6(priority: int, table: u32, s: Seq<(Ipv6Addr, u8)>) -> Seq<
    IpCommandModel,
> {
    Seq::new(
        s.len(),
        |i: int|
            IpCommandOf::RuleAdd {
                v6: true,
                priority: priority as u32,
                body: RuleBody::LocalFromLookup { net: net_v6(s[i]), prefix_len: s[i].1, table },
            },
    )
}

/// The default routes: through the address after the first of each family.
pub open spec fn default_routes(cfg: TunInboundConfig, if_name: Seq<char>) -> Seq<IpCommandModel> {
    let table = cfg.iproute2_table_index;
    let r4 = if has_v4(cfg) {
        seq![
            IpCommandOf::RouteAdd {
                via: IpAddr::V4(v4_prefixes(cfg.address@)[0].0.spec_next()),
                dev: if_name,
                table,
            },
        ]
    } else {
        Seq::empty()
    };
    let r6 = if has_v6(cfg) {
        seq![
            IpCommandOf::RouteAdd {
                via: IpAddr::V6(v6_prefixes(cfg.address@)[0].0.spec_next()),
                dev: if_name,
                table,
            },
        ]
    } else {
        Seq::empty()
    };
    r4 + r6
}

/// The rules that lead traffic to the interface.
pub open spec fn lookup_rules(cfg: TunInboundConfig) -> Seq<IpCommandModel> {
    let table = cfg.iproute2_table_index;
    let p4 = last_priority(cfg, false);
    let p6 = last_priority(cfg, true);
    let body = RuleBody::ForwardedLookup { table };
    let any = RuleBody::LocalFromLookup {
        net: IpAddr::V4(Ipv4Addr { bits: 0 }),
        prefix_len: 32,
        table,
    };
    rule_if(has_v4(cfg), false, p4, body) + rule_if(has_v4(cfg), false, p4, any) + from_rules_v4(
        p4,
        table,
        v4_prefixes(cfg.address@),
    ) + rule_if(has_v6(cfg), true, p6, body) + from_rules_v6(p6, table, v6_prefixes(cfg.address@))
}

/// The commands that lead the traffic of the system to the interface.
pub open spec fn setup_plan(cfg: TunInboundConfig, if_name: Seq<char>) -> Seq<IpCommandModel> {
    let table = cfg.iproute2_table_index;
    seq![IpCommandOf::LinkUp { dev: if_name }] + default_routes(cfg, if_name) + uid_rules(
        cfg,
        excluded_ranges(cfg),
    ) + interface_rules(cfg) + strict_rules(cfg) + to_rules_v4(
        network_priority(cfg, false),
        table,
        v4_prefixes(cfg.address@),
    ) + to_rules_v6(network_priority(cfg, true), table, v6_prefixes(cfg.address@)) + rule_pair(
        has_v4(cfg),
        has_v6(cfg),
        suppress_priority(cfg, false),
        suppress_priority(cfg, true),
        RuleBody::ForwardedSuppress { table },
    ) + rule_pair(
        has_v4(cfg),
        has_v6(cfg),
        last_priority(cfg, false),
        last_priority(cfg, true),
        RuleBody::IifGoto { iif: if_name, target: anchor_priority(cfg) as u32 },
    ) + lookup_rules(cfg) + rule_pair(
        has_v4(cfg),
        has_v6(cfg),
        anchor_priority(cfg),
        anchor_priority(cfg),
        RuleBody::Nop,
    )
}

/// The commands that undo the routing: the tables are emptied, and at each priority up to the
/// anchor up to five rules of each family are deleted.
pub open spec fn teardown_plan(cfg: TunInboundConfig) -> Seq<IpCommandModel> {
    let table = cfg.iproute2_table_index;
    seq![
        IpCommandOf::RouteFlush { v6: false, table },
        IpCommandOf::RouteFlush { v6: true, table },
    ] + Seq::new(
        110,
        |i: int|
            IpCommandOf::RuleDel {
                v6: i % 2 == 1,
                priority: (cfg.iproute2_rule_index + i / 10) as u32,
            },
    )
}

/// Adds a command to a plan.
fn emit(out: &mut Vec<IpCommand>, c: IpCommand)
    ensures
        plan_view(final(out)@) == plan_view(old(out)@).push(c@),
{
    out.push(c);
    assert(plan_view(out@) =~= plan_view(old(out)@).push(c@));
}

/// The commands that undo the routing.
pub fn teardown(cfg: &TunInboundConfig, _if_name: &str) -> (r: Vec<IpCommand>)
    requires
        cfg.iproute2_rule_index + 10 <= u32::MAX,
    ensures
        plan_view(r@) == teardown_plan(*cfg),
{
    let table = cfg.iproute2_table_index;
    let prio_base = cfg.iproute2_rule_index;
    let mut out: Vec<IpCommand> = Vec::new();
    emit(&mut out, IpCommandOf::RouteFlush { v6: false, table });
    emit(&mut out, IpCommandOf::RouteFlush { v6: true, table });
    let mut i: u32 = 0;
    assert(plan_view(out@) =~= teardown_plan(*cfg).take(2));
    while i < 55
        invariant
            i <= 55,
            prio_base == cfg.iproute2_rule_index,
            prio_base + 10 <= u32::MAX,
            plan_view(out@) == teardown_plan(*cfg).take(2 + 2 * i),
        decreases 55 - i,
    {
        let priority = prio_base + i / 5;
        let ghost plan = teardown_plan(*cfg);
        assert(plan[2 + 2 * i] == (IpCommandModel::RuleDel { v6: false, priority })) by {
            assert((2 * i) % 2 == 0 && (2 * i) / 10 == i / 5);
        }
        assert(plan[3 + 2 * i] == (IpCommandModel::RuleDel { v6: true, priority })) by {
            assert((2 * i + 1) % 2 == 1 && (2 * i + 1) / 10 == i / 5);
        }
        emit(&mut out, IpCommandOf::RuleDel { v6: false, priority });
        emit(&mut out, IpCommandOf::RuleDel { v6: true, priority });
        i += 1;
        assert(plan_view(out@) =~= plan.take(2 + 2 * i));
    }
    assert(teardown_plan(*cfg).take(112) =~= teardown_plan(*cfg));
    out
}

/// Adds a rule to a plan where a condition holds.
fn emit_if(
    out: &mut Vec<IpCommand>,
    cond: bool,
    v6: bool,
    priority: u32,
    body: RuleBody<String>,
)
    ensures
        plan_view(final(out)@) == plan_view(old(out)@) + rule_if(cond, v6, priority as int, body@),
{
    if cond {
        emit(out, IpCommandOf::RuleAdd { v6, priority, body });
    }
    assert(plan_view(out@) =~= plan_view(old(out)@) + rule_if(cond, v6, priority as int, body@));
}

/// Adds the rules on users.
fn emit_uid_rules(
    out: &mut Vec<IpCommand>,
    cfg: &TunInboundConfig,
    ranges: &Vec<(u32, u32)>,
    v4: bool,
    v6: bool,
)
    requires
        cfg.iproute2_rule_index + 10 <= u32::MAX,
        v4 == has_v4(*cfg),
        v6 == has_v6(*cfg),
    ensures
        plan_view(final(out)@) == plan_view(old(out)@) + uid_rules(*cfg, ranges@),
{
    let b = cfg.iproute2_rule_index;
    let target = b + 10;
    let mut i: usize = 0;
    assert(plan_view(out@) =~= plan_view(old(out)@) + uid_rules(*cfg, ranges@.take(0)));
    while i < ranges.len()
        invariant
            i <= ranges@.len(),
            b == cfg.iproute2_rule_index,
            b + 10 <= u32::MAX,
            target == b + 10,
            v4 == has_v4(*cfg),
            v6 == has_v6(*cfg),
            plan_view(out@) == plan_view(old(out)@) + uid_rules(*cfg, ranges@.take(i as int)),
        decreases ranges@.len() - i,
    {
        let (lo, hi) = ranges[i];
        let ghost t = ranges@.take(i + 1);
        assert(t.drop_last() =~= ranges@.take(i as int));
        emit_if(out, v4, false, b, RuleBody::UidGoto { lo, hi, target });
        emit_if(out, v6, true, b, RuleBody::UidGoto { lo, hi, target });
        assert(plan_view(out@) =~= plan_view(old(out)@) + uid_rules(*cfg, t));
        i += 1;
    }
    assert(ranges@.take(i as int) =~= ranges@);
}

/// Adds the rules on the interfaces whose traffic is routed.
fn emit_included_rules(
    out: &mut Vec<IpCommand>,
    cfg: &TunInboundConfig,
    v4: bool,
    v6: bool,
    p4: u32,
    p6: u32,
)
    requires
        v4 == has_v4(*cfg),
        v6 == has_v6(*cfg),
        p4 == interface_priority(*cfg, false),
        p6 == interface_priority(*cfg, true),
        cfg.include_interface@.len() > 0,
        strict_priority(*cfg, false) <= u32::MAX,
        strict_priority(*cfg, true) <= u32::MAX,
    ensures
        plan_view(final(out)@) == plan_view(old(out)@) + included_rules(
            *cfg,
            cfg.include_interface@,
        ),
{
    let n = cfg.include_interface.len();
    let target4: u32 = if v4 {
        p4 + n as u32 + 1
    } else {
        0
    };
    let target6: u32 = if v6 {
        p6 + n as u32 + 1
    } else {
        0
    };
    let mut i: usize = 0;
    assert(plan_view(out@) =~= plan_view(old(out)@) + included_rules(
        *cfg,
        cfg.include_interface@.take(0),
    ));
    while i < n
        invariant
            i <= n,
            n == cfg.include_interface@.len(),
            v4 == has_v4(*cfg),
            v6 == has_v6(*cfg),
            p4 == interface_priority(*cfg, false),
            p6 == interface_priority(*cfg, true),
            v4 ==> target4 == network_priority(*cfg, false),
            v6 ==> target6 == network_priority(*cfg, true),
            p4 + n <= u32::MAX,
            p6 + n <= u32::MAX,
            plan_view(out@) == plan_view(old(out)@) + included_rules(
                *cfg,
                cfg.include_interface@.take(i as int),
            ),
        decreases n - i,
    {
        let ghost t = cfg.include_interface@.take(i + 1);
        assert(t.drop_last() =~= cfg.include_interface@.take(i as int));
        let iif = cfg.include_interface[i].clone();
        let iif6 = cfg.include_interface[i].clone();
        emit_if(out, v4, false, p4 + i as u32, RuleBody::IifGoto { iif, target: target4 });
        emit_if(out, v6, true, p6 + i as u32, RuleBody::IifGoto { iif: iif6, target: target6 });
        assert(plan_view(out@) =~= plan_view(old(out)@) + included_rules(*cfg, t));
        i += 1;
    }
    assert(cfg.include_interface@.take(i as int) =~= cfg.include_interface@);
}

/// Adds the rules on the interfaces whose traffic is not routed.
fn emit_excluded_rules(
    out: &mut Vec<IpCommand>,
    cfg: &TunInboundConfig,
    v4: bool,
    v6: bool,
    p4: u32,
    p6: u32,
)
    requires
        v4 == has_v4(*cfg),
        v6 == has_v6(*cfg),
        p4 == interface_priority(*cfg, false),
        p6 == interface_priority(*cfg, true),
        cfg.iproute2_rule_index + 10 <= u32::MAX,
    ensures
        plan_view(final(out)@) == plan_view(old(out)@) + excluded_rules(
            *cfg,
            cfg.exclude_interface@,
        ),
{
    let target = cfg.iproute2_rule_index + 10;
    let mut i: usize = 0;
    assert(plan_view(out@) =~= plan_view(old(out)@) + excluded_rules(
        *cfg,
        cfg.exclude_interface@.take(0),
    ));
    while i < cfg.exclude_interface.len()
        invariant
            i <= cfg.exclude_interface@.len(),
            v4 == has_v4(*cfg),
            v6 == has_v6(*cfg),
            p4 == interface_priority(*cfg, false),
            p6 == interface_priority(*cfg, true),
            target == anchor_priority(*cfg),
            plan_view(out@) == plan_view(old(out)@) + excluded_rules(
                *cfg,
                cfg.exclude_interface@.take(i as int),
            ),
        decreases cfg.exclude_interface@.len() - i,
    {
        let ghost t = cfg.exclude_interface@.take(i + 1);
        assert(t.drop_last() =~= cfg.exclude_interface@.take(i as int));
        let iif = cfg.exclude_interface[i].clone();
        let iif6 = cfg.exclude_interface[i].clone();
        emit_if(out, v4, false, p4, RuleBody::IifGoto { iif, target });
        emit_if(out, v6, true, p6, RuleBody::IifGoto { iif: iif6, target });
        assert(plan_view(out@) =~= plan_view(old(out)@) + excluded_rules(*cfg, t));
        i += 1;
    }
    assert(cfg.exclude_interface@.take(i as int) =~= cfg.exclude_interface@);
}

/// Adds the rules on traffic to IPv4 networks, or, where `local`, on traffic from this machine and
/// from them.
fn emit_net_rules_v4(
    out: &mut Vec<IpCommand>,
    local: bool,
    priority: u32,
    table: u32,
    s: &Vec<(Ipv4Addr, u8)>,
)
    requires
        forall|i: int| 0 <= i < s@.len() ==> (#[trigger] s@[i]).1 >= 1,
    ensures
        plan_view(final(out)@) == plan_view(old(out)@) + if local {
            from_rules_v4(priority as int, table, s@)
        } else {
            to_rules_v4(priority as int, table, s@)
        },
{
    let ghost rules = if local {
        from_rules_v4(priority as int, table, s@)
    } else {
        to_rules_v4(priority as int, table, s@)
    };
    let mut i: usize = 0;
    assert(plan_view(out@) =~= plan_view(old(out)@) + rules.take(0));
    while i < s.len()
        invariant
            i <= s@.len(),
            forall|k: int| 0 <= k < s@.len() ==> (#[trigger] s@[k]).1 >= 1,
            rules == if local {
                from_rules_v4(priority as int, table, s@)
            } else {
                to_rules_v4(priority as int, table, s@)
            },
            plan_view(out@) == plan_view(old(out)@) + rules.take(i as int),
        decreases s@.len() - i,
    {
        let (ip, prefix_len) = s[i];
        assert(s@[i as int].1 >= 1);
        let net = IpAddr::V4(v4_network(ip, prefix_len));
        let body: RuleBody<String> = if local {
            RuleBody::LocalFromLookup { net, prefix_len, table }
        } else {
            RuleBody::ToLookup { net, prefix_len, table }
        };
        emit(out, IpCommandOf::RuleAdd { v6: false, priority, body });
        assert(rules.take(i + 1) =~= rules.take(i as int).push(rules[i as int]));
        assert(plan_view(out@) =~= plan_view(old(out)@) + rules.take(i + 1));
        i += 1;
    }
    assert(rules.take(i as int) =~= rules);
}

/// Adds the rules on traffic to IPv6 networks, or, where `local`, on traffic from this machine and
/// from them.
fn emit_net_rules_v6(
    out: &mut Vec<IpCommand>,
    local: bool,
    priority: u32,
    table: u32,
    s: &Vec<(Ipv6Addr, u8)>,
)
    requires
        forall|i: int| 0 <= i < s@.len() ==> (#[trigger] s@[i]).1 >= 1,
    ensures
        plan_view(final(out)@) == plan_view(old(out)@) + if local {
            from_rules_v6(priority as int, table, s@)
        } else {
            to_rules_v6(priority as int, table, s@)
        },
{
    let ghost rules = if local {
        from_rules_v6(priority as int, table, s@)
    } else {
        to_rules_v6(priority as int, table, s@)
    };
    let mut i: usize = 0;
    assert(plan_view(out@) =~= plan_view(old(out)@) + rules.take(0));
    while i < s.len()
        invariant
            i <= s@.len(),
            forall|k: int| 0 <= k < s@.len() ==> (#[trigger] s@[k]).1 >= 1,
            rules == if local {
                from_rules_v6(priority as int, table, s@)
            } else {
                to_rules_v6(priority as int, table, s@)
            },
            plan_view(out@) == plan_view(old(out)@) + rules.take(i as int),
        decreases s@.len() - i,
    {
        let (ip, prefix_len) = s[i];
        assert(s@[i as int].1 >= 1);
        let net = IpAddr::V6(v6_network(ip, prefix_len));
        let body: RuleBody<String> = if local {
            RuleBody::LocalFromLookup { net, prefix_len, table }
        } else {
            RuleBody::ToLookup { net, prefix_len, table }
        };
        emit(out, IpCommandOf::RuleAdd { v6: true, priority, body });
        assert(rules.take(i + 1) =~= rules.take(i as int).push(rules[i as int]));
        assert(plan_view(out@) =~= plan_view(old(out)@) + rules.take(i + 1));
        i += 1;
    }
    assert(rules.take(i as int) =~= rules);
}

/// The users whose traffic is kept from the interface.
fn excluded_uids(cfg: &TunInboundConfig) -> (r: Vec<(u32, u32)>)
    ensures
        r@ == excluded_ranges(*cfg),
{
    let r = build_excluded_uid_ranges(cfg.include_uid.as_slice(), cfg.exclude_uid.as_slice());
    proof {
        let s = excluded_ranges(*cfg);
        assert(canonical(r@) && forall|x: u32| #[trigger]
            in_ranges(r@, x) <==> excluded_uid(cfg.include_uid@, cfg.exclude_uid@, x));
        law_canonical_is_unique(r@, s);
    }
    r
}

/// Adds a rule for each family that is in use.
fn emit_pair(
    out: &mut Vec<IpCommand>,
    v4: bool,
    v6: bool,
    p4: u32,
    p6: u32,
    body4: RuleBody<String>,
    body6: RuleBody<String>,
)
    requires
        body4@ == body6@,
    ensures
        plan_view(final(out)@) == plan_view(old(out)@) + rule_pair(
            v4,
            v6,
            p4 as int,
            p6 as int,
            body4@,
        ),
{
    emit_if(out, v4, false, p4, body4);
    emit_if(out, v6, true, p6, body6);
    assert(plan_view(out@) =~= plan_view(old(out)@) + rule_pair(
        v4,
        v6,
        p4 as int,
        p6 as int,
        body4@,
    ));
}

/// Starts a plan: the interface is brought up and gets the default routes.
fn begin_plan(cfg: &TunInboundConfig, addrs: &AddrInfo, if_name: &str) -> (out: Vec<IpCommand>)
    requires
        addrs.inet4@ == v4_prefixes(cfg.address@),
        addrs.inet6@ == v6_prefixes(cfg.address@),
    ensures
        plan_view(out@) == seq![IpCommandModel::LinkUp { dev: if_name@ }] + default_routes(
            *cfg,
            if_name@,
        ),
{
    let table = cfg.iproute2_table_index;
    let mut out: Vec<IpCommand> = Vec::new();
    emit(&mut out, IpCommandOf::LinkUp { dev: if_name.to_owned() });
    if addrs.inet4.len() > 0 {
        let via = IpAddr::V4(addrs.inet4[0].0.next());
        emit(&mut out, IpCommandOf::RouteAdd { via, dev: if_name.to_owned(), table });
    }
    if addrs.inet6.len() > 0 {
        let via = IpAddr::V6(addrs.inet6[0].0.next());
        emit(&mut out, IpCommandOf::RouteAdd { via, dev: if_name.to_owned(), table });
    }
    assert(plan_view(out@) =~= seq![IpCommandModel::LinkUp { dev: if_name@ }] + default_routes(
        *cfg,
        if_name@,
    ));
    out
}

/// Adds the rules on interfaces, and gives the priorities after them.
fn emit_interface_rules(
    out: &mut Vec<IpCommand>,
    cfg: &TunInboundConfig,
    v4: bool,
    v6: bool,
    p4: u32,
    p6: u32,
) -> (r: (u32, u32))
    requires
        v4 == has_v4(*cfg),
        v6 == has_v6(*cfg),
        p4 == interface_priority(*cfg, false),
        p6 == interface_priority(*cfg, true),
        cfg.iproute2_rule_index + 10 <= u32::MAX,
        strict_priority(*cfg, false) <= u32::MAX,
        strict_priority(*cfg, true) <= u32::MAX,
    ensures
        plan_view(final(out)@) == plan_view(old(out)@) + interface_rules(*cfg),
        r.0 == strict_priority(*cfg, false),
        r.1 == strict_priority(*cfg, true),
{
    let target = cfg.iproute2_rule_index + 10;
    let n = cfg.include_interface.len();
    let mut p: u32 = p4;
    let mut q: u32 = p6;
    if n > 0 {
        emit_included_rules(out, cfg, v4, v6, p, q);
        p = p + n as u32;
        q = q + n as u32;
        emit_pair(
            out,
            v4,
            v6,
            p,
            q,
            RuleBody::Goto { target },
            RuleBody::Goto { target },
        );
        assert(plan_view(out@) =~= plan_view(old(out)@) + interface_rules(*cfg));
    } else {
        emit_excluded_rules(out, cfg, v4, v6, p, q);
    }
    if n > 0 || cfg.exclude_interface.len() > 0 {
        if v4 {
            p = p + 1;
        }
        if v6 {
            q = q + 1;
        }
    }
    (p, q)
}

/// Adds the rules that lead traffic to the interface.
fn emit_lookup_rules(
    out: &mut Vec<IpCommand>,
    cfg: &TunInboundConfig,
    addrs: &AddrInfo,
    p4: u32,
    p6: u32,
)
    requires
        addrs.inet4@ == v4_prefixes(cfg.address@),
        addrs.inet6@ == v6_prefixes(cfg.address@),
        p4 == last_priority(*cfg, false),
        p6 == last_priority(*cfg, true),
        forall|i: int| 0 <= i < addrs.inet4@.len() ==> (#[trigger] addrs.inet4@[i]).1 >= 1,
        forall|i: int| 0 <= i < addrs.inet6@.len() ==> (#[trigger] addrs.inet6@[i]).1 >= 1,
    ensures
        plan_view(final(out)@) == plan_view(old(out)@) + lookup_rules(*cfg),
{
    let table = cfg.iproute2_table_index;
    let v4 = addrs.inet4.len() > 0;
    let v6 = addrs.inet6.len() > 0;
    let any = IpAddr::V4(Ipv4Addr { bits: 0 });
    emit_if(out, v4, false, p4, RuleBody::ForwardedLookup { table });
    emit_if(
        out,
        v4,
        false,
        p4,
        RuleBody::LocalFromLookup { net: any, prefix_len: 32, table },
    );
    emit_net_rules_v4(out, true, p4, table, &addrs.inet4);
    emit_if(out, v6, true, p6, RuleBody::ForwardedLookup { table });
    emit_net_rules_v6(out, true, p6, table, &addrs.inet6);
    assert(plan_view(out@) =~= plan_view(old(out)@) + lookup_rules(*cfg));
}

/// Whether the commands can be given: the priorities fit, and no prefix is empty.
pub open spec fn setup_fits(cfg: TunInboundConfig) -> bool {
    &&& anchor_priority(cfg) <= u32::MAX
    &&& last_priority(cfg, false) <= u32::MAX
    &&& last_priority(cfg, true) <= u32::MAX
    &&& forall|i: int|
        0 <= i < v4_prefixes(cfg.address@).len() ==> (#[trigger] v4_prefixes(cfg.address@)[i]).1
            >= 1
    &&& forall|i: int|
        0 <= i < v6_prefixes(cfg.address@).len() ==> (#[trigger] v6_prefixes(cfg.address@)[i]).1
            >= 1
}

/// Whether the last priority of a family fits.
fn last_priority_fits(cfg: &TunInboundConfig, v6: bool, used: bool, any_excluded: bool) -> (r:
    bool)
    requires
        used == has_family(*cfg, v6),
        any_excluded == (excluded_ranges(*cfg).len() > 0),
    ensures
        r == (last_priority(*cfg, v6) <= u32::MAX),
{
    let one: u128 = if used {
        1
    } else {
        0
    };
    let mut p: u128 = cfg.iproute2_rule_index as u128;
    if any_excluded {
        p = p + one;
    }
    if cfg.include_interface.len() > 0 {
        p = p + cfg.include_interface.len() as u128 + one;
    } else if cfg.exclude_interface.len() > 0 {
        p = p + one;
    }
    if cfg.strict_route && !used {
        p = p + 1;
    }
    p + one + one <= 0xffff_ffff
}

/// Whether the commands can be given.
pub fn can_setup(cfg: &TunInboundConfig) -> (r: bool)
    ensures
        r == setup_fits(*cfg),
{
    let addrs = parse_addresses(cfg);
    let any_excluded = excluded_uids(cfg).len() > 0;
    let v4 = addrs.inet4.len() > 0;
    let v6 = addrs.inet6.len() > 0;
    if cfg.iproute2_rule_index > 0xffff_ffff - 10 {
        return false;
    }
    if !last_priority_fits(cfg, false, v4, any_excluded) {
        return false;
    }
    if !last_priority_fits(cfg, true, v6, any_excluded) {
        return false;
    }
    let mut i: usize = 0;
    while i < addrs.inet4.len()
        invariant
            i <= addrs.inet4@.len(),
            addrs.inet4@ == v4_prefixes(cfg.address@),
            forall|k: int| 0 <= k < i ==> (#[trigger] addrs.inet4@[k]).1 >= 1,
        decreases addrs.inet4@.len() - i,
    {
        if addrs.inet4[i].1 < 1 {
            assert(v4_prefixes(cfg.address@)[i as int].1 < 1);
            return false;
        }
        i += 1;
    }
    let mut j: usize = 0;
    while j < addrs.inet6.len()
        invariant
            j <= addrs.inet6@.len(),
            addrs.inet6@ == v6_prefixes(cfg.address@),
            forall|k: int| 0 <= k < j ==> (#[trigger] addrs.inet6@[k]).1 >= 1,
        decreases addrs.inet6@.len() - j,
    {
        if addrs.inet6[j].1 < 1 {
            assert(v6_prefixes(cfg.address@)[j as int].1 < 1);
            return false;
        }
        j += 1;
    }
    true
}

/// The commands that lead the traffic of the system to the interface.
pub fn setup(cfg: &TunInboundConfig, if_name: &str) -> (r: Vec<IpCommand>)
    requires
        setup_fits(*cfg),
    ensures
        plan_view(r@) == setup_plan(*cfg, if_name@),
{
    let table = cfg.iproute2_table_index;
    let prio_base = cfg.iproute2_rule_index;
    let nop_prio = prio_base + 10;
    let addrs = parse_addresses(cfg);
    let v4 = addrs.inet4.len() > 0;
    let v6 = addrs.inet6.len() > 0;
    let mut out = begin_plan(cfg, &addrs, if_name);

    let excluded = excluded_uids(cfg);
    emit_uid_rules(&mut out, cfg, &excluded, v4, v6);
    let any_excluded = excluded.len() > 0;
    let p: u32 = after_rule(prio_base, any_excluded && v4);
    let p6: u32 = after_rule(prio_base, any_excluded && v6);

    let (p, p6) = emit_interface_rules(&mut out, cfg, v4, v6, p, p6);

    let strict_v4 = cfg.strict_route && !v4;
    let strict_v6 = cfg.strict_route && !v6;
    emit_pair(
        &mut out,
        strict_v4,
        strict_v6,
        p,
        p6,
        RuleBody::Unreachable,
        RuleBody::Unreachable,
    );
    let p: u32 = after_rule(p, strict_v4);
    let p6: u32 = after_rule(p6, strict_v6);

    emit_net_rules_v4(&mut out, false, p, table, &addrs.inet4);
    emit_net_rules_v6(&mut out, false, p6, table, &addrs.inet6);
    let p: u32 = after_rule(p, v4);
    let p6: u32 = after_rule(p6, v6);

    emit_pair(
        &mut out,
        v4,
        v6,
        p,
        p6,
        RuleBody::ForwardedSuppress { table },
        RuleBody::ForwardedSuppress { table },
    );
    let p: u32 = after_rule(p, v4);
    let p6: u32 = after_rule(p6, v6);

    emit_pair(
        &mut out,
        v4,
        v6,
        p,
        p6,
        RuleBody::IifGoto { iif: if_name.to_owned(), target: nop_prio },
        RuleBody::IifGoto { iif: if_name.to_owned(), target: nop_prio },
    );
    emit_lookup_rules(&mut out, cfg, &addrs, p, p6);
    emit_pair(&mut out, v4, v6, nop_prio, nop_prio, RuleBody::Nop, RuleBody::Nop);
    out
}

/// The priority after one that was used, if it was.
fn after_rule(priority: u32, used: bool) -> (r: u32)
    requires
        priority + one_if(used) <= u32::MAX,
    ensures
        r == priority + one_if(used),
{
    if used {
        priority + 1
    } else {
        priority
    }
}

/// The arguments that say what a rule does.
pub open spec fn rule_args(body: RuleBody<Seq<char>>) -> Seq<Seq<char>> {
    match body {
        RuleBody::UidGoto { lo, hi, target } => seq![
            "uidrange"@,
            decimal(lo as nat) + seq!['-'] + decimal(hi as nat),
            "goto"@,
            decimal(target as nat),
        ],
        RuleBody::IifGoto { iif, target } => seq!["iif"@, iif, "goto"@, decimal(target as nat)],
        RuleBody::Goto { target } => seq!["goto"@, decimal(target as nat)],
        RuleBody::Unreachable => seq!["type"@, "unreachable"@],
        RuleBody::ToLookup { net, prefix_len, table } => seq![
            "to"@,
            prefix_text(net, prefix_len),
            "lookup"@,
            decimal(table as nat),
        ],
        RuleBody::ForwardedSuppress { table } => seq![
            "not"@,
            "iif"@,
            "lo"@,
            "lookup"@,
            decimal(table as nat),
            "suppress_prefixlength"@,
            "0"@,
        ],
        RuleBody::ForwardedLookup { table } => seq![
            "not"@,
            "iif"@,
            "lo"@,
            "lookup"@,
            decimal(table as nat),
        ],
        RuleBody::LocalFromLookup { net, prefix_len, table } => seq![
            "iif"@,
            "lo"@,
            "from"@,
            prefix_text(net, prefix_len),
            "lookup"@,
            decimal(table as nat),
        ],
        RuleBody::Nop => Seq::empty(),
    }
}

/// The argument that picks IPv6.
pub open spec fn family_args(v6: bool) -> Seq<Seq<char>> {
    if v6 {
        seq!["-6"@]
    } else {
        Seq::empty()
    }
}

/// The arguments of an `ip` command.
pub open spec fn ip_args(c: IpCommandModel) -> Seq<Seq<char>> {
    match c {
        IpCommandOf::LinkUp { dev } => seq!["link"@, "set"@, dev, "up"@],
        IpCommandOf::RouteAdd { via, dev, table } => family_args(via is V6) + seq![
            "route"@,
            "add"@,
            if via is V6 {
                "::/0"@
            } else {
                "0.0.0.0/0"@
            },
            "via"@,
            ip_text(via),
            "dev"@,
            dev,
            "table"@,
            decimal(table as nat),
        ],
        IpCommandOf::RouteFlush { v6, table } => family_args(v6) + seq![
            "route"@,
            "flush"@,
            "table"@,
            decimal(table as nat),
        ],
        IpCommandOf::RuleAdd { v6, priority, body } => family_args(v6) + seq![
            "rule"@,
            "add"@,
            "priority"@,
            decimal(priority as nat),
        ] + rule_args(body),
        IpCommandOf::RuleDel { v6, priority } => family_args(v6) + seq![
            "rule"@,
            "del"@,
            "priority"@,
            decimal(priority as nat),
        ],
    }
}

/// Adds a number as an argument.
fn number_arg(out: &mut Vec<String>, n: u32)
    ensures
        texts(final(out)@) == texts(old(out)@).push(decimal(n as nat)),
{
    let text = decimal_text(n as u64);
    arg(out, text.as_str());
}

/// Adds a network as an argument.
fn network_arg(out: &mut Vec<String>, net: IpAddr, prefix_len: u8)
    ensures
        texts(final(out)@) == texts(old(out)@).push(prefix_text(net, prefix_len)),
{
    let text = net.text_with_prefix(prefix_len);
    arg(out, text.as_str());
}

/// Adds the arguments that say what a rule does.
fn push_rule_args(out: &mut Vec<String>, body: &RuleBody<String>)
    ensures
        texts(final(out)@) == texts(old(out)@) + rule_args(body@),
{
    match body {
        RuleBody::UidGoto { lo, hi, target } => {
            let mut range: String = String::new();
            push_numeral(&mut range, *lo as u64, 10);
            range.push('-');
            push_numeral(&mut range, *hi as u64, 10);
            assert(range@ =~= decimal(*lo as nat) + seq!['-'] + decimal(*hi as nat));
            arg(out, "uidrange");
            arg(out, range.as_str());
            arg(out, "goto");
            number_arg(out, *target);
        },
        RuleBody::IifGoto { iif, target } => {
            arg(out, "iif");
            arg(out, iif.as_str());
            arg(out, "goto");
            number_arg(out, *target);
        },
        RuleBody::Goto { target } => {
            arg(out, "goto");
            number_arg(out, *target);
        },
        RuleBody::Unreachable => {
            arg(out, "type");
            arg(out, "unreachable");
        },
        RuleBody::ToLookup { net, prefix_len, table } => {
            arg(out, "to");
            network_arg(out, *net, *prefix_len);
            arg(out, "lookup");
            number_arg(out, *table);
        },
        RuleBody::ForwardedSuppress { table } => {
            arg(out, "not");
            arg(out, "iif");
            arg(out, "lo");
            arg(out, "lookup");
            number_arg(out, *table);
            arg(out, "suppress_prefixlength");
            arg(out, "0");
        },
        RuleBody::ForwardedLookup { table } => {
            arg(out, "not");
            arg(out, "iif");
            arg(out, "lo");
            arg(out, "lookup");
            number_arg(out, *table);
        },
        RuleBody::LocalFromLookup { net, prefix_len, table } => {
            arg(out, "iif");
            arg(out, "lo");
            arg(out, "from");
            network_arg(out, *net, *prefix_len);
            arg(out, "lookup");
            number_arg(out, *table);
        },
        RuleBody::Nop => {},
    }
    assert(texts(out@) =~= texts(old(out)@) + rule_args(body@));
}

/// Adds the argument that picks IPv6.
fn push_family(out: &mut Vec<String>, v6: bool)
    ensures
        texts(final(out)@) == texts(old(out)@) + family_args(v6),
{
    if v6 {
        arg(out, "-6");
    }
    assert(texts(out@) =~= texts(old(out)@) + family_args(v6));
}

impl IpCommandOf<String> {
    /// The command to run.
    pub fn command(&self) -> (r: Command)
        ensures
            r@ == (CommandModel { program: "ip"@, args: ip_args(self@) }),
    {
        let mut args = no_args();
        match self {
            IpCommandOf::LinkUp { dev } => {
                arg(&mut args, "link");
                arg(&mut args, "set");
                arg(&mut args, dev.as_str());
                arg(&mut args, "up");
            },
            IpCommandOf::RouteAdd { via, dev, table } => {
                let v6 = via.is_ipv6();
                push_family(&mut args, v6);
                arg(&mut args, "route");
                arg(&mut args, "add");
                if v6 {
                    arg(&mut args, "::/0");
                } else {
                    arg(&mut args, "0.0.0.0/0");
                }
                arg(&mut args, "via");
                arg(&mut args, via.text().as_str());
                arg(&mut args, "dev");
                arg(&mut args, dev.as_str());
                arg(&mut args, "table");
                number_arg(&mut args, *table);
            },
            IpCommandOf::RouteFlush { v6, table } => {
                push_family(&mut args, *v6);
                arg(&mut args, "route");
                arg(&mut args, "flush");
                arg(&mut args, "table");
                number_arg(&mut args, *table);
            },
            IpCommandOf::RuleAdd { v6, priority, body } => {
                push_family(&mut args, *v6);
                arg(&mut args, "rule");
                arg(&mut args, "add");
                arg(&mut args, "priority");
                number_arg(&mut args, *priority);
                push_rule_args(&mut args, body);
            },
            IpCommandOf::RuleDel { v6, priority } => {
                push_family(&mut args, *v6);
                arg(&mut args, "rule");
                arg(&mut args, "del");
                arg(&mut args, "priority");
                number_arg(&mut args, *priority);
            },
        }
        assert(texts(args@) =~= ip_args(self@));
        Command { program: "ip".to_owned(), args }
    }
}

/// Whether the rules that a plan adds have priorities from `lo` to `hi`.
pub open spec fn rules_within(s: Seq<IpCommandModel>, lo: int, hi: int) -> bool {
    forall|i: int|
        0 <= i < s.len() ==> (#[trigger] s[i] matches IpCommandOf::RuleAdd { priority, .. } ==> lo
            <= priority <= hi)
}

proof fn lemma_within_concat(a: Seq<IpCommandModel>, b: Seq<IpCommandModel>, lo: int, hi: int)
    requires
        rules_within(a, lo, hi),
        rules_within(b, lo, hi),
    ensures
        rules_within(a + b, lo, hi),
{
    let c = a + b;
    assert forall|i: int| 0 <= i < c.len() implies (#[trigger] c[i] matches IpCommandOf::RuleAdd {
        priority,
        ..
    } ==> lo <= priority <= hi) by {
        if i < a.len() {
            assert(c[i] == a[i]);
        } else {
            assert(c[i] == b[i - a.len()]);
        }
    }
}

proof fn lemma_within_pair(
    v4: bool,
    v6: bool,
    p4: int,
    p6: int,
    body: RuleBody<Seq<char>>,
    lo: int,
    hi: int,
)
    requires
        0 <= lo <= hi <= u32::MAX,
        v4 ==> lo <= p4 <= hi,
        v6 ==> lo <= p6 <= hi,
    ensures
        rules_within(rule_pair(v4, v6, p4, p6, body), lo, hi),
{
    lemma_within_concat(rule_if(v4, false, p4, body), rule_if(v6, true, p6, body), lo, hi);
}

proof fn lemma_within_uid(cfg: TunInboundConfig, s: Seq<(u32, u32)>, lo: int, hi: int)
    requires
        0 <= lo <= cfg.iproute2_rule_index <= hi <= u32::MAX,
    ensures
        rules_within(uid_rules(cfg, s), lo, hi),
    decreases s.len(),
{
    if s.len() > 0 {
        let b = cfg.iproute2_rule_index as int;
        let body = RuleBody::UidGoto {
            lo: s.last().0,
            hi: s.last().1,
            target: anchor_priority(cfg) as u32,
        };
        lemma_within_uid(cfg, s.drop_last(), lo, hi);
        lemma_within_pair(has_v4(cfg), has_v6(cfg), b, b, body, lo, hi);
        lemma_within_concat(
            uid_rules(cfg, s.drop_last()),
            rule_pair(has_v4(cfg), has_v6(cfg), b, b, body),
            lo,
            hi,
        );
    }
}

proof fn lemma_within_included(cfg: TunInboundConfig, s: Seq<String>, lo: int, hi: int)
    requires
        0 <= lo <= cfg.iproute2_rule_index,
        hi <= u32::MAX,
        s.len() > 0 && has_v4(cfg) ==> interface_priority(cfg, false) + s.len() - 1 <= hi,
        s.len() > 0 && has_v6(cfg) ==> interface_priority(cfg, true) + s.len() - 1 <= hi,
        lo <= hi,
    ensures
        rules_within(included_rules(cfg, s), lo, hi),
    decreases s.len(),
{
    if s.len() > 0 {
        let p4 = interface_priority(cfg, false) + s.len() - 1;
        let p6 = interface_priority(cfg, true) + s.len() - 1;
        let r4 = rule_if(has_v4(cfg), false, p4, included_body(cfg, false, s.last()@));
        let r6 = rule_if(has_v6(cfg), true, p6, included_body(cfg, true, s.last()@));
        let before = included_rules(cfg, s.drop_last());
        lemma_within_included(cfg, s.drop_last(), lo, hi);
        lemma_within_concat(before, r4, lo, hi);
        lemma_within_concat(before + r4, r6, lo, hi);
    }
}

proof fn lemma_within_excluded(cfg: TunInboundConfig, s: Seq<String>, lo: int, hi: int)
    requires
        0 <= lo <= cfg.iproute2_rule_index,
        has_v4(cfg) ==> interface_priority(cfg, false) <= hi,
        has_v6(cfg) ==> interface_priority(cfg, true) <= hi,
        lo <= hi <= u32::MAX,
    ensures
        rules_within(excluded_rules(cfg, s), lo, hi),
    decreases s.len(),
{
    if s.len() > 0 {
        let p4 = interface_priority(cfg, false);
        let p6 = interface_priority(cfg, true);
        let body = RuleBody::IifGoto { iif: s.last()@, target: anchor_priority(cfg) as u32 };
        lemma_within_excluded(cfg, s.drop_last(), lo, hi);
        lemma_within_pair(has_v4(cfg), has_v6(cfg), p4, p6, body, lo, hi);
        lemma_within_concat(
            excluded_rules(cfg, s.drop_last()),
            rule_pair(has_v4(cfg), has_v6(cfg), p4, p6, body),
            lo,
            hi,
        );
    }
}

/// As long as the rules before the anchor do not run past it, every rule that is set up has a
/// priority from the configured one up to the anchor.
pub proof fn law_rules_end_at_anchor(cfg: TunInboundConfig, if_name: Seq<char>)
    requires
        anchor_priority(cfg) <= u32::MAX,
        last_priority(cfg, false) <= anchor_priority(cfg),
        last_priority(cfg, true) <= anchor_priority(cfg),
    ensures
        rules_within(
            setup_plan(cfg, if_name),
            cfg.iproute2_rule_index as int,
            anchor_priority(cfg),
        ),
{
    let lo = cfg.iproute2_rule_index as int;
    let hi = anchor_priority(cfg);
    let table = cfg.iproute2_table_index;
    let v4 = has_v4(cfg);
    let v6 = has_v6(cfg);
    let n = cfg.include_interface@.len();
    let q4 = interface_priority(cfg, false) + n;
    let q6 = interface_priority(cfg, true) + n;

    let s0 = seq![IpCommandModel::LinkUp { dev: if_name }];
    let s1 = default_routes(cfg, if_name);
    assert(rules_within(s0, lo, hi) && rules_within(s1, lo, hi));
    lemma_within_concat(s0, s1, lo, hi);
    let t1 = s0 + s1;

    let s2 = uid_rules(cfg, excluded_ranges(cfg));
    lemma_within_uid(cfg, excluded_ranges(cfg), lo, hi);
    lemma_within_concat(t1, s2, lo, hi);
    let t2 = t1 + s2;

    if n > 0 {
        let go = RuleBody::Goto { target: hi as u32 };
        lemma_within_included(cfg, cfg.include_interface@, lo, hi);
        lemma_within_pair(v4, v6, q4, q6, go, lo, hi);
        lemma_within_concat(
            included_rules(cfg, cfg.include_interface@),
            rule_pair(v4, v6, q4, q6, go),
            lo,
            hi,
        );
    } else {
        lemma_within_excluded(cfg, cfg.exclude_interface@, lo, hi);
    }
    lemma_within_concat(t2, interface_rules(cfg), lo, hi);
    let t3 = t2 + interface_rules(cfg);

    lemma_within_pair(
        cfg.strict_route && !v4,
        cfg.strict_route && !v6,
        strict_priority(cfg, false),
        strict_priority(cfg, true),
        RuleBody::Unreachable,
        lo,
        hi,
    );
    lemma_within_concat(t3, strict_rules(cfg), lo, hi);
    let t4 = t3 + strict_rules(cfg);

    let to4 = to_rules_v4(network_priority(cfg, false), table, v4_prefixes(cfg.address@));
    let to6 = to_rules_v6(network_priority(cfg, true), table, v6_prefixes(cfg.address@));
    lemma_within_concat(t4, to4, lo, hi);
    lemma_within_concat(t4 + to4, to6, lo, hi);
    let t5 = t4 + to4 + to6;

    let p4 = suppress_priority(cfg, false);
    let p6 = suppress_priority(cfg, true);
    let suppress = RuleBody::ForwardedSuppress { table };
    lemma_within_pair(v4, v6, p4, p6, suppress, lo, hi);
    lemma_within_concat(t5, rule_pair(v4, v6, p4, p6, suppress), lo, hi);
    let t6 = t5 + rule_pair(v4, v6, p4, p6, suppress);

    let l4 = last_priority(cfg, false);
    let l6 = last_priority(cfg, true);
    let own = RuleBody::IifGoto { iif: if_name, target: hi as u32 };
    lemma_within_pair(v4, v6, l4, l6, own, lo, hi);
    lemma_within_concat(t6, rule_pair(v4, v6, l4, l6, own), lo, hi);
    let t7 = t6 + rule_pair(v4, v6, l4, l6, own);

    lemma_within_lookup(cfg);
    lemma_within_concat(t7, lookup_rules(cfg), lo, hi);
    let t8 = t7 + lookup_rules(cfg);

    lemma_within_pair(v4, v6, hi, hi, RuleBody::Nop, lo, hi);
    lemma_within_concat(t8, rule_pair(v4, v6, hi, hi, RuleBody::Nop), lo, hi);
}

proof fn lemma_within_lookup(cfg: TunInboundConfig)
    requires
        anchor_priority(cfg) <= u32::MAX,
        last_priority(cfg, false) <= anchor_priority(cfg),
        last_priority(cfg, true) <= anchor_priority(cfg),
    ensures
        rules_within(lookup_rules(cfg), cfg.iproute2_rule_index as int, anchor_priority(cfg)),
{
    let lo = cfg.iproute2_rule_index as int;
    let hi = anchor_priority(cfg);
    let table = cfg.iproute2_table_index;
    let p4 = last_priority(cfg, false);
    let p6 = last_priority(cfg, true);
    let body = RuleBody::ForwardedLookup { table };
    let any = RuleBody::LocalFromLookup {
        net: IpAddr::V4(Ipv4Addr { bits: 0 }),
        prefix_len: 32,
        table,
    };
    let a = rule_if(has_v4(cfg), false, p4, body);
    let b = rule_if(has_v4(cfg), false, p4, any);
    let c = from_rules_v4(p4, table, v4_prefixes(cfg.address@));
    let d = rule_if(has_v6(cfg), true, p6, body);
    let e = from_rules_v6(p6, table, v6_prefixes(cfg.address@));
    lemma_within_concat(a, b, lo, hi);
    lemma_within_concat(a + b, c, lo, hi);
    lemma_within_concat(a + b + c, d, lo, hi);
    lemma_within_concat(a + b + c + d, e, lo, hi);
}

/// With up to six interfaces to be routed the rules before the anchor do not run past it.
pub proof fn law_six_interfaces_fit(cfg: TunInboundConfig)
    requires
        cfg.include_interface@.len() <= 6,
    ensures
        last_priority(cfg, false) <= anchor_priority(cfg),
        last_priority(cfg, true) <= anchor_priority(cfg),
{
}

/// Whether a command that adds a rule on another interface than the TUN device itself leads past
/// the rule for the traffic of all interfaces that are not listed, to the rules that come next.
pub open spec fn leads_past(cfg: TunInboundConfig, if_name: Seq<char>, c: IpCommandModel) -> bool {
    match c {
        IpCommandOf::RuleAdd { v6, priority, body: RuleBody::IifGoto { iif, target } } => {
            ||| iif == if_name
            ||| {
                &&& has_family(cfg, v6)
                &&& priority < unlisted_priority(cfg, v6) < target
                &&& target == network_priority(cfg, v6)
            }
        },
        _ => true,
    }
}

/// Whether all commands of a plan do so.
pub open spec fn all_lead_past(
    cfg: TunInboundConfig,
    if_name: Seq<char>,
    s: Seq<IpCommandModel>,
) -> bool {
    forall|i: int| 0 <= i < s.len() ==> leads_past(cfg, if_name, #[trigger] s[i])
}

proof fn lemma_past_concat(
    cfg: TunInboundConfig,
    if_name: Seq<char>,
    a: Seq<IpCommandModel>,
    b: Seq<IpCommandModel>,
)
    requires
        all_lead_past(cfg, if_name, a),
        all_lead_past(cfg, if_name, b),
    ensures
        all_lead_past(cfg, if_name, a + b),
{
    let c = a + b;
    assert forall|i: int| 0 <= i < c.len() implies leads_past(cfg, if_name, #[trigger] c[i]) by {
        if i < a.len() {
            assert(c[i] == a[i]);
        } else {
            assert(c[i] == b[i - a.len()]);
        }
    }
}

/// What a plan contains that is put together of two.
proof fn lemma_contains_concat(a: Seq<IpCommandModel>, b: Seq<IpCommandModel>, c: IpCommandModel)
    ensures
        a.contains(c) || b.contains(c) ==> (a + b).contains(c),
{
    if a.contains(c) {
        let i = choose|i: int| 0 <= i < a.len() && a[i] == c;
        assert((a + b)[i] == c);
    } else if b.contains(c) {
        let i = choose|i: int| 0 <= i < b.len() && b[i] == c;
        assert((a + b)[a.len() + i] == c);
    }
}

/// The rule on the `k`th interface whose traffic is routed.
pub open spec fn included_rule(cfg: TunInboundConfig, v6: bool, k: int) -> IpCommandModel {
    IpCommandOf::RuleAdd {
        v6,
        priority: (interface_priority(cfg, v6) + k) as u32,
        body: included_body(cfg, v6, cfg.include_interface@[k]@),
    }
}

/// The rule for the traffic of all interfaces that are not listed.
pub open spec fn unlisted_rule(cfg: TunInboundConfig, v6: bool) -> IpCommandModel {
    IpCommandOf::RuleAdd {
        v6,
        priority: unlisted_priority(cfg, v6) as u32,
        body: RuleBody::Goto { target: anchor_priority(cfg) as u32 },
    }
}

/// The rules on the interfaces whose traffic is routed are one for each of them.
proof fn lemma_included(cfg: TunInboundConfig, if_name: Seq<char>, n: int)
    requires
        setup_fits(cfg),
        0 <= n <= cfg.include_interface@.len(),
    ensures
        all_lead_past(cfg, if_name, included_rules(cfg, cfg.include_interface@.take(n))),
        forall|k: int, v6: bool|
            0 <= k < n && has_family(cfg, v6) ==> included_rules(
                cfg,
                cfg.include_interface@.take(n),
            ).contains(#[trigger] included_rule(cfg, v6, k)),
    decreases n,
{
    if n > 0 {
        let s = cfg.include_interface@.take(n);
        assert(s.drop_last() =~= cfg.include_interface@.take(n - 1));
        lemma_included(cfg, if_name, n - 1);
        let before = included_rules(cfg, s.drop_last());
        let p4 = interface_priority(cfg, false) + n - 1;
        let p6 = interface_priority(cfg, true) + n - 1;
        let r4 = rule_if(has_v4(cfg), false, p4, included_body(cfg, false, s.last()@));
        let r6 = rule_if(has_v6(cfg), true, p6, included_body(cfg, true, s.last()@));
        lemma_past_concat(cfg, if_name, before, r4);
        lemma_past_concat(cfg, if_name, before + r4, r6);
        assert forall|k: int, v6: bool| 0 <= k < n && has_family(cfg, v6) implies included_rules(
            cfg,
            s,
        ).contains(#[trigger] included_rule(cfg, v6, k)) by {
            let c = included_rule(cfg, v6, k);
            if k < n - 1 {
                assert(before.contains(c));
            } else if v6 {
                assert(r6[0] == c);
            } else {
                assert(r4[0] == c);
            }
            lemma_contains_concat(before, r4, c);
            lemma_contains_concat(before + r4, r6, c);
        }
    }
}

/// The rules on interfaces, where those whose traffic is routed are listed.
proof fn lemma_interface_rules(cfg: TunInboundConfig, if_name: Seq<char>)
    requires
        setup_fits(cfg),
        cfg.include_interface@.len() > 0,
    ensures
        all_lead_past(cfg, if_name, interface_rules(cfg)),
        forall|k: int, v6: bool|
            0 <= k < cfg.include_interface@.len() && has_family(cfg, v6) ==> interface_rules(
                cfg,
            ).contains(#[trigger] included_rule(cfg, v6, k)),
        forall|v6: bool|
            has_family(cfg, v6) ==> interface_rules(cfg).contains(
                #[trigger] unlisted_rule(cfg, v6),
            ),
{
    let n = cfg.include_interface@.len() as int;
    let listed = included_rules(cfg, cfg.include_interface@);
    let go = RuleBody::Goto { target: anchor_priority(cfg) as u32 };
    let r4 = rule_if(has_v4(cfg), false, unlisted_priority(cfg, false), go);
    let r6 = rule_if(has_v6(cfg), true, unlisted_priority(cfg, true), go);
    assert(cfg.include_interface@.take(n) =~= cfg.include_interface@);
    lemma_included(cfg, if_name, n);
    lemma_past_concat(cfg, if_name, r4, r6);
    lemma_past_concat(cfg, if_name, listed, r4 + r6);
    assert forall|k: int, v6: bool| 0 <= k < n && has_family(cfg, v6) implies interface_rules(
        cfg,
    ).contains(#[trigger] included_rule(cfg, v6, k)) by {
        lemma_contains_concat(listed, r4 + r6, included_rule(cfg, v6, k));
    }
    assert forall|v6: bool| has_family(cfg, v6) implies interface_rules(cfg).contains(
        #[trigger] unlisted_rule(cfg, v6),
    ) by {
        let c = unlisted_rule(cfg, v6);
        if v6 {
            assert(r6[0] == c);
        } else {
            assert(r4[0] == c);
        }
        lemma_contains_concat(r4, r6, c);
        lemma_contains_concat(listed, r4 + r6, c);
    }
}

/// The rules on users lead past nothing: they are not on interfaces.
proof fn lemma_past_uid(cfg: TunInboundConfig, if_name: Seq<char>, s: Seq<(u32, u32)>)
    ensures
        all_lead_past(cfg, if_name, uid_rules(cfg, s)),
    decreases s.len(),
{
    if s.len() > 0 {
        let b = cfg.iproute2_rule_index as int;
        let body = RuleBody::UidGoto {
            lo: s.last().0,
            hi: s.last().1,
            target: anchor_priority(cfg) as u32,
        };
        let pair = rule_pair(has_v4(cfg), has_v6(cfg), b, b, body);
        lemma_past_uid(cfg, if_name, s.drop_last());
        assert(all_lead_past(cfg, if_name, pair));
        lemma_past_concat(cfg, if_name, uid_rules(cfg, s.drop_last()), pair);
    }
}

/// Whether a plan adds a rule of a family and a priority.
pub open spec fn adds_at(s: Seq<IpCommandModel>, v6: bool, priority: int) -> bool {
    exists|i: int|
        0 <= i < s.len() && (#[trigger] s[i] matches IpCommandOf::RuleAdd { v6: f, priority: p, .. }
            && f == v6 && p == priority)
}

/// Where the interfaces whose traffic is routed are listed, their traffic passes by the rule that
/// sends the traffic of all others to the anchor: each has a rule for each family in use, with a
/// priority before that rule, that leads to the rules on the networks of the interface, which come
/// after it and are there. No other rule on an interface is set up but that on the TUN device itself.
pub proof fn law_listed_interfaces_are_routed(cfg: TunInboundConfig, if_name: Seq<char>)
    requires
        setup_fits(cfg),
        cfg.include_interface@.len() > 0,
    ensures
        all_lead_past(cfg, if_name, setup_plan(cfg, if_name)),
        forall|k: int, v6: bool|
            0 <= k < cfg.include_interface@.len() && has_family(cfg, v6) ==> setup_plan(
                cfg,
                if_name,
            ).contains(#[trigger] included_rule(cfg, v6, k)) && interface_priority(cfg, v6) + k
                < unlisted_priority(cfg, v6) < network_priority(cfg, v6) <= u32::MAX,
        forall|v6: bool|
            has_family(cfg, v6) ==> setup_plan(cfg, if_name).contains(
                #[trigger] unlisted_rule(cfg, v6),
            ),
        forall|v6: bool| #[trigger]
            has_family(cfg, v6) ==> adds_at(setup_plan(cfg, if_name), v6, network_priority(cfg, v6)),
{
    let table = cfg.iproute2_table_index;
    let v4 = has_v4(cfg);
    let v6 = has_v6(cfg);
    let a = seq![IpCommandModel::LinkUp { dev: if_name }];
    let b = default_routes(cfg, if_name);
    let c = uid_rules(cfg, excluded_ranges(cfg));
    let d = interface_rules(cfg);
    let e = strict_rules(cfg);
    let f = to_rules_v4(network_priority(cfg, false), table, v4_prefixes(cfg.address@));
    let g = to_rules_v6(network_priority(cfg, true), table, v6_prefixes(cfg.address@));
    let h = rule_pair(
        v4,
        v6,
        suppress_priority(cfg, false),
        suppress_priority(cfg, true),
        RuleBody::ForwardedSuppress { table },
    );
    let own = RuleBody::IifGoto { iif: if_name, target: anchor_priority(cfg) as u32 };
    let k = rule_pair(v4, v6, last_priority(cfg, false), last_priority(cfg, true), own);
    let l = lookup_rules(cfg);
    let anchor = anchor_priority(cfg);
    let m = rule_pair(v4, v6, anchor, anchor, RuleBody::Nop);
    lemma_past_uid(cfg, if_name, excluded_ranges(cfg));
    lemma_interface_rules(cfg, if_name);
    lemma_past_lookup(cfg, if_name);
    lemma_past_concat(cfg, if_name, a, b);
    lemma_past_concat(cfg, if_name, a + b, c);
    lemma_past_concat(cfg, if_name, a + b + c, d);
    lemma_past_concat(cfg, if_name, a + b + c + d, e);
    lemma_past_concat(cfg, if_name, a + b + c + d + e, f);
    lemma_past_concat(cfg, if_name, a + b + c + d + e + f, g);
    lemma_past_concat(cfg, if_name, a + b + c + d + e + f + g, h);
    lemma_past_concat(cfg, if_name, a + b + c + d + e + f + g + h, k);
    lemma_past_concat(cfg, if_name, a + b + c + d + e + f + g + h + k, l);
    lemma_past_concat(cfg, if_name, a + b + c + d + e + f + g + h + k + l, m);
    assert forall|x: IpCommandModel| #[trigger] d.contains(x) implies setup_plan(
        cfg,
        if_name,
    ).contains(x) by {
        lemma_contains_concat(a + b + c, d, x);
        lemma_contains_concat(a + b + c + d, e, x);
        lemma_contains_concat(a + b + c + d + e, f, x);
        lemma_contains_concat(a + b + c + d + e + f, g, x);
        lemma_contains_concat(a + b + c + d + e + f + g, h, x);
        lemma_contains_concat(a + b + c + d + e + f + g + h, k, x);
        lemma_contains_concat(a + b + c + d + e + f + g + h + k, l, x);
        lemma_contains_concat(a + b + c + d + e + f + g + h + k + l, m, x);
    }
    let at = (a + b + c + d + e).len() as int;
    let plan = setup_plan(cfg, if_name);
    assert forall|w6: bool| #[trigger] has_family(cfg, w6) implies adds_at(
        plan,
        w6,
        network_priority(cfg, w6),
    ) by {
        if w6 {
            assert(plan[at + f.len()] == g[0]);
        } else {
            assert(plan[at] == f[0]);
        }
    }
}

proof fn lemma_past_lookup(cfg: TunInboundConfig, if_name: Seq<char>)
    ensures
        all_lead_past(cfg, if_name, lookup_rules(cfg)),
{
    let table = cfg.iproute2_table_index;
    let p4 = last_priority(cfg, false);
    let p6 = last_priority(cfg, true);
    let body = RuleBody::ForwardedLookup { table };
    let any = RuleBody::LocalFromLookup {
        net: IpAddr::V4(Ipv4Addr { bits: 0 }),
        prefix_len: 32,
        table,
    };
    let a = rule_if(has_v4(cfg), false, p4, body);
    let b = rule_if(has_v4(cfg), false, p4, any);
    let c = from_rules_v4(p4, table, v4_prefixes(cfg.address@));
    let d = rule_if(has_v6(cfg), true, p6, body);
    let e = from_rules_v6(p6, table, v6_prefixes(cfg.address@));
    lemma_past_concat(cfg, if_name, a, b);
    lemma_past_concat(cfg, if_name, a + b, c);
    lemma_past_concat(cfg, if_name, a + b + c, d);
    lemma_past_concat(cfg, if_name, a + b + c + d, e);
}

/// How many rules of a family and a priority a plan adds.
pub open spec fn added(s: Seq<IpCommandModel>, v6: bool, priority: u32) -> int
    decreases s.len(),
{
    if s.len() == 0 {
        0
    } else {
        added(s.drop_last(), v6, priority) + one_if(
            s.last() matches IpCommandOf::RuleAdd { v6: f, priority: p, .. } && f == v6 && p
                == priority,
        )
    }
}

/// How many rules of a family and a priority a plan deletes.
pub open spec fn deleted(s: Seq<IpCommandModel>, v6: bool, priority: u32) -> int
    decreases s.len(),
{
    if s.len() == 0 {
        0
    } else {
        deleted(s.drop_last(), v6, priority) + one_if(
            s.last() == (IpCommandModel::RuleDel { v6, priority }),
        )
    }
}

/// A plan adds no rule outside the priorities of its rules.
proof fn lemma_none_added(s: Seq<IpCommandModel>, lo: int, hi: int, v6: bool, priority: u32)
    requires
        rules_within(s, lo, hi),
        !(lo <= priority <= hi),
    ensures
        added(s, v6, priority) == 0,
    decreases s.len(),
{
    if s.len() > 0 {
        let t = s.drop_last();
        assert(s.last() == s[s.len() - 1]);
        assert(rules_within(t, lo, hi)) by {
            assert forall|i: int| 0 <= i < t.len() implies (
            #[trigger] t[i] matches IpCommandOf::RuleAdd { priority, .. } ==> lo <= priority
                <= hi) by {
                assert(t[i] == s[i]);
            }
        }
        lemma_none_added(t, lo, hi, v6, priority);
    }
}

/// How many of the first `k` commands that undo the routing delete a rule of a family and of the
/// `d`th priority.
proof fn lemma_deleted(cfg: TunInboundConfig, v6: bool, d: int, k: int)
    requires
        anchor_priority(cfg) <= u32::MAX,
        0 <= d <= 10,
        0 <= k <= 110,
    ensures
        deleted(
            teardown_plan(cfg).take(2 + k),
            v6,
            (cfg.iproute2_rule_index + d) as u32,
        ) == if k <= 10 * d {
            0
        } else if k >= 10 * d + 10 {
            5
        } else {
            (k - 10 * d + 1 - one_if(v6)) / 2
        },
    decreases k,
{
    let plan = teardown_plan(cfg);
    let p = (cfg.iproute2_rule_index + d) as u32;
    let s = plan.take(2 + k);
    if k == 0 {
        assert(s.drop_last() =~= plan.take(1));
        assert(plan.take(1).drop_last() =~= plan.take(0));
        assert(deleted(plan.take(0), v6, p) == 0);
        assert(deleted(plan.take(1), v6, p) == 0);
    } else {
        lemma_deleted(cfg, v6, d, k - 1);
        assert(s.drop_last() =~= plan.take(1 + k));
        assert(s.last() == (IpCommandModel::RuleDel {
            v6: (k - 1) % 2 == 1,
            priority: (cfg.iproute2_rule_index + (k - 1) / 10) as u32,
        }));
    }
}

/// At least as many rules of each family and each priority are deleted as were added, where there
/// are no more than five and they do not run past the anchor; none is deleted at other priorities
/// than those from the configured one up to the anchor, and the tables of both families, into
/// which the routes went, are emptied.
pub proof fn law_teardown_deletes_as_many(
    cfg: TunInboundConfig,
    if_name: Seq<char>,
    v6: bool,
    priority: u32,
)
    requires
        anchor_priority(cfg) <= u32::MAX,
        last_priority(cfg, false) <= anchor_priority(cfg),
        last_priority(cfg, true) <= anchor_priority(cfg),
        added(setup_plan(cfg, if_name), v6, priority) <= 5,
    ensures
        deleted(teardown_plan(cfg), v6, priority) >= added(
            setup_plan(cfg, if_name),
            v6,
            priority,
        ),
        forall|i: int|
            0 <= i < teardown_plan(cfg).len() ==> (#[trigger] teardown_plan(
                cfg,
            )[i] matches IpCommandOf::RuleDel { priority: p, .. } ==> cfg.iproute2_rule_index <= p
                <= anchor_priority(cfg)),
        teardown_plan(cfg).contains(
            IpCommandOf::RouteFlush { v6: false, table: cfg.iproute2_table_index },
        ),
        teardown_plan(cfg).contains(
            IpCommandOf::RouteFlush { v6: true, table: cfg.iproute2_table_index },
        ),
        forall|i: int|
            0 <= i < default_routes(cfg, if_name).len() ==> (#[trigger] default_routes(
                cfg,
                if_name,
            )[i] matches IpCommandOf::RouteAdd { table, .. } ==> table
                == cfg.iproute2_table_index),
{
    let plan = teardown_plan(cfg);
    let lo = cfg.iproute2_rule_index as int;
    let hi = anchor_priority(cfg);
    law_rules_end_at_anchor(cfg, if_name);
    if lo <= priority <= hi {
        lemma_deleted(cfg, v6, priority - lo, 110);
        assert(plan.take(112) =~= plan);
    } else {
        lemma_none_added(setup_plan(cfg, if_name), lo, hi, v6, priority);
        lemma_deleted_nonneg(plan, v6, priority);
    }
    assert(plan[0] == (IpCommandModel::RouteFlush { v6: false, table: cfg.iproute2_table_index }));
    assert(plan[1] == (IpCommandModel::RouteFlush { v6: true, table: cfg.iproute2_table_index }));
}

proof fn lemma_deleted_nonneg(s: Seq<IpCommandModel>, v6: bool, priority: u32)
    ensures
        deleted(s, v6, priority) >= 0,
    decreases s.len(),
{
    if s.len() > 0 {
        lemma_deleted_nonneg(s.drop_last(), v6, priority);
    }
}

/// For every rule that is set up, a rule of its family and priority is deleted again.
pub proof fn law_teardown_reaches_every_rule(
    cfg: TunInboundConfig,
    if_name: Seq<char>,
    i: int,
)
    requires
        anchor_priority(cfg) <= u32::MAX,
        last_priority(cfg, false) <= anchor_priority(cfg),
        last_priority(cfg, true) <= anchor_priority(cfg),
        0 <= i < setup_plan(cfg, if_name).len(),
    ensures
        setup_plan(cfg, if_name)[i] matches IpCommandOf::RuleAdd { v6, priority, .. }
            ==> teardown_plan(cfg).contains(IpCommandOf::RuleDel { v6, priority }),
{
    law_rules_end_at_anchor(cfg, if_name);
    if let IpCommandOf::RuleAdd { v6, priority, .. } = setup_plan(cfg, if_name)[i] {
        let k = 10 * (priority - cfg.iproute2_rule_index) + one_if(v6);
        assert(k % 2 == one_if(v6) && k / 10 == priority - cfg.iproute2_rule_index);
        assert(0 <= k < 110);
        assert(teardown_plan(cfg)[2 + k] == (IpCommandModel::RuleDel { v6, priority }));
    }
}

} // verus!
