//! What the routing on Linux comes to: which commands the setup gives, rule by rule.
use vstd::arithmetic::power2::pow2;
use vstd::prelude::*;

use crate::config::inbound::TunInboundConfig;
use crate::inbound::tun::address::{
    law_prefix_lengths_fit, network_v4, network_v6, v4_prefixes, v6_prefixes,
};
use crate::inbound::tun::platform::command::Command;
use crate::inbound::tun::platform::linux::{
    can_setup, default_routes, excluded_ranges, excluded_rules, from_rules_v4, from_rules_v6,
    has_family, included_body, included_rules, interface_priority, interface_rules, ip_args,
    last_priority, lookup_rules, net_v4, net_v6, network_priority, plan_view, rule_args, rule_if,
    rule_pair, setup, setup_fits, setup_plan, strict_priority, strict_rules, suppress_priority,
    teardown, teardown_plan, to_rules_v4, to_rules_v6, uid_rules, unlisted_priority, IpCommand,
    IpCommandModel, IpCommandOf, RuleBody,
};
use crate::inbound::tun::platform::ranges::{
    canonical, excluded_uid, gaps, in_ranges, joined, law_gaps_are_complement,
    law_merge_is_canonical, sorted_ranges,
};
use crate::net::{ip_text, prefix_text, IpAddr, Ipv4Addr};
use crate::text::decimal;

verus! {

/// Whether a family has an address.
pub open spec fn used(cfg: TunInboundConfig, v6: bool) -> bool {
    if v6 {
        v6_prefixes(cfg.address@).len() > 0
    } else {
        v4_prefixes(cfg.address@).len() > 0
    }
}

/// Whether the traffic of a user is kept from the interface: that of every user who is not listed,
/// where those are listed whose traffic is routed, and in any case that of the users who are
/// listed as excluded. The highest number is no user.
pub open spec fn kept_out(cfg: TunInboundConfig, uid: u32) -> bool {
    if cfg.include_uid@.len() > 0 {
        uid < 0xffff_ffff && (!cfg.include_uid@.contains(uid) || cfg.exclude_uid@.contains(uid))
    } else {
        cfg.exclude_uid@.contains(uid)
    }
}

/// Whether there is a user whose traffic is kept from the interface.
pub open spec fn some_kept_out(cfg: TunInboundConfig) -> bool {
    exists|uid: u32| #[trigger] kept_out(cfg, uid)
}

/// Whether the users from `lo` to `hi`, and neither the one before nor the one after, are kept
/// out.
pub open spec fn whole_run(cfg: TunInboundConfig, lo: u32, hi: u32) -> bool {
    &&& lo <= hi
    &&& forall|uid: u32| lo <= uid <= hi ==> #[trigger] kept_out(cfg, uid)
    &&& lo > 0 ==> !kept_out(cfg, (lo - 1) as u32)
    &&& hi < u32::MAX ==> !kept_out(cfg, (hi + 1) as u32)
}

/// Where the rules on interfaces start, for a family in use: at the base, or after it where there
/// are rules on users.
pub open spec fn first_step(cfg: TunInboundConfig) -> int {
    cfg.iproute2_rule_index + if some_kept_out(cfg) {
        1int
    } else {
        0
    }
}

/// Where the rules on networks stand, for a family in use: after the rules on interfaces, of which
/// there is one for each that is listed and one for all others, or one step for all that are
/// excluded, or none.
pub open spec fn network_step(cfg: TunInboundConfig) -> int {
    first_step(cfg) + if cfg.include_interface@.len() > 0 {
        cfg.include_interface@.len() + 1
    } else if cfg.exclude_interface@.len() > 0 {
        1
    } else {
        0
    }
}

/// Whether a network of the given prefix length is that of an address of a family.
pub open spec fn own_network(
    cfg: TunInboundConfig,
    v6: bool,
    net: IpAddr,
    prefix_len: u8,
) -> bool {
    match net {
        IpAddr::V4(n) => !v6 && exists|k: int|
            0 <= k < v4_prefixes(cfg.address@).len() && {
                let (ip, len) = #[trigger] v4_prefixes(cfg.address@)[k];
                &&& len == prefix_len
                &&& n.bits == ip.bits - ip.bits as int % pow2((32 - len) as nat) as int
            },
        IpAddr::V6(n) => v6 && exists|k: int|
            0 <= k < v6_prefixes(cfg.address@).len() && {
                let (ip, len) = #[trigger] v6_prefixes(cfg.address@)[k];
                &&& len == prefix_len
                &&& n.bits == ip.bits - ip.bits as int % pow2((128 - len) as nat) as int
            },
    }
}

/// Whether a rule of a family in use is to be there.
pub open spec fn wanted_rule(
    cfg: TunInboundConfig,
    if_name: Seq<char>,
    v6: bool,
    priority: int,
    body: RuleBody<Seq<char>>,
) -> bool {
    let base = cfg.iproute2_rule_index;
    let nets = network_step(cfg);
    match body {
        RuleBody::UidGoto { lo, hi, target } => {
            &&& target == base + 10
            &&& priority == base
            &&& whole_run(cfg, lo, hi)
        },
        RuleBody::IifGoto { iif, target } => {
            ||| iif == if_name && target == base + 10 && priority == nets + 2
            ||| cfg.include_interface@.len() == 0 && target == base + 10 && priority == first_step(
                cfg,
            ) && exists|k: int|
                0 <= k < cfg.exclude_interface@.len() && (#[trigger] cfg.exclude_interface@[k])@
                    == iif
            ||| target == nets && exists|k: int|
                0 <= k < cfg.include_interface@.len() && (#[trigger] cfg.include_interface@[k])@
                    == iif && priority == first_step(cfg) + k
        },
        RuleBody::Goto { target } => {
            &&& cfg.include_interface@.len() > 0
            &&& target == base + 10
            &&& priority == first_step(cfg) + cfg.include_interface@.len()
        },
        RuleBody::Unreachable => false,
        RuleBody::ToLookup { net, prefix_len, table } => {
            &&& table == cfg.iproute2_table_index
            &&& priority == nets
            &&& own_network(cfg, v6, net, prefix_len)
        },
        RuleBody::ForwardedSuppress { table } => table == cfg.iproute2_table_index && priority
            == nets + 1,
        RuleBody::ForwardedLookup { table } => table == cfg.iproute2_table_index && priority
            == nets + 2,
        RuleBody::LocalFromLookup { net, prefix_len, table } => {
            &&& table == cfg.iproute2_table_index
            &&& priority == nets + 2
            &&& own_network(cfg, v6, net, prefix_len) || (!v6 && net == IpAddr::V4(
                Ipv4Addr { bits: 0 },
            ) && prefix_len == 32)
        },
        RuleBody::Nop => priority == base + 10,
    }
}

/// Whether a command is to be among those of the setup.
pub open spec fn wanted(cfg: TunInboundConfig, if_name: Seq<char>, c: IpCommandModel) -> bool {
    match c {
        IpCommandOf::LinkUp { dev } => dev == if_name,
        IpCommandOf::RouteAdd { via, dev, table } => {
            &&& dev == if_name
            &&& table == cfg.iproute2_table_index
            &&& match via {
                IpAddr::V4(ip) => used(cfg, false) && ip.bits == (v4_prefixes(
                    cfg.address@,
                )[0].0.bits + 1) % 0x1_0000_0000,
                IpAddr::V6(ip) => used(cfg, true) && ip.bits == (v6_prefixes(
                    cfg.address@,
                )[0].0.bits + 1) % 0x1_0000_0000_0000_0000_0000_0000_0000_0000int,
            }
        },
        IpCommandOf::RouteFlush { .. } => false,
        IpCommandOf::RuleAdd { v6, priority, body } => if used(cfg, v6) {
            wanted_rule(cfg, if_name, v6, priority as int, body)
        } else {
            &&& cfg.strict_route
            &&& body is Unreachable
            &&& priority == cfg.iproute2_rule_index + cfg.include_interface@.len()
        },
        IpCommandOf::RuleDel { .. } => false,
    }
}

/// Users as ranges of one each.
spec fn singles(s: Seq<u32>) -> Seq<(u32, u32)> {
    s.map_values(|x: u32| (x, x))
}

proof fn lemma_singles(s: Seq<u32>)
    ensures
        forall|i: int| 0 <= i < singles(s).len() ==> (#[trigger] singles(s)[i]).0 <= singles(s)[i].1,
        forall|x: u32| #[trigger] in_ranges(singles(s), x) <==> s.contains(x),
{
    assert forall|x: u32| #[trigger] in_ranges(singles(s), x) <==> s.contains(x) by {
        if in_ranges(singles(s), x) {
            let i = choose|i: int|
                0 <= i < singles(s).len() && (#[trigger] singles(s)[i]).0 <= x <= singles(s)[i].1;
            assert(s[i] == x);
        }
        if s.contains(x) {
            let i = choose|i: int| 0 <= i < s.len() && s[i] == x;
            assert(singles(s)[i].0 <= x <= singles(s)[i].1);
        }
    }
}

/// The ranges that the setup goes by hold exactly the users who are kept out.
proof fn lemma_excluded_ranges(cfg: TunInboundConfig)
    ensures
        canonical(excluded_ranges(cfg)),
        forall|x: u32| #[trigger] in_ranges(excluded_ranges(cfg), x) <==> kept_out(cfg, x),
{
    let inc = cfg.include_uid@;
    let exc = cfg.exclude_uid@;
    let s = if inc.len() > 0 {
        let left = inc.filter(|x: u32| !exc.contains(x));
        let t = joined(sorted_ranges(singles(left)));
        lemma_singles(left);
        law_merge_is_canonical(singles(left));
        law_gaps_are_complement(t, 0, 0xffff_fffe);
        assert forall|x: u32| #[trigger] left.contains(x) <==> inc.contains(x) && !exc.contains(
            x,
        ) by {
            lemma_filtered(inc, |x: u32| !exc.contains(x), x);
        }
        let g = gaps(t, 0, 0xffff_fffe);
        assert forall|x: u32| #[trigger] in_ranges(g, x) <==> excluded_uid(inc, exc, x) by {
            assert(in_ranges(t, x) <==> in_ranges(singles(left), x));
            assert(in_ranges(singles(left), x) <==> left.contains(x));
        }
        g
    } else {
        let t = joined(sorted_ranges(singles(exc)));
        lemma_singles(exc);
        law_merge_is_canonical(singles(exc));
        assert forall|x: u32| #[trigger] in_ranges(t, x) <==> excluded_uid(inc, exc, x) by {
            assert(in_ranges(singles(exc), x) <==> exc.contains(x));
        }
        t
    };
    assert(canonical(s) && forall|x: u32| #[trigger]
        in_ranges(s, x) <==> excluded_uid(cfg.include_uid@, cfg.exclude_uid@, x));
    assert forall|x: u32| #[trigger] in_ranges(excluded_ranges(cfg), x) <==> kept_out(cfg, x) by {
        assert(in_ranges(excluded_ranges(cfg), x) <==> excluded_uid(inc, exc, x));
    }
}

proof fn lemma_filtered(s: Seq<u32>, f: spec_fn(u32) -> bool, x: u32)
    ensures
        s.filter(f).contains(x) <==> s.contains(x) && f(x),
{
    if s.filter(f).contains(x) {
        s.lemma_filter_contains_rev(f, x);
        let i = choose|i: int| 0 <= i < s.filter(f).len() && s.filter(f)[i] == x;
        s.lemma_filter_pred(f, i);
    }
    if s.contains(x) && f(x) {
        let i = choose|i: int| 0 <= i < s.len() && s[i] == x;
        s.lemma_filter_contains(f, i);
    }
}

/// The ranges are the runs of users who are kept out.
proof fn lemma_runs(cfg: TunInboundConfig, lo: u32, hi: u32)
    ensures
        excluded_ranges(cfg).contains((lo, hi)) <==> whole_run(cfg, lo, hi),
        excluded_ranges(cfg).len() > 0 <==> some_kept_out(cfg),
{
    let s = excluded_ranges(cfg);
    lemma_excluded_ranges(cfg);
    assert forall|x: u32| #[trigger] kept_out(cfg, x) == in_ranges(s, x) by {}
    if s.contains((lo, hi)) {
        let i = choose|i: int| 0 <= i < s.len() && s[i] == (lo, hi);
        assert forall|uid: u32| lo <= uid <= hi implies #[trigger] kept_out(cfg, uid) by {
            assert(s[i].0 <= uid <= s[i].1);
            assert(in_ranges(s, uid));
        }
        if lo > 0 {
            lemma_next_to_run(s, i, (lo - 1) as u32);
        }
        if hi < u32::MAX {
            lemma_next_to_run(s, i, (hi + 1) as u32);
        }
    }
    if whole_run(cfg, lo, hi) {
        assert(kept_out(cfg, lo));
        assert(in_ranges(s, lo));
        let i = choose|i: int| 0 <= i < s.len() && (#[trigger] s[i]).0 <= lo <= s[i].1;
        if s[i].0 < lo {
            assert(s[i].0 <= lo - 1 <= s[i].1);
            assert(in_ranges(s, (lo - 1) as u32));
            assert(kept_out(cfg, (lo - 1) as u32));
        }
        if s[i].1 < hi {
            let y = (s[i].1 + 1) as u32;
            assert(kept_out(cfg, y));
            assert(in_ranges(s, y));
            lemma_next_to_run(s, i, y);
        }
        if s[i].1 > hi {
            let y = (hi + 1) as u32;
            assert(s[i].0 <= y <= s[i].1);
            assert(in_ranges(s, y));
            assert(kept_out(cfg, y));
        }
        assert(s[i] == (lo, hi));
    }
    if s.len() > 0 {
        assert(s[0].0 <= s[0].0 <= s[0].1);
        assert(in_ranges(s, s[0].0));
        assert(kept_out(cfg, s[0].0));
    }
    if some_kept_out(cfg) {
        let uid = choose|uid: u32| #[trigger] kept_out(cfg, uid);
        assert(in_ranges(s, uid));
    }
}

/// What stands next to a range is in none.
proof fn lemma_next_to_run(s: Seq<(u32, u32)>, i: int, y: u32)
    requires
        canonical(s),
        0 <= i < s.len(),
        y == s[i].0 - 1 || y == s[i].1 + 1,
    ensures
        !in_ranges(s, y),
{
    if in_ranges(s, y) {
        let j = choose|j: int| 0 <= j < s.len() && (#[trigger] s[j]).0 <= y <= s[j].1;
        assert(s[i].0 <= s[i].1);
        if j < i {
            assert(s[j].1 + 1 < s[i].0);
        } else if i < j {
            assert(s[i].1 + 1 < s[j].0);
        }
    }
}

/// What commands are among two plans together.
proof fn lemma_either(a: Seq<IpCommandModel>, b: Seq<IpCommandModel>, c: IpCommandModel)
    ensures
        (a + b).contains(c) <==> a.contains(c) || b.contains(c),
{
    if (a + b).contains(c) {
        let i = choose|i: int| 0 <= i < (a + b).len() && (a + b)[i] == c;
        if i < a.len() {
            assert(a[i] == c);
        } else {
            assert(b[i - a.len()] == c);
        }
    }
    if a.contains(c) {
        let i = choose|i: int| 0 <= i < a.len() && a[i] == c;
        assert((a + b)[i] == c);
    }
    if b.contains(c) {
        let i = choose|i: int| 0 <= i < b.len() && b[i] == c;
        assert((a + b)[a.len() + i] == c);
    }
}

/// Whether a command adds a rule.
pub open spec fn adds(
    c: IpCommandModel,
    v6: bool,
    priority: int,
    body: RuleBody<Seq<char>>,
) -> bool {
    c matches IpCommandOf::RuleAdd { v6: f, priority: p, body: b } && f == v6 && p == priority && b
        == body
}

proof fn lemma_rule_if(
    cond: bool,
    v6: bool,
    priority: int,
    body: RuleBody<Seq<char>>,
    c: IpCommandModel,
)
    requires
        0 <= priority <= u32::MAX,
    ensures
        rule_if(cond, v6, priority, body).contains(c) <==> cond && adds(c, v6, priority, body),
{
    let s = rule_if(cond, v6, priority, body);
    if cond {
        assert(s[0] == (IpCommandModel::RuleAdd { v6, priority: priority as u32, body }));
        if adds(c, v6, priority, body) {
            assert(s[0] == c);
        }
    }
}

proof fn lemma_rule_pair(
    v4: bool,
    v6: bool,
    p4: int,
    p6: int,
    body: RuleBody<Seq<char>>,
    c: IpCommandModel,
)
    requires
        0 <= p4 <= u32::MAX,
        0 <= p6 <= u32::MAX,
    ensures
        rule_pair(v4, v6, p4, p6, body).contains(c) <==> (v4 && adds(c, false, p4, body)) || (v6
            && adds(c, true, p6, body)),
{
    lemma_rule_if(v4, false, p4, body, c);
    lemma_rule_if(v6, true, p6, body, c);
    lemma_either(rule_if(v4, false, p4, body), rule_if(v6, true, p6, body), c);
}

/// The rules on users that a command can be.
spec fn uid_rule(cfg: TunInboundConfig, r: (u32, u32), c: IpCommandModel) -> bool {
    let b = cfg.iproute2_rule_index as int;
    let body = RuleBody::UidGoto { lo: r.0, hi: r.1, target: (b + 10) as u32 };
    c matches IpCommandOf::RuleAdd { v6, .. } && used(cfg, v6) && adds(c, v6, b, body)
}

proof fn lemma_uid_rules(cfg: TunInboundConfig, s: Seq<(u32, u32)>, c: IpCommandModel)
    requires
        cfg.iproute2_rule_index + 10 <= u32::MAX,
    ensures
        uid_rules(cfg, s).contains(c) <==> exists|i: int|
            0 <= i < s.len() && uid_rule(cfg, #[trigger] s[i], c),
    decreases s.len(),
{
    if s.len() > 0 {
        let t = s.drop_last();
        let b = cfg.iproute2_rule_index as int;
        let body = RuleBody::UidGoto { lo: s.last().0, hi: s.last().1, target: (b + 10) as u32 };
        let last = rule_pair(has_family(cfg, false), has_family(cfg, true), b, b, body);
        lemma_uid_rules(cfg, t, c);
        lemma_rule_pair(has_family(cfg, false), has_family(cfg, true), b, b, body, c);
        lemma_either(uid_rules(cfg, t), last, c);
        assert(s.last() == s[s.len() - 1]);
        assert(last.contains(c) <==> uid_rule(cfg, s.last(), c));
        if uid_rules(cfg, t).contains(c) {
            let i = choose|i: int| 0 <= i < t.len() && uid_rule(cfg, #[trigger] t[i], c);
            assert(s[i] == t[i]);
        }
        if exists|i: int| 0 <= i < s.len() && uid_rule(cfg, #[trigger] s[i], c) {
            let i = choose|i: int| 0 <= i < s.len() && uid_rule(cfg, #[trigger] s[i], c);
            if i < t.len() {
                assert(t[i] == s[i]);
            }
        }
    }
}

/// The rules on an excluded interface that a command can be.
spec fn excluded_rule(cfg: TunInboundConfig, iif: Seq<char>, c: IpCommandModel) -> bool {
    let target = (cfg.iproute2_rule_index + 10) as u32;
    c matches IpCommandOf::RuleAdd { v6, .. } && used(cfg, v6) && adds(
        c,
        v6,
        interface_priority(cfg, v6),
        RuleBody::IifGoto { iif, target },
    )
}

proof fn lemma_excluded_rules(cfg: TunInboundConfig, s: Seq<String>, c: IpCommandModel)
    requires
        cfg.iproute2_rule_index + 10 <= u32::MAX,
    ensures
        excluded_rules(cfg, s).contains(c) <==> exists|i: int|
            0 <= i < s.len() && excluded_rule(cfg, (#[trigger] s[i])@, c),
    decreases s.len(),
{
    if s.len() > 0 {
        let t = s.drop_last();
        let target = (cfg.iproute2_rule_index + 10) as u32;
        let body = RuleBody::IifGoto { iif: s.last()@, target };
        let p4 = interface_priority(cfg, false);
        let p6 = interface_priority(cfg, true);
        let last = rule_pair(has_family(cfg, false), has_family(cfg, true), p4, p6, body);
        lemma_excluded_rules(cfg, t, c);
        lemma_rule_pair(has_family(cfg, false), has_family(cfg, true), p4, p6, body, c);
        lemma_either(excluded_rules(cfg, t), last, c);
        assert(s.last() == s[s.len() - 1]);
        assert(last.contains(c) <==> excluded_rule(cfg, s.last()@, c));
        if excluded_rules(cfg, t).contains(c) {
            let i = choose|i: int| 0 <= i < t.len() && excluded_rule(cfg, (#[trigger] t[i])@, c);
            assert(s[i] == t[i]);
        }
        if exists|i: int| 0 <= i < s.len() && excluded_rule(cfg, (#[trigger] s[i])@, c) {
            let i = choose|i: int| 0 <= i < s.len() && excluded_rule(cfg, (#[trigger] s[i])@, c);
            if i < t.len() {
                assert(t[i] == s[i]);
            }
        }
    }
}

/// The rules on the `k`th listed interface that a command can be.
spec fn listed_rule(cfg: TunInboundConfig, iif: Seq<char>, k: int, c: IpCommandModel) -> bool {
    c matches IpCommandOf::RuleAdd { v6, .. } && used(cfg, v6) && adds(
        c,
        v6,
        interface_priority(cfg, v6) + k,
        included_body(cfg, v6, iif),
    )
}

proof fn lemma_included_rules(cfg: TunInboundConfig, s: Seq<String>, c: IpCommandModel)
    requires
        interface_priority(cfg, false) + s.len() <= u32::MAX,
        interface_priority(cfg, true) + s.len() <= u32::MAX,
    ensures
        included_rules(cfg, s).contains(c) <==> exists|i: int|
            0 <= i < s.len() && listed_rule(cfg, (#[trigger] s[i])@, i, c),
    decreases s.len(),
{
    if s.len() > 0 {
        let t = s.drop_last();
        let n = s.len() - 1;
        let p4 = interface_priority(cfg, false) + n;
        let p6 = interface_priority(cfg, true) + n;
        let b4 = included_body(cfg, false, s.last()@);
        let b6 = included_body(cfg, true, s.last()@);
        let r4 = rule_if(has_family(cfg, false), false, p4, b4);
        let r6 = rule_if(has_family(cfg, true), true, p6, b6);
        lemma_included_rules(cfg, t, c);
        lemma_rule_if(has_family(cfg, false), false, p4, b4, c);
        lemma_rule_if(has_family(cfg, true), true, p6, b6, c);
        lemma_either(included_rules(cfg, t), r4, c);
        lemma_either(included_rules(cfg, t) + r4, r6, c);
        assert(s.last() == s[n]);
        assert(r4.contains(c) || r6.contains(c) <==> listed_rule(cfg, s.last()@, n, c));
        if included_rules(cfg, t).contains(c) {
            let i = choose|i: int| 0 <= i < t.len() && listed_rule(cfg, (#[trigger] t[i])@, i, c);
            assert(s[i] == t[i]);
        }
        if exists|i: int| 0 <= i < s.len() && listed_rule(cfg, (#[trigger] s[i])@, i, c) {
            let i = choose|i: int| 0 <= i < s.len() && listed_rule(cfg, (#[trigger] s[i])@, i, c);
            if i < t.len() {
                assert(t[i] == s[i]);
            }
        }
    }
}

/// Where the rules of a family stand.
proof fn lemma_steps(cfg: TunInboundConfig, v6: bool)
    ensures
        used(cfg, v6) ==> {
            &&& interface_priority(cfg, v6) == first_step(cfg)
            &&& network_priority(cfg, v6) == network_step(cfg)
            &&& suppress_priority(cfg, v6) == network_step(cfg) + 1
            &&& last_priority(cfg, v6) == network_step(cfg) + 2
        },
        !used(cfg, v6) ==> strict_priority(cfg, v6) == cfg.iproute2_rule_index
            + cfg.include_interface@.len(),
        0 <= interface_priority(cfg, v6) <= strict_priority(cfg, v6) <= network_priority(cfg, v6)
            <= suppress_priority(cfg, v6) <= last_priority(cfg, v6),
{
    lemma_runs(cfg, 0, 0);
}

/// The IPv4 networks of the interface.
proof fn lemma_networks_v4(cfg: TunInboundConfig, net: IpAddr, len: u8)
    ensures
        own_network(cfg, false, net, len) <==> exists|k: int|
            0 <= k < v4_prefixes(cfg.address@).len() && net == net_v4(
                #[trigger] v4_prefixes(cfg.address@)[k],
            ) && len == v4_prefixes(cfg.address@)[k].1,
{
    let s = v4_prefixes(cfg.address@);
    law_prefix_lengths_fit(cfg.address@);
    assert forall|k: int| 0 <= k < s.len() implies network_v4((#[trigger] s[k]).0.bits, s[k].1)
        == s[k].0.bits - s[k].0.bits as int % pow2((32 - s[k].1) as nat) as int by {
        lemma_rounded(s[k].0.bits as int, (32 - s[k].1) as nat);
    }
    if own_network(cfg, false, net, len) {
        let n = net->V4_0;
        let k = choose|k: int|
            0 <= k < s.len() && {
                let (ip, l) = #[trigger] s[k];
                &&& l == len
                &&& n.bits == ip.bits - ip.bits as int % pow2((32 - l) as nat) as int
            };
        assert(net == net_v4(s[k]));
    }
}

/// The IPv6 networks of the interface.
proof fn lemma_networks_v6(cfg: TunInboundConfig, net: IpAddr, len: u8)
    ensures
        own_network(cfg, true, net, len) <==> exists|k: int|
            0 <= k < v6_prefixes(cfg.address@).len() && net == net_v6(
                #[trigger] v6_prefixes(cfg.address@)[k],
            ) && len == v6_prefixes(cfg.address@)[k].1,
{
    let s = v6_prefixes(cfg.address@);
    law_prefix_lengths_fit(cfg.address@);
    assert forall|k: int| 0 <= k < s.len() implies network_v6((#[trigger] s[k]).0.bits, s[k].1)
        == s[k].0.bits - s[k].0.bits as int % pow2((128 - s[k].1) as nat) as int by {
        lemma_rounded(s[k].0.bits as int, (128 - s[k].1) as nat);
    }
    if own_network(cfg, true, net, len) {
        let n = net->V6_0;
        let k = choose|k: int|
            0 <= k < s.len() && {
                let (ip, l) = #[trigger] s[k];
                &&& l == len
                &&& n.bits == ip.bits - ip.bits as int % pow2((128 - l) as nat) as int
            };
        assert(net == net_v6(s[k]));
    }
}

/// A number rounded down is no greater and not negative.
proof fn lemma_rounded(x: int, k: nat)
    requires
        0 <= x,
    ensures
        0 <= x - x % pow2(k) as int <= x,
{
    vstd::arithmetic::power2::lemma_pow2_pos(k);
    vstd::arithmetic::div_mod::lemma_mod_bound(x, pow2(k) as int);
    vstd::arithmetic::div_mod::lemma_fundamental_div_mod(x, pow2(k) as int);
    vstd::arithmetic::div_mod::lemma_div_pos_is_pos(x, pow2(k) as int);
    vstd::arithmetic::mul::lemma_mul_nonnegative(pow2(k) as int, x / pow2(k) as int);
}

/// The commands on networks that a command can be.
spec fn network_rule(
    cfg: TunInboundConfig,
    v6: bool,
    priority: int,
    local: bool,
    c: IpCommandModel,
) -> bool {
    let table = cfg.iproute2_table_index;
    match c {
        IpCommandOf::RuleAdd { v6: f, priority: p, body } => f == v6 && p == priority && match body {
            RuleBody::ToLookup { net, prefix_len, table: t } => !local && t == table && own_network(
                cfg,
                v6,
                net,
                prefix_len,
            ),
            RuleBody::LocalFromLookup { net, prefix_len, table: t } => local && t == table
                && own_network(cfg, v6, net, prefix_len),
            _ => false,
        },
        _ => false,
    }
}

proof fn lemma_network_rules_v4(cfg: TunInboundConfig, priority: int, c: IpCommandModel)
    requires
        0 <= priority <= u32::MAX,
    ensures
        to_rules_v4(priority, cfg.iproute2_table_index, v4_prefixes(cfg.address@)).contains(c)
            <==> network_rule(cfg, false, priority, false, c),
        from_rules_v4(priority, cfg.iproute2_table_index, v4_prefixes(cfg.address@)).contains(c)
            <==> network_rule(cfg, false, priority, true, c),
{
    let s = v4_prefixes(cfg.address@);
    let to = to_rules_v4(priority, cfg.iproute2_table_index, s);
    let from = from_rules_v4(priority, cfg.iproute2_table_index, s);
    match c {
        IpCommandOf::RuleAdd { body: RuleBody::ToLookup { net, prefix_len, .. }, .. } => {
            lemma_networks_v4(cfg, net, prefix_len);
        },
        IpCommandOf::RuleAdd { body: RuleBody::LocalFromLookup { net, prefix_len, .. }, .. } => {
            lemma_networks_v4(cfg, net, prefix_len);
        },
        _ => {},
    }
    if to.contains(c) {
        let k = choose|k: int| 0 <= k < to.len() && to[k] == c;
        assert(net_v4(s[k]) == net_v4(s[k]));
    }
    if from.contains(c) {
        let k = choose|k: int| 0 <= k < from.len() && from[k] == c;
        assert(net_v4(s[k]) == net_v4(s[k]));
    }
    if network_rule(cfg, false, priority, false, c) {
        let body = c->RuleAdd_body;
        let k = choose|k: int|
            0 <= k < s.len() && body->ToLookup_net == net_v4(#[trigger] s[k])
                && body->ToLookup_prefix_len == s[k].1;
        assert(to[k] == c);
    }
    if network_rule(cfg, false, priority, true, c) {
        let body = c->RuleAdd_body;
        let k = choose|k: int|
            0 <= k < s.len() && body->LocalFromLookup_net == net_v4(#[trigger] s[k])
                && body->LocalFromLookup_prefix_len == s[k].1;
        assert(from[k] == c);
    }
}

proof fn lemma_network_rules_v6(cfg: TunInboundConfig, priority: int, c: IpCommandModel)
    requires
        0 <= priority <= u32::MAX,
    ensures
        to_rules_v6(priority, cfg.iproute2_table_index, v6_prefixes(cfg.address@)).contains(c)
            <==> network_rule(cfg, true, priority, false, c),
        from_rules_v6(priority, cfg.iproute2_table_index, v6_prefixes(cfg.address@)).contains(c)
            <==> network_rule(cfg, true, priority, true, c),
{
    let s = v6_prefixes(cfg.address@);
    let to = to_rules_v6(priority, cfg.iproute2_table_index, s);
    let from = from_rules_v6(priority, cfg.iproute2_table_index, s);
    match c {
        IpCommandOf::RuleAdd { body: RuleBody::ToLookup { net, prefix_len, .. }, .. } => {
            lemma_networks_v6(cfg, net, prefix_len);
        },
        IpCommandOf::RuleAdd { body: RuleBody::LocalFromLookup { net, prefix_len, .. }, .. } => {
            lemma_networks_v6(cfg, net, prefix_len);
        },
        _ => {},
    }
    if to.contains(c) {
        let k = choose|k: int| 0 <= k < to.len() && to[k] == c;
        assert(net_v6(s[k]) == net_v6(s[k]));
    }
    if from.contains(c) {
        let k = choose|k: int| 0 <= k < from.len() && from[k] == c;
        assert(net_v6(s[k]) == net_v6(s[k]));
    }
    if network_rule(cfg, true, priority, false, c) {
        let body = c->RuleAdd_body;
        let k = choose|k: int|
            0 <= k < s.len() && body->ToLookup_net == net_v6(#[trigger] s[k])
                && body->ToLookup_prefix_len == s[k].1;
        assert(to[k] == c);
    }
    if network_rule(cfg, true, priority, true, c) {
        let body = c->RuleAdd_body;
        let k = choose|k: int|
            0 <= k < s.len() && body->LocalFromLookup_net == net_v6(#[trigger] s[k])
                && body->LocalFromLookup_prefix_len == s[k].1;
        assert(from[k] == c);
    }
}

/// Whether a command is one of the default routes.
spec fn route(cfg: TunInboundConfig, if_name: Seq<char>, c: IpCommandModel) -> bool {
    c is RouteAdd && wanted(cfg, if_name, c)
}

proof fn lemma_routes(cfg: TunInboundConfig, if_name: Seq<char>, c: IpCommandModel)
    ensures
        default_routes(cfg, if_name).contains(c) <==> route(cfg, if_name, c),
{
    let s = default_routes(cfg, if_name);
    if s.contains(c) {
        let i = choose|i: int| 0 <= i < s.len() && s[i] == c;
        assert(i == 0 || i == 1);
    }
    if route(cfg, if_name, c) {
        match c->RouteAdd_via {
            IpAddr::V4(ip) => {
                assert(ip == v4_prefixes(cfg.address@)[0].0.spec_next());
                assert(s[0] == c);
            },
            IpAddr::V6(ip) => {
                assert(ip == v6_prefixes(cfg.address@)[0].0.spec_next());
                if used(cfg, false) {
                    assert(s[1] == c);
                } else {
                    assert(s[0] == c);
                }
            },
        }
    }
}

/// Whether a command adds a rule of a family in use that leads to the table of the interface.
spec fn lookup_rule(cfg: TunInboundConfig, c: IpCommandModel) -> bool {
    let table = cfg.iproute2_table_index;
    match c {
        IpCommandOf::RuleAdd { v6, priority, body } => used(cfg, v6) && priority == network_step(cfg)
            + 2 && match body {
            RuleBody::ForwardedLookup { table: t } => t == table,
            RuleBody::LocalFromLookup { net, prefix_len, table: t } => t == table && (own_network(
                cfg,
                v6,
                net,
                prefix_len,
            ) || (!v6 && net == IpAddr::V4(Ipv4Addr { bits: 0 }) && prefix_len == 32)),
            _ => false,
        },
        _ => false,
    }
}

proof fn lemma_lookup_rules(cfg: TunInboundConfig, c: IpCommandModel)
    requires
        setup_fits(cfg),
    ensures
        lookup_rules(cfg).contains(c) <==> lookup_rule(cfg, c),
{
    let table = cfg.iproute2_table_index;
    let p4 = last_priority(cfg, false);
    let p6 = last_priority(cfg, true);
    let v4 = has_family(cfg, false);
    let v6 = has_family(cfg, true);
    let body = RuleBody::ForwardedLookup { table };
    let any = RuleBody::LocalFromLookup {
        net: IpAddr::V4(Ipv4Addr { bits: 0 }),
        prefix_len: 32,
        table,
    };
    let a = rule_if(v4, false, p4, body);
    let b = rule_if(v4, false, p4, any);
    let d = from_rules_v4(p4, table, v4_prefixes(cfg.address@));
    let e = rule_if(v6, true, p6, body);
    let f = from_rules_v6(p6, table, v6_prefixes(cfg.address@));
    lemma_steps(cfg, false);
    lemma_steps(cfg, true);
    lemma_rule_if(v4, false, p4, body, c);
    lemma_rule_if(v4, false, p4, any, c);
    lemma_rule_if(v6, true, p6, body, c);
    lemma_network_rules_v4(cfg, p4, c);
    lemma_network_rules_v6(cfg, p6, c);
    lemma_either(a, b, c);
    lemma_either(a + b, d, c);
    lemma_either(a + b + d, e, c);
    lemma_either(a + b + d + e, f, c);
    assert(lookup_rules(cfg) == a + b + d + e + f);
}

/// Whether a command adds one of the rules on interfaces.
spec fn interface_rule(cfg: TunInboundConfig, c: IpCommandModel) -> bool {
    let base = cfg.iproute2_rule_index;
    match c {
        IpCommandOf::RuleAdd { v6, priority, body } => used(cfg, v6) && match body {
            RuleBody::IifGoto { iif, target } => {
                ||| cfg.include_interface@.len() == 0 && target == base + 10 && priority
                    == first_step(cfg) && exists|k: int|
                    0 <= k < cfg.exclude_interface@.len() && (#[trigger] cfg.exclude_interface@[k])@
                        == iif
                ||| target == network_step(cfg) && exists|k: int|
                    0 <= k < cfg.include_interface@.len() && (#[trigger] cfg.include_interface@[k])@
                        == iif && priority == first_step(cfg) + k
            },
            RuleBody::Goto { target } => {
                &&& cfg.include_interface@.len() > 0
                &&& target == base + 10
                &&& priority == first_step(cfg) + cfg.include_interface@.len()
            },
            _ => false,
        },
        _ => false,
    }
}

proof fn lemma_interface_rules(cfg: TunInboundConfig, c: IpCommandModel)
    requires
        setup_fits(cfg),
    ensures
        interface_rules(cfg).contains(c) <==> interface_rule(cfg, c),
{
    let inc = cfg.include_interface@;
    let exc = cfg.exclude_interface@;
    let v4 = has_family(cfg, false);
    let v6 = has_family(cfg, true);
    lemma_steps(cfg, false);
    lemma_steps(cfg, true);
    if inc.len() > 0 {
        let body = RuleBody::Goto { target: (cfg.iproute2_rule_index + 10) as u32 };
        let p4 = unlisted_priority(cfg, false);
        let p6 = unlisted_priority(cfg, true);
        lemma_included_rules(cfg, inc, c);
        lemma_rule_pair(v4, v6, p4, p6, body, c);
        lemma_either(included_rules(cfg, inc), rule_pair(v4, v6, p4, p6, body), c);
        if exists|i: int| 0 <= i < inc.len() && listed_rule(cfg, (#[trigger] inc[i])@, i, c) {
            let i = choose|i: int| 0 <= i < inc.len() && listed_rule(cfg, (#[trigger] inc[i])@, i, c);
            assert(interface_rule(cfg, c));
        }
        if interface_rule(cfg, c) && c->RuleAdd_body is IifGoto {
            let body = c->RuleAdd_body;
            let k = choose|k: int|
                0 <= k < inc.len() && (#[trigger] inc[k])@ == body->IifGoto_iif
                    && c->RuleAdd_priority == first_step(cfg) + k;
            assert(listed_rule(cfg, inc[k]@, k, c));
        }
    } else {
        lemma_excluded_rules(cfg, exc, c);
        if exists|i: int| 0 <= i < exc.len() && excluded_rule(cfg, (#[trigger] exc[i])@, c) {
            let i = choose|i: int| 0 <= i < exc.len() && excluded_rule(cfg, (#[trigger] exc[i])@, c);
            assert(interface_rule(cfg, c));
        }
        if interface_rule(cfg, c) {
            let body = c->RuleAdd_body;
            let k = choose|k: int|
                0 <= k < exc.len() && (#[trigger] exc[k])@ == body->IifGoto_iif;
            assert(excluded_rule(cfg, exc[k]@, c));
        }
    }
}

/// Whether a command is among those before the rules on networks.
spec fn early(cfg: TunInboundConfig, if_name: Seq<char>, c: IpCommandModel) -> bool {
    ||| c == (IpCommandModel::LinkUp { dev: if_name })
    ||| route(cfg, if_name, c)
    ||| exists|i: int|
        0 <= i < excluded_ranges(cfg).len() && uid_rule(cfg, #[trigger] excluded_ranges(cfg)[i], c)
    ||| interface_rule(cfg, c)
    ||| (c matches IpCommandOf::RuleAdd { v6, .. } && cfg.strict_route && !used(cfg, v6) && adds(
        c,
        v6,
        cfg.iproute2_rule_index + cfg.include_interface@.len(),
        RuleBody::Unreachable,
    ))
}

/// The commands before the rules on networks.
spec fn early_plan(cfg: TunInboundConfig, if_name: Seq<char>) -> Seq<IpCommandModel> {
    seq![IpCommandOf::LinkUp { dev: if_name }] + default_routes(cfg, if_name) + uid_rules(
        cfg,
        excluded_ranges(cfg),
    ) + interface_rules(cfg) + strict_rules(cfg)
}

proof fn lemma_early(cfg: TunInboundConfig, if_name: Seq<char>, c: IpCommandModel)
    requires
        setup_fits(cfg),
    ensures
        early_plan(cfg, if_name).contains(c) <==> early(cfg, if_name, c),
{
    let a = seq![IpCommandModel::LinkUp { dev: if_name }];
    let b = default_routes(cfg, if_name);
    let d = uid_rules(cfg, excluded_ranges(cfg));
    let e = interface_rules(cfg);
    let f = strict_rules(cfg);
    let n4 = cfg.strict_route && !has_family(cfg, false);
    let n6 = cfg.strict_route && !has_family(cfg, true);
    lemma_steps(cfg, false);
    lemma_steps(cfg, true);
    assert(a.contains(c) <==> c == (IpCommandModel::LinkUp { dev: if_name })) by {
        assert(a[0] == (IpCommandModel::LinkUp { dev: if_name }));
    }
    lemma_routes(cfg, if_name, c);
    lemma_uid_rules(cfg, excluded_ranges(cfg), c);
    lemma_interface_rules(cfg, c);
    lemma_rule_pair(
        n4,
        n6,
        strict_priority(cfg, false),
        strict_priority(cfg, true),
        RuleBody::Unreachable,
        c,
    );
    lemma_either(a, b, c);
    lemma_either(a + b, d, c);
    lemma_either(a + b + d, e, c);
    lemma_either(a + b + d + e, f, c);
}

/// The setup gives exactly these commands: it brings the interface up, adds a default route for
/// each family in use, keeps out the traffic of users and interfaces that is to be kept out, leads
/// the rest to the interface, and stops the traffic of a family that is not in use where routing
/// is strict.
pub proof fn law_setup_gives_what_is_wanted(
    cfg: TunInboundConfig,
    if_name: Seq<char>,
    c: IpCommandModel,
)
    requires
        setup_fits(cfg),
    ensures
        setup_plan(cfg, if_name).contains(c) <==> wanted(cfg, if_name, c),
{
    let table = cfg.iproute2_table_index;
    let v4 = has_family(cfg, false);
    let v6 = has_family(cfg, true);
    let anchor = cfg.iproute2_rule_index + 10;
    let a = early_plan(cfg, if_name);
    let f = to_rules_v4(network_priority(cfg, false), table, v4_prefixes(cfg.address@));
    let g = to_rules_v6(network_priority(cfg, true), table, v6_prefixes(cfg.address@));
    let s4 = suppress_priority(cfg, false);
    let s6 = suppress_priority(cfg, true);
    let l4 = last_priority(cfg, false);
    let l6 = last_priority(cfg, true);
    let own = RuleBody::IifGoto { iif: if_name, target: anchor as u32 };
    let sup = RuleBody::ForwardedSuppress { table };
    let h = rule_pair(v4, v6, s4, s6, sup);
    let k = rule_pair(v4, v6, l4, l6, own);
    let l = lookup_rules(cfg);
    let m = rule_pair(v4, v6, anchor, anchor, RuleBody::Nop);
    lemma_steps(cfg, false);
    lemma_steps(cfg, true);
    lemma_early(cfg, if_name, c);
    lemma_network_rules_v4(cfg, network_priority(cfg, false), c);
    lemma_network_rules_v6(cfg, network_priority(cfg, true), c);
    lemma_rule_pair(v4, v6, s4, s6, sup, c);
    lemma_rule_pair(v4, v6, l4, l6, own, c);
    lemma_lookup_rules(cfg, c);
    lemma_rule_pair(v4, v6, anchor, anchor, RuleBody::Nop, c);
    lemma_either(a, f, c);
    lemma_either(a + f, g, c);
    lemma_either(a + f + g, h, c);
    lemma_either(a + f + g + h, k, c);
    lemma_either(a + f + g + h + k, l, c);
    lemma_either(a + f + g + h + k + l, m, c);
    assert(setup_plan(cfg, if_name) == a + f + g + h + k + l + m);
    lemma_early_is_wanted(cfg, if_name, c);
}

/// What is among the commands before the rules on networks is wanted.
proof fn lemma_early_is_wanted(cfg: TunInboundConfig, if_name: Seq<char>, c: IpCommandModel)
    requires
        setup_fits(cfg),
    ensures
        early(cfg, if_name, c) ==> wanted(cfg, if_name, c),
        wanted(cfg, if_name, c) && !early(cfg, if_name, c) ==> (
        c matches IpCommandOf::RuleAdd { v6, priority, body } && used(cfg, v6) && match body {
            RuleBody::IifGoto { iif, target } => iif == if_name && target
                == cfg.iproute2_rule_index + 10 && priority == network_step(cfg) + 2,
            RuleBody::UidGoto { .. } => false,
            RuleBody::Goto { .. } => false,
            _ => true,
        }),
{
    let s = excluded_ranges(cfg);
    match c {
        IpCommandOf::RuleAdd { v6, priority, body: RuleBody::UidGoto { lo, hi, target } } => {
            lemma_runs(cfg, lo, hi);
            if s.contains((lo, hi)) {
                let i = choose|i: int| 0 <= i < s.len() && s[i] == (lo, hi);
                assert(used(cfg, v6) && priority == cfg.iproute2_rule_index && target
                    == cfg.iproute2_rule_index + 10 ==> uid_rule(cfg, s[i], c));
            }
            if exists|i: int| 0 <= i < s.len() && uid_rule(cfg, #[trigger] s[i], c) {
                let i = choose|i: int| 0 <= i < s.len() && uid_rule(cfg, #[trigger] s[i], c);
                assert(s[i] == (lo, hi));
            }
        },
        _ => {},
    }
}

/// Whether a rule leads traffic to a table.
pub open spec fn looks_up(body: RuleBody<Seq<char>>) -> bool {
    body is ToLookup || body is ForwardedSuppress || body is ForwardedLookup
        || body is LocalFromLookup
}

/// Whether a command, if it adds a rule of a family that leads to a table, adds it later than at a
/// priority.
pub open spec fn leads_later(c: IpCommandModel, v6: bool, priority: int) -> bool {
    match c {
        IpCommandOf::RuleAdd { v6: f, priority: p, body } => f == v6 && looks_up(body) ==> priority
            < p,
        _ => true,
    }
}

/// Whether a rule of a plan comes before all its rules of that family that lead to a table.
pub open spec fn comes_first(plan: Seq<IpCommandModel>, v6: bool, priority: int) -> bool {
    forall|c: IpCommandModel| #[trigger]
        plan.contains(c) ==> leads_later(c, v6, priority)
}

/// The traffic of an interface that is excluded, where none are listed, passes by the interface:
/// for each family in use a rule sends it to the anchor, which is there, before any rule leads to
/// the table.
pub proof fn law_excluded_interfaces_pass_by(
    cfg: TunInboundConfig,
    if_name: Seq<char>,
    k: int,
    v6: bool,
) -> (priority: u32)
    requires
        setup_fits(cfg),
        cfg.include_interface@.len() == 0,
        0 <= k < cfg.exclude_interface@.len(),
        used(cfg, v6),
    ensures
        setup_plan(cfg, if_name).contains(
            IpCommandOf::RuleAdd {
                v6,
                priority,
                body: RuleBody::IifGoto {
                    iif: cfg.exclude_interface@[k]@,
                    target: (cfg.iproute2_rule_index + 10) as u32,
                },
            },
        ),
        setup_plan(cfg, if_name).contains(
            IpCommandOf::RuleAdd {
                v6,
                priority: (cfg.iproute2_rule_index + 10) as u32,
                body: RuleBody::Nop,
            },
        ),
        comes_first(setup_plan(cfg, if_name), v6, priority as int),
{
    let plan = setup_plan(cfg, if_name);
    let anchor = (cfg.iproute2_rule_index + 10) as u32;
    let priority = first_step(cfg) as u32;
    let rule = IpCommandModel::RuleAdd {
        v6,
        priority,
        body: RuleBody::IifGoto { iif: cfg.exclude_interface@[k]@, target: anchor },
    };
    let nop = IpCommandModel::RuleAdd { v6, priority: anchor, body: RuleBody::Nop };
    lemma_steps(cfg, v6);
    law_setup_gives_what_is_wanted(cfg, if_name, rule);
    law_setup_gives_what_is_wanted(cfg, if_name, nop);
    assert(cfg.exclude_interface@[k]@ == cfg.exclude_interface@[k]@);
    assert forall|c: IpCommandModel| #[trigger] plan.contains(c) implies leads_later(
        c,
        v6,
        priority as int,
    ) by {
        law_setup_gives_what_is_wanted(cfg, if_name, c);
    }
    priority
}

/// The traffic of a user who is kept out, and of no other, passes by the interface: for each
/// family in use a rule sends it to the anchor before any rule leads to the table.
pub proof fn law_users_kept_out_pass_by(
    cfg: TunInboundConfig,
    if_name: Seq<char>,
    uid: u32,
    v6: bool,
)
    requires
        setup_fits(cfg),
        used(cfg, v6),
    ensures
        kept_out(cfg, uid) <==> exists|lo: u32, hi: u32, target: u32|
            lo <= uid <= hi && setup_plan(cfg, if_name).contains(
                #[trigger] user_rule(cfg, v6, lo, hi, target),
            ),
        forall|lo: u32, hi: u32, target: u32| #[trigger]
            setup_plan(cfg, if_name).contains(user_rule(cfg, v6, lo, hi, target)) ==> target
                == cfg.iproute2_rule_index + 10,
        kept_out(cfg, uid) ==> comes_first(
            setup_plan(cfg, if_name),
            v6,
            cfg.iproute2_rule_index as int,
        ),
{
    let plan = setup_plan(cfg, if_name);
    let s = excluded_ranges(cfg);
    let anchor = (cfg.iproute2_rule_index + 10) as u32;
    assert forall|lo: u32, hi: u32, target: u32| #[trigger]
        plan.contains(user_rule(cfg, v6, lo, hi, target)) implies target == cfg.iproute2_rule_index
        + 10 && whole_run(cfg, lo, hi) by {
        law_setup_gives_what_is_wanted(cfg, if_name, user_rule(cfg, v6, lo, hi, target));
    }
    if kept_out(cfg, uid) {
        lemma_excluded_ranges(cfg);
        assert(in_ranges(s, uid));
        let i = choose|i: int| 0 <= i < s.len() && (#[trigger] s[i]).0 <= uid <= s[i].1;
        lemma_runs(cfg, s[i].0, s[i].1);
        assert(s.contains(s[i]));
        let rule = user_rule(cfg, v6, s[i].0, s[i].1, anchor);
        law_setup_gives_what_is_wanted(cfg, if_name, rule);
        assert(plan.contains(rule));
        assert forall|c: IpCommandModel| #[trigger] plan.contains(c) implies leads_later(
            c,
            v6,
            cfg.iproute2_rule_index as int,
        ) by {
            law_setup_gives_what_is_wanted(cfg, if_name, c);
        }
    }
}

/// The rule on the users of a range.
pub open spec fn user_rule(
    cfg: TunInboundConfig,
    v6: bool,
    lo: u32,
    hi: u32,
    target: u32,
) -> IpCommandModel {
    IpCommandOf::RuleAdd {
        v6,
        priority: cfg.iproute2_rule_index,
        body: RuleBody::UidGoto { lo, hi, target },
    }
}

/// How many commands the setup gives for a family, where `ranges` says into how many ranges the
/// users fall that are kept out.
pub open spec fn commands_for(cfg: TunInboundConfig, v6: bool, ranges: nat) -> int {
    let addresses: int = if v6 {
        v6_prefixes(cfg.address@).len() as int
    } else {
        v4_prefixes(cfg.address@).len() as int
    };
    let interfaces: int = if cfg.include_interface@.len() > 0 {
        cfg.include_interface@.len() as int + 1
    } else {
        cfg.exclude_interface@.len() as int
    };
    if used(cfg, v6) {
        5 + ranges + interfaces + 2 * addresses + if v6 {
            0int
        } else {
            1
        }
    } else if cfg.strict_route {
        1
    } else {
        0
    }
}

/// No command of the setup is given twice for one reason: there is one for the interface, and for
/// each family in use one default route, a rule for each range of users and each interface, two
/// for each network, and four or five more.
pub proof fn law_setup_repeats_nothing(cfg: TunInboundConfig, if_name: Seq<char>)
    ensures
        setup_plan(cfg, if_name).len() == 1 + commands_for(cfg, false, excluded_ranges(cfg).len())
            + commands_for(cfg, true, excluded_ranges(cfg).len()),
        setup_plan(cfg, if_name)[0] == (IpCommandModel::LinkUp { dev: if_name }),
{
    lemma_uid_count(cfg, excluded_ranges(cfg));
    lemma_excluded_count(cfg, cfg.exclude_interface@);
    lemma_included_count(cfg, cfg.include_interface@);
}

proof fn lemma_uid_count(cfg: TunInboundConfig, s: Seq<(u32, u32)>)
    ensures
        uid_rules(cfg, s).len() == if used(cfg, false) && used(cfg, true) {
            2 * s.len()
        } else if used(cfg, false) || used(cfg, true) {
            s.len()
        } else {
            0
        },
    decreases s.len(),
{
    if s.len() > 0 {
        lemma_uid_count(cfg, s.drop_last());
    }
}

proof fn lemma_excluded_count(cfg: TunInboundConfig, s: Seq<String>)
    ensures
        excluded_rules(cfg, s).len() == if used(cfg, false) && used(cfg, true) {
            2 * s.len()
        } else if used(cfg, false) || used(cfg, true) {
            s.len()
        } else {
            0
        },
    decreases s.len(),
{
    if s.len() > 0 {
        lemma_excluded_count(cfg, s.drop_last());
    }
}

proof fn lemma_included_count(cfg: TunInboundConfig, s: Seq<String>)
    ensures
        included_rules(cfg, s).len() == if used(cfg, false) && used(cfg, true) {
            2 * s.len()
        } else if used(cfg, false) || used(cfg, true) {
            s.len()
        } else {
            0
        },
    decreases s.len(),
{
    if s.len() > 0 {
        lemma_included_count(cfg, s.drop_last());
    }
}

/// What comes back from the interface itself is not led to it again: the rule that sends its
/// traffic to the anchor is added before those of the same priority that lead to the table.
pub proof fn law_own_traffic_is_let_go_first(
    cfg: TunInboundConfig,
    if_name: Seq<char>,
    v6: bool,
) -> (i: int)
    requires
        setup_fits(cfg),
        used(cfg, v6),
    ensures
        0 <= i < setup_plan(cfg, if_name).len(),
        setup_plan(cfg, if_name)[i] == (IpCommandModel::RuleAdd {
            v6,
            priority: (network_step(cfg) + 2) as u32,
            body: RuleBody::IifGoto {
                iif: if_name,
                target: (cfg.iproute2_rule_index + 10) as u32,
            },
        }),
        forall|j: int|
            0 <= j < setup_plan(cfg, if_name).len() && (#[trigger] setup_plan(cfg, if_name)[j]
                matches IpCommandOf::RuleAdd { v6: f, body, .. } && f == v6 && (
            body is ForwardedLookup || body is LocalFromLookup)) ==> i < j,
{
    let plan = setup_plan(cfg, if_name);
    let table = cfg.iproute2_table_index;
    let v4 = has_family(cfg, false);
    let w6 = has_family(cfg, true);
    let f = to_rules_v4(network_priority(cfg, false), table, v4_prefixes(cfg.address@));
    let g = to_rules_v6(network_priority(cfg, true), table, v6_prefixes(cfg.address@));
    let h = rule_pair(
        v4,
        w6,
        suppress_priority(cfg, false),
        suppress_priority(cfg, true),
        RuleBody::ForwardedSuppress { table },
    );
    let own = RuleBody::IifGoto { iif: if_name, target: (cfg.iproute2_rule_index + 10) as u32 };
    let k = rule_pair(v4, w6, last_priority(cfg, false), last_priority(cfg, true), own);
    let pre = early_plan(cfg, if_name) + f + g + h;
    lemma_steps(cfg, v6);
    let i = pre.len() + if v6 && v4 {
        1int
    } else {
        0
    };
    assert(plan[i] == k[i - pre.len()]);
    assert forall|j: int|
        0 <= j < plan.len() && (#[trigger] plan[j] matches IpCommandOf::RuleAdd { v6: f, body, .. }
            && f == v6 && (body is ForwardedLookup || body is LocalFromLookup)) implies i < j by {
        let e = early_plan(cfg, if_name);
        if j < e.len() {
            assert(plan[j] == e[j]);
            assert(e.contains(e[j]));
            lemma_early(cfg, if_name, e[j]);
        } else if j < pre.len() {
            assert(plan[j] == pre[j]);
        } else if j < pre.len() + k.len() {
            assert(plan[j] == k[j - pre.len()]);
        }
    }
    i
}

/// The teardown empties the table of each family and deletes rules at every priority that the
/// setup uses, and gives no other command.
pub proof fn law_teardown_gives_what_is_wanted(cfg: TunInboundConfig, c: IpCommandModel)
    requires
        cfg.iproute2_rule_index + 10 <= u32::MAX,
    ensures
        teardown_plan(cfg).contains(c) <==> match c {
            IpCommandOf::RouteFlush { table, .. } => table == cfg.iproute2_table_index,
            IpCommandOf::RuleDel { priority, .. } => cfg.iproute2_rule_index <= priority
                <= cfg.iproute2_rule_index + 10,
            _ => false,
        },
        teardown_plan(cfg).len() == 112,
{
    let plan = teardown_plan(cfg);
    if plan.contains(c) {
        let i = choose|i: int| 0 <= i < plan.len() && plan[i] == c;
        if i >= 2 {
            assert(0 <= (i - 2) / 10 <= 10);
        }
    }
    match c {
        IpCommandOf::RouteFlush { v6, table } => {
            if table == cfg.iproute2_table_index {
                let i: int = if v6 {
                    1
                } else {
                    0
                };
                assert(plan[i] == c);
            }
        },
        IpCommandOf::RuleDel { v6, priority } => {
            let d = priority - cfg.iproute2_rule_index;
            if 0 <= d <= 10 {
                let k = 10 * d + if v6 {
                    1int
                } else {
                    0
                };
                assert(k / 10 == d);
                assert(k % 2 == if v6 {
                    1int
                } else {
                    0
                });
                assert(plan[2 + k] == c);
            }
        },
        _ => {},
    }
}

/// The arguments that start a command of a family.
pub open spec fn of_family(v6: bool, rest: Seq<Seq<char>>) -> Seq<Seq<char>> {
    if v6 {
        seq!["-6"@] + rest
    } else {
        rest
    }
}

/// Each command reads as `ip` takes it: with its family, what it acts on, and where.
pub proof fn law_commands_read_as_ip_takes_them(c: IpCommandModel)
    ensures
        match c {
            IpCommandOf::LinkUp { dev } => ip_args(c) == seq!["link"@, "set"@, dev, "up"@],
            IpCommandOf::RouteAdd { via, dev, table } => ip_args(c) == of_family(
                via is V6,
                seq![
                    "route"@,
                    "add"@,
                    if via is V6 {
                        "::/0"@
                    } else {
                        "0.0.0.0/0"@
                    },
                    "via"@,
                    ip_text(via),
                    "dev"@,
                    dev,
                    "table"@,
                    decimal(table as nat),
                ],
            ),
            IpCommandOf::RouteFlush { v6, table } => ip_args(c) == of_family(
                v6,
                seq!["route"@, "flush"@, "table"@, decimal(table as nat)],
            ),
            IpCommandOf::RuleAdd { v6, priority, body } => ip_args(c) == of_family(
                v6,
                seq!["rule"@, "add"@, "priority"@, decimal(priority as nat)] + rule_args(body),
            ),
            IpCommandOf::RuleDel { v6, priority } => ip_args(c) == of_family(
                v6,
                seq!["rule"@, "del"@, "priority"@, decimal(priority as nat)],
            ),
        },
{
    assert(Seq::<Seq<char>>::empty() + ip_args(c) =~= ip_args(c));
    match c {
        IpCommandOf::RouteAdd { via, dev, table } => {
            let rest = seq![
                "route"@,
                "add"@,
                if via is V6 {
                    "::/0"@
                } else {
                    "0.0.0.0/0"@
                },
                "via"@,
                ip_text(via),
                "dev"@,
                dev,
                "table"@,
                decimal(table as nat),
            ];
            assert(ip_args(c) =~= of_family(via is V6, rest));
        },
        IpCommandOf::RouteFlush { v6, table } => {
            let rest = seq!["route"@, "flush"@, "table"@, decimal(table as nat)];
            assert(ip_args(c) =~= of_family(v6, rest));
        },
        IpCommandOf::RuleAdd { v6, priority, body } => {
            let rest = seq!["rule"@, "add"@, "priority"@, decimal(priority as nat)] + rule_args(
                body,
            );
            assert(ip_args(c) =~= of_family(v6, rest));
        },
        IpCommandOf::RuleDel { v6, priority } => {
            let rest = seq!["rule"@, "del"@, "priority"@, decimal(priority as nat)];
            assert(ip_args(c) =~= of_family(v6, rest));
        },
        _ => {},
    }
}

/// Each rule names the traffic that it takes, and where that goes.
pub proof fn law_rules_name_traffic_and_target(body: RuleBody<Seq<char>>)
    ensures
        match body {
            RuleBody::UidGoto { lo, hi, target } => rule_args(body) == seq![
                "uidrange"@,
                decimal(lo as nat) + seq!['-'] + decimal(hi as nat),
                "goto"@,
                decimal(target as nat),
            ],
            RuleBody::IifGoto { iif, target } => rule_args(body) == seq![
                "iif"@,
                iif,
                "goto"@,
                decimal(target as nat),
            ],
            RuleBody::Goto { target } => rule_args(body) == seq!["goto"@, decimal(target as nat)],
            RuleBody::Unreachable => rule_args(body) == seq!["type"@, "unreachable"@],
            RuleBody::ToLookup { net, prefix_len, table } => rule_args(body) == seq![
                "to"@,
                prefix_text(net, prefix_len),
                "lookup"@,
                decimal(table as nat),
            ],
            RuleBody::ForwardedSuppress { table } => rule_args(body) == seq![
                "not"@,
                "iif"@,
                "lo"@,
                "lookup"@,
                decimal(table as nat),
                "suppress_prefixlength"@,
                "0"@,
            ],
            RuleBody::ForwardedLookup { table } => rule_args(body) == seq![
                "not"@,
                "iif"@,
                "lo"@,
                "lookup"@,
                decimal(table as nat),
            ],
            RuleBody::LocalFromLookup { net, prefix_len, table } => rule_args(body) == seq![
                "iif"@,
                "lo"@,
                "from"@,
                prefix_text(net, prefix_len),
                "lookup"@,
                decimal(table as nat),
            ],
            RuleBody::Nop => rule_args(body).len() == 0,
        },
{
}

/// A network is written as its address, a slash and its prefix length.
pub proof fn law_networks_are_written_with_a_slash(net: IpAddr, prefix_len: u8)
    ensures
        prefix_text(net, prefix_len) == ip_text(net) + seq!['/'] + decimal(prefix_len as nat),
{
}

/// The setup can be given exactly if all its priorities are numbers that a rule can have, and no
/// prefix is empty.
pub proof fn law_setup_fits_within_priorities(cfg: TunInboundConfig)
    ensures
        setup_fits(cfg) <==> {
            &&& cfg.iproute2_rule_index + 10 <= u32::MAX
            &&& used(cfg, false) || used(cfg, true) ==> network_step(cfg) + 2 <= u32::MAX
            &&& !(used(cfg, false) && used(cfg, true)) ==> cfg.iproute2_rule_index
                + cfg.include_interface@.len() + (if cfg.strict_route {
                1int
            } else {
                0
            }) <= u32::MAX
            &&& forall|k: int|
                0 <= k < v4_prefixes(cfg.address@).len() ==> (#[trigger] v4_prefixes(
                    cfg.address@,
                )[k]).1 > 0
            &&& forall|k: int|
                0 <= k < v6_prefixes(cfg.address@).len() ==> (#[trigger] v6_prefixes(
                    cfg.address@,
                )[k]).1 > 0
        },
{
    lemma_steps(cfg, false);
    lemma_steps(cfg, true);
}

/// What the setup hands out are the commands that are wanted, each as `ip` takes it.
pub proof fn law_setup_hands_out_what_is_wanted(
    cfg: TunInboundConfig,
    if_name: &str,
    r: Vec<IpCommand>,
    c: IpCommandModel,
)
    requires
        setup_fits(cfg),
        call_ensures(setup, (&cfg, if_name), r),
    ensures
        (exists|i: int| 0 <= i < r@.len() && (#[trigger] r@[i])@ == c) <==> wanted(
            cfg,
            if_name@,
            c,
        ),
        r@.len() == 1 + commands_for(cfg, false, excluded_ranges(cfg).len()) + commands_for(
            cfg,
            true,
            excluded_ranges(cfg).len(),
        ),
{
    let plan = setup_plan(cfg, if_name@);
    law_setup_gives_what_is_wanted(cfg, if_name@, c);
    law_setup_repeats_nothing(cfg, if_name@);
    assert(plan.len() == r@.len());
    assert forall|i: int| 0 <= i < r@.len() implies (#[trigger] r@[i])@ == plan[i] by {
        assert(plan_view(r@)[i] == r@[i]@);
    }
    if plan.contains(c) {
        let i = choose|i: int| 0 <= i < plan.len() && plan[i] == c;
        assert(r@[i]@ == c);
    }
    if exists|i: int| 0 <= i < r@.len() && (#[trigger] r@[i])@ == c {
        let i = choose|i: int| 0 <= i < r@.len() && (#[trigger] r@[i])@ == c;
        assert(plan[i] == c);
    }
}

/// What the teardown hands out empties the table of each family and deletes rules at every
/// priority that the setup uses.
pub proof fn law_teardown_hands_out_what_is_wanted(
    cfg: TunInboundConfig,
    if_name: &str,
    r: Vec<IpCommand>,
    c: IpCommandModel,
)
    requires
        cfg.iproute2_rule_index + 10 <= u32::MAX,
        call_ensures(teardown, (&cfg, if_name), r),
    ensures
        (exists|i: int| 0 <= i < r@.len() && (#[trigger] r@[i])@ == c) <==> match c {
            IpCommandOf::RouteFlush { table, .. } => table == cfg.iproute2_table_index,
            IpCommandOf::RuleDel { priority, .. } => cfg.iproute2_rule_index <= priority
                <= cfg.iproute2_rule_index + 10,
            _ => false,
        },
{
    let plan = teardown_plan(cfg);
    law_teardown_gives_what_is_wanted(cfg, c);
    assert(plan.len() == r@.len());
    assert forall|i: int| 0 <= i < r@.len() implies (#[trigger] r@[i])@ == plan[i] by {
        assert(plan_view(r@)[i] == r@[i]@);
    }
    if plan.contains(c) {
        let i = choose|i: int| 0 <= i < plan.len() && plan[i] == c;
        assert(r@[i]@ == c);
    }
    if exists|i: int| 0 <= i < r@.len() && (#[trigger] r@[i])@ == c {
        let i = choose|i: int| 0 <= i < r@.len() && (#[trigger] r@[i])@ == c;
        assert(plan[i] == c);
    }
}

/// A command runs `ip` with its arguments.
pub proof fn law_commands_run_ip(c: IpCommand, r: Command)
    requires
        call_ensures(IpCommand::command, (&c,), r),
    ensures
        r@.program == "ip"@,
        r@.args == ip_args(c@),
{
}

/// The setup says that it can be given exactly where it fits.
pub proof fn law_setup_knows_whether_it_fits(cfg: TunInboundConfig, r: bool)
    requires
        call_ensures(can_setup, (&cfg,), r),
    ensures
        r <==> setup_fits(cfg),
{
}

} // verus!
