use reflex::config::inbound::TunInboundConfig;
use reflex::inbound::tun::platform::command::Command;
use reflex::inbound::tun::platform::ranges::{
    build_excluded_uid_ranges, complement_ranges, merge_ranges, subtract_ranges, UID_MAX,
};
use reflex::inbound::tun::address::{parse_addr_prefix, v4_network, v6_network};
use reflex::inbound::tun::platform::subranges::{ipv4_sub_ranges, ipv6_sub_ranges};
use reflex::inbound::tun::platform::{linux, macos, other, windows};
use reflex::net::{IpAddr, Ipv4Addr, Ipv6Addr};

fn config(address: &[&str]) -> TunInboundConfig {
    TunInboundConfig {
        tag: "tun-in".to_string(),
        interface_name: None,
        address: address.iter().map(|s| s.to_string()).collect(),
        mtu: 1500,
        auto_route: true,
        strict_route: false,
        udp_timeout: 0,
        iproute2_table_index: 2022,
        iproute2_rule_index: 9000,
        include_interface: vec![],
        exclude_interface: vec![],
        include_uid: vec![],
        exclude_uid: vec![],
    }
}

fn line(c: &Command) -> String {
    format!("{} {}", c.program, c.args.join(" "))
}

fn ip_lines(plan: &[linux::IpCommand]) -> Vec<String> {
    plan.iter().map(|c| line(&c.command())).collect()
}

fn lines(plan: &[Command]) -> Vec<String> {
    plan.iter().map(line).collect()
}

#[test]
fn subtracting_ranges() {
    assert_eq!(subtract_ranges(vec![(0, 10)], &[(3, 5)]), vec![(0, 2), (6, 10)]);
    assert_eq!(subtract_ranges(vec![(0, 10)], &[(0, 10)]), vec![]);
    assert_eq!(subtract_ranges(vec![(0, 4), (8, 9)], &[(4, 8)]), vec![(0, 3), (9, 9)]);
    assert_eq!(subtract_ranges(vec![(5, 6)], &[(0, 4), (7, 9)]), vec![(5, 6)]);
    assert_eq!(subtract_ranges(vec![(1, 2)], &[]), vec![(1, 2)]);
    assert_eq!(
        subtract_ranges(vec![(5, 9), (0, 6)], &[(6, 7)]),
        vec![(5, 5), (8, 9), (0, 5)]
    );
}

#[test]
fn complementing_ranges() {
    assert_eq!(complement_ranges(&[(3, 5)], 0, 9), vec![(0, 2), (6, 9)]);
    assert_eq!(complement_ranges(&[], 0, 9), vec![(0, 9)]);
    assert_eq!(complement_ranges(&[(0, 9)], 0, 9), vec![]);
    assert_eq!(
        complement_ranges(&[(u32::MAX, u32::MAX)], 0, UID_MAX),
        vec![(0, UID_MAX)]
    );
}

#[test]
fn merging_ranges() {
    assert_eq!(
        merge_ranges(vec![(8, 9), (0, 2), (3, 4), (1, 1), (6, 6)]),
        vec![(0, 4), (6, 6), (8, 9)]
    );
    assert_eq!(merge_ranges(vec![]), vec![]);
    assert_eq!(merge_ranges(vec![(5, u32::MAX), (7, 8)]), vec![(5, u32::MAX)]);
}

#[test]
fn users_to_keep_out() {
    assert_eq!(build_excluded_uid_ranges(&[], &[]), vec![]);
    assert_eq!(
        build_excluded_uid_ranges(&[], &[1001, 1000, 1000, 5]),
        vec![(5, 5), (1000, 1001)]
    );
    assert_eq!(
        build_excluded_uid_ranges(&[1000], &[]),
        vec![(0, 999), (1001, UID_MAX)]
    );
    assert_eq!(
        build_excluded_uid_ranges(&[1000, 1002], &[1002]),
        vec![(0, 999), (1001, UID_MAX)]
    );
    assert_eq!(build_excluded_uid_ranges(&[7], &[7]), vec![(0, UID_MAX)]);
    assert_eq!(build_excluded_uid_ranges(&[0], &[]), vec![(1, UID_MAX)]);
}

#[test]
fn linux_setup_of_one_address() {
    let plan = linux::setup(&config(&["198.18.0.1/16"]), "tun0");
    assert_eq!(
        ip_lines(&plan),
        vec![
            "ip link set tun0 up",
            "ip route add 0.0.0.0/0 via 198.18.0.2 dev tun0 table 2022",
            "ip rule add priority 9000 to 198.18.0.0/16 lookup 2022",
            "ip rule add priority 9001 not iif lo lookup 2022 suppress_prefixlength 0",
            "ip rule add priority 9002 iif tun0 goto 9010",
            "ip rule add priority 9002 not iif lo lookup 2022",
            "ip rule add priority 9002 iif lo from 0.0.0.0/32 lookup 2022",
            "ip rule add priority 9002 iif lo from 198.18.0.0/16 lookup 2022",
            "ip rule add priority 9010",
        ]
    );
}

#[test]
fn linux_setup_with_everything() {
    let mut cfg = config(&["198.18.0.1/16", "fd00::1/126", "bad"]);
    cfg.include_interface = vec!["eth0".to_string(), "wlan0".to_string()];
    cfg.exclude_interface = vec!["ignored".to_string()];
    cfg.exclude_uid = vec![33, 34];
    cfg.strict_route = true;
    let plan = linux::setup(&cfg, "t1");
    assert_eq!(
        ip_lines(&plan),
        vec![
            "ip link set t1 up",
            "ip route add 0.0.0.0/0 via 198.18.0.2 dev t1 table 2022",
            "ip -6 route add ::/0 via fd00::2 dev t1 table 2022",
            "ip rule add priority 9000 uidrange 33-34 goto 9010",
            "ip -6 rule add priority 9000 uidrange 33-34 goto 9010",
            "ip rule add priority 9001 iif eth0 goto 9004",
            "ip -6 rule add priority 9001 iif eth0 goto 9004",
            "ip rule add priority 9002 iif wlan0 goto 9004",
            "ip -6 rule add priority 9002 iif wlan0 goto 9004",
            "ip rule add priority 9003 goto 9010",
            "ip -6 rule add priority 9003 goto 9010",
            "ip rule add priority 9004 to 198.18.0.0/16 lookup 2022",
            "ip -6 rule add priority 9004 to fd00::/126 lookup 2022",
            "ip rule add priority 9005 not iif lo lookup 2022 suppress_prefixlength 0",
            "ip -6 rule add priority 9005 not iif lo lookup 2022 suppress_prefixlength 0",
            "ip rule add priority 9006 iif t1 goto 9010",
            "ip -6 rule add priority 9006 iif t1 goto 9010",
            "ip rule add priority 9006 not iif lo lookup 2022",
            "ip rule add priority 9006 iif lo from 0.0.0.0/32 lookup 2022",
            "ip rule add priority 9006 iif lo from 198.18.0.0/16 lookup 2022",
            "ip -6 rule add priority 9006 not iif lo lookup 2022",
            "ip -6 rule add priority 9006 iif lo from fd00::/126 lookup 2022",
            "ip rule add priority 9010",
            "ip -6 rule add priority 9010",
        ]
    );
}

#[test]
fn linux_setup_of_one_family_and_strict() {
    let mut cfg = config(&["fd00::1/64"]);
    cfg.strict_route = true;
    cfg.exclude_interface = vec!["eth0".to_string()];
    let plan = linux::setup(&cfg, "tun0");
    assert_eq!(
        ip_lines(&plan),
        vec![
            "ip link set tun0 up",
            "ip -6 route add ::/0 via fd00::2 dev tun0 table 2022",
            "ip -6 rule add priority 9000 iif eth0 goto 9010",
            "ip rule add priority 9000 type unreachable",
            "ip -6 rule add priority 9001 to fd00::/64 lookup 2022",
            "ip -6 rule add priority 9002 not iif lo lookup 2022 suppress_prefixlength 0",
            "ip -6 rule add priority 9003 iif tun0 goto 9010",
            "ip -6 rule add priority 9003 not iif lo lookup 2022",
            "ip -6 rule add priority 9003 iif lo from fd00::/64 lookup 2022",
            "ip -6 rule add priority 9010",
        ]
    );
}

#[test]
fn linux_setup_that_does_not_fit() {
    assert!(linux::can_setup(&config(&["198.18.0.1/16"])));
    assert!(!linux::can_setup(&config(&["198.18.0.1/0"])));
    assert!(!linux::can_setup(&config(&["fd00::1/0"])));
    let mut cfg = config(&["198.18.0.1/16"]);
    cfg.iproute2_rule_index = u32::MAX - 10;
    assert!(linux::can_setup(&cfg));
    cfg.iproute2_rule_index = u32::MAX - 9;
    assert!(!linux::can_setup(&cfg));
    cfg.iproute2_rule_index = u32::MAX - 10;
    cfg.include_interface = vec!["eth0".to_string(); 8];
    assert!(!linux::can_setup(&cfg));
    cfg.include_interface = vec!["eth0".to_string(); 7];
    assert!(linux::can_setup(&cfg));
}

#[test]
fn linux_teardown() {
    let plan = linux::teardown(&config(&["198.18.0.1/16"]), "tun0");
    let all = ip_lines(&plan);
    assert_eq!(all.len(), 2 + 11 * 10);
    assert_eq!(all[0], "ip route flush table 2022");
    assert_eq!(all[1], "ip -6 route flush table 2022");
    for prio in 9000..=9010 {
        let v4 = format!("ip rule del priority {prio}");
        let v6 = format!("ip -6 rule del priority {prio}");
        assert_eq!(all.iter().filter(|l| **l == v4).count(), 5);
        assert_eq!(all.iter().filter(|l| **l == v6).count(), 5);
    }
    assert_eq!(all[2], "ip rule del priority 9000");
    assert_eq!(all[3], "ip -6 rule del priority 9000");
}

#[test]
fn linux_teardown_reaches_every_rule() {
    let mut cfg = config(&["198.18.0.1/16", "fd00::1/126"]);
    cfg.include_interface = vec!["eth0".to_string(); 6];
    cfg.exclude_uid = vec![1, 5];
    let deleted = ip_lines(&linux::teardown(&cfg, "tun0"));
    for c in linux::setup(&cfg, "tun0") {
        if let linux::IpCommandOf::RuleAdd { v6, priority, .. } = c {
            let family = if v6 { "-6 " } else { "" };
            let wanted = format!("ip {family}rule del priority {priority}");
            assert!(deleted.contains(&wanted));
        }
    }
}

#[test]
fn listed_interfaces_pass_by_the_rule_for_all_others() {
    let mut cfg = config(&["fd00::1/64"]);
    cfg.include_interface = vec!["eth0".to_string(), "wlan0".to_string(), "tun0".to_string()];
    cfg.include_uid = vec![1000];
    let plan = linux::setup(&cfg, "tun0");
    assert_eq!(
        ip_lines(&plan)[4..9].to_vec(),
        vec![
            "ip -6 rule add priority 9001 iif eth0 goto 9005",
            "ip -6 rule add priority 9002 iif wlan0 goto 9005",
            "ip -6 rule add priority 9003 iif tun0 goto 9005",
            "ip -6 rule add priority 9004 goto 9010",
            "ip -6 rule add priority 9005 to fd00::/64 lookup 2022",
        ]
    );
}

#[test]
fn linux_teardown_deletes_as_many_rules() {
    let mut cfg = config(&["198.18.0.1/16", "fd00::1/126", "fd01::1/64"]);
    cfg.exclude_interface = vec!["a".to_string(), "b".to_string(), "c".to_string()];
    cfg.exclude_uid = vec![1, 3, 5, 7, 9];
    let count = |plan: &[linux::IpCommand], f: bool, p: u32| {
        let mut n = (0, 0);
        for c in plan {
            match c {
                linux::IpCommandOf::RuleAdd { v6, priority, .. } if *v6 == f && *priority == p => {
                    n.0 += 1
                }
                linux::IpCommandOf::RuleDel { v6, priority } if *v6 == f && *priority == p => {
                    n.1 += 1
                }
                _ => {}
            }
        }
        n
    };
    let up = linux::setup(&cfg, "tun0");
    let down = linux::teardown(&cfg, "tun0");
    assert_eq!(count(&up, false, 9000).0, 5);
    for f in [false, true] {
        for p in 8999..=9011 {
            let deleted = count(&down, f, p).1;
            assert!(deleted >= count(&up, f, p).0);
            assert_eq!(deleted, if (9000..=9010).contains(&p) { 5 } else { 0 });
        }
    }
}

#[test]
fn macos_plans() {
    let cfg = config(&["198.18.0.1/16", "fd00::1/126", "bad"]);
    let up = lines(&macos::setup(&cfg, "utun9"));
    assert_eq!(up[0], "ifconfig utun9 198.18.0.1 198.18.0.1");
    assert_eq!(up[1], "ifconfig utun9 inet6 fd00::1/126 prefixlen 126 alias");
    assert_eq!(up[2], "ifconfig utun9 up");
    assert_eq!(up[3], "route add -net 1.0.0.0/8 -interface utun9");
    assert_eq!(up[10], "route add -net 128.0.0.0/1 -interface utun9");
    assert_eq!(up[11], "route add -inet6 100::/8 -interface utun9");
    assert_eq!(up[18], "route add -inet6 8000::/1 -interface utun9");
    assert_eq!(up[19], "dscacheutil -flushcache");
    assert_eq!(up.len(), 20);
    let down = lines(&macos::teardown(&config(&["fd00::1/126"]), "utun9"));
    assert_eq!(down.len(), 9);
    assert_eq!(down[0], "route delete -inet6 100::/8");
    assert_eq!(down[8], "dscacheutil -flushcache");
    let v4 = lines(&macos::teardown(&config(&["198.18.0.1/16"]), "utun9"));
    assert_eq!(v4[7], "route delete -net 128.0.0.0/1");
    let none = lines(&macos::setup(&config(&[]), "utun9"));
    assert_eq!(none, vec!["ifconfig utun9 up", "dscacheutil -flushcache"]);
}

#[test]
fn windows_plans() {
    let mut cfg = config(&["198.18.0.1/16", "fd00::1/126"]);
    let up = lines(&windows::setup(&cfg, "tun0", None));
    assert_eq!(
        up[0],
        "netsh interface ipv4 set address name tun0 static 198.18.0.1 255.255.0.0"
    );
    assert_eq!(up[1], "netsh interface ipv6 add address tun0 fd00::1/126");
    assert_eq!(up[2], "netsh interface ipv4 add route 1.0.0.0/8 tun0 metric=1");
    assert_eq!(up[17], "netsh interface ipv6 add route 8000::/1 tun0 metric=1");
    assert_eq!(up[18], "ipconfig /flushdns");
    assert_eq!(up.len(), 19);
    cfg.strict_route = true;
    let new: &[u8] = b"Microsoft Windows [Version 10.0.19045]";
    let old: &[u8] = b"Microsoft Windows [Version 6.1.7601]";
    let strict = lines(&windows::setup(&cfg, "tun0", Some(new)));
    assert_eq!(
        strict[18],
        "netsh advfirewall firewall add rule name=reflex-tun-strict-dns-block protocol=UDP dir=out \
         remoteport=53 action=block"
    );
    assert_eq!(lines(&windows::setup(&cfg, "tun0", Some(old))).len(), 19);
    let down = lines(&windows::teardown(&cfg, "tun0"));
    assert_eq!(down[0], "netsh interface ipv4 delete route 1.0.0.0/8 tun0");
    assert_eq!(
        down[16],
        "netsh advfirewall firewall delete rule name=reflex-tun-strict-dns-block"
    );
    assert_eq!(down[17], "ipconfig /flushdns");
}

#[test]
fn windows_versions() {
    assert!(windows::is_windows10_or_later(Some(b"10.")));
    assert!(windows::is_windows10_or_later(Some(b"x 10.0")));
    assert!(!windows::is_windows10_or_later(Some(b"1 0.")));
    assert!(!windows::is_windows10_or_later(Some(b"10")));
    assert!(!windows::is_windows10_or_later(None));
}

#[test]
fn other_systems_do_nothing() {
    let cfg = config(&["198.18.0.1/16"]);
    assert!(other::setup(&cfg, "tun0").is_empty());
    assert!(other::teardown(&cfg, "tun0").is_empty());
}

/// How many of the networks an address lies in.
fn networks_of(ip: IpAddr) -> usize {
    let ranges = match ip {
        IpAddr::V4(_) => ipv4_sub_ranges(),
        IpAddr::V6(_) => ipv6_sub_ranges(),
    };
    ranges
        .iter()
        .filter(|r| match (ip, parse_addr_prefix(r).unwrap()) {
            (IpAddr::V4(a), (IpAddr::V4(net), n)) => v4_network(a, n) == net,
            (IpAddr::V6(a), (IpAddr::V6(net), n)) => v6_network(a, n) == net,
            _ => false,
        })
        .count()
}

#[test]
fn sub_ranges_cover_all_but_the_first_octet_zero() {
    for a in 0..=255u8 {
        for b in [0, 255] {
            let v4 = Ipv4Addr::new(a, b, b, b);
            assert_eq!(networks_of(IpAddr::V4(v4)), usize::from(a > 0));
            let v6 = Ipv6Addr { bits: u128::from(a) << 120 | u128::from(b) };
            assert_eq!(networks_of(IpAddr::V6(v6)), usize::from(a > 0));
        }
    }
}

#[test]
fn windows_teardown_reaches_every_route() {
    let mut cfg = config(&["198.18.0.1/16", "fd00::1/126"]);
    cfg.strict_route = true;
    let up = lines(&windows::setup(&cfg, "tun0", Some(b"10.")));
    let down = lines(&windows::teardown(&cfg, "tun0"));
    for l in up.iter().filter(|l| l.contains(" add route ")) {
        let undo = l.replace(" add route ", " delete route ").replace(" metric=1", "");
        assert!(down.contains(&undo));
    }
    assert!(up.iter().any(|l| l.contains("firewall add rule")));
    assert!(down.iter().any(|l| l.contains("firewall delete rule")));
}
