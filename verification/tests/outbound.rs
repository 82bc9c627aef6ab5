use reflex::inbound::Target;
use reflex::net::{IpAddr, SocketAddr};
use reflex::outbound::{
    first_address, host_and_port, not_selectable, resolve_target, resolve_target_with_dns,
    resolved_address, CopyHalf, CopyStep, OutboundStatus, Resolution,
};

fn sock(ip: &str, port: u16) -> SocketAddr {
    SocketAddr::new(IpAddr::parse(ip).unwrap(), port)
}

#[test]
fn default_status() {
    let s = OutboundStatus::of_proxy("hk-1");
    assert_eq!(s.name, "hk-1");
    assert_eq!(s.kind, "Proxy");
    assert!(s.now.is_none() && s.all.is_empty() && s.history.is_empty());
    assert_eq!(not_selectable("hk-1"), "outbound 'hk-1' is not selectable");
}

#[test]
fn copying_counts_what_was_written() {
    let mut c = CopyHalf::new();
    assert_eq!(c.after_read(Some(5)), CopyStep::Write(5));
    assert_eq!(c.after_write(5, true), CopyStep::Read);
    assert_eq!(c.after_write(7, true), CopyStep::Read);
    assert_eq!(c.after_write(9, false), CopyStep::Finish);
    assert_eq!(c.after_read(Some(0)), CopyStep::Finish);
    assert_eq!(c.after_read(None), CopyStep::Finish);
    assert_eq!(c.total, 12);
}

#[test]
fn targets_are_resolved() {
    let a = sock("1.2.3.4", 80);
    assert!(matches!(resolve_target(&Target::Socket(a)), Resolution::Known(b) if b == a));
    assert!(matches!(
        resolve_target_with_dns(&Target::Socket(a), true),
        Resolution::Known(b) if b == a
    ));
    let d = Target::Domain("example.com".to_string(), 443);
    assert!(matches!(
        resolve_target(&d),
        Resolution::AskSystem(h, 443) if h == "example.com"
    ));
    assert!(matches!(
        resolve_target_with_dns(&d, false),
        Resolution::AskSystem(h, 443) if h == "example.com"
    ));
    assert!(matches!(
        resolve_target_with_dns(&d, true),
        Resolution::AskResolver(h, 443) if h == "example.com"
    ));
    assert_eq!(resolved_address(IpAddr::parse("fd00::1").unwrap(), 443), sock("fd00::1", 443));
}

#[test]
fn first_address_is_used() {
    let found = vec![sock("1.2.3.4", 80), sock("5.6.7.8", 80)];
    assert_eq!(first_address(&found, "example.com").unwrap(), found[0]);
    let e = first_address(&vec![], "example.com").unwrap_err();
    assert_eq!(e.message(), "DNS lookup failed for example.com");
    assert_eq!(host_and_port("example.com", 443), "example.com:443");
}
