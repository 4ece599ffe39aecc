use std::str::FromStr;

use krill::resources::{RequestResourceLimit, ResourceSet};
use rpki::repository::resources::{AsResources, IpBlocks, IpResources};

fn asn(s: &str) -> AsResources {
    AsResources::from_str(s).unwrap()
}

fn ip(s: &str) -> IpResources {
    IpResources::blocks(IpBlocks::from_str(s).unwrap())
}

fn parent() -> ResourceSet {
    ResourceSet::new(asn("AS64496-AS64511"), ip("192.0.2.0/24"), ip("2001:db8::/32"))
}

#[test]
fn resolve_concrete() {
    let mut limit = RequestResourceLimit::new();
    limit.with_asn(asn("AS64500"));
    let r = limit.resolve(&parent()).unwrap();
    assert_eq!(r.asn(), &asn("AS64500"));
    assert_eq!(r.v4(), &ip("192.0.2.0/24"));
    assert_eq!(r.v6(), &ip("2001:db8::/32"));
}

#[test]
fn resolve_overclaim() {
    let mut limit = RequestResourceLimit::new();
    limit.with_ipv4(ip("198.51.100.0/24"));
    assert!(limit.resolve(&parent()).is_none());
    let mut limit = RequestResourceLimit::new();
    limit.with_asn(asn("AS64490-AS64500"));
    assert!(limit.resolve(&parent()).is_none());
    let mut limit = RequestResourceLimit::new();
    limit.with_ipv6(ip("2001:db9::/32"));
    assert!(limit.resolve(&parent()).is_none());
}

#[test]
fn resolve_inherit() {
    let p = ResourceSet::new(asn("AS64496-AS64511"), IpResources::inherit(), ip("2001:db8::/32"));
    let mut limit = RequestResourceLimit::new();
    limit.with_ipv4(ip("192.0.2.0/24"));
    assert!(limit.resolve(&p).is_none());

    let mut limit = RequestResourceLimit::new();
    limit.with_asn(asn("AS64500"));
    let r = limit.resolve(&p).unwrap();
    assert_eq!(r.asn(), &asn("AS64500"));
    assert!(r.v4().is_inherited());

    let mut limit = RequestResourceLimit::new();
    limit.with_asn(asn("AS1"));
    assert!(limit.resolve(&p).is_none());

    let p = ResourceSet::new(AsResources::inherit(), ip("192.0.2.0/24"), ip("2001:db8::/32"));
    let mut limit = RequestResourceLimit::new();
    limit.with_asn(asn("AS64500"));
    assert!(limit.resolve(&p).is_none());
}

#[test]
fn resolve_empty_limit_is_identity() {
    let limit = RequestResourceLimit::new();
    assert!(limit.is_empty());
    let r = limit.resolve(&parent()).unwrap();
    assert_eq!(r.asn(), parent().asn());
    assert_eq!(r.v4(), parent().v4());
    assert_eq!(r.v6(), parent().v6());
}

#[test]
fn limit_setters() {
    let mut limit = RequestResourceLimit::new();
    assert!(limit.asn().is_none() && limit.v4().is_none() && limit.v6().is_none());
    limit.with_ipv6(ip("2001:db8::/48"));
    assert!(!limit.is_empty());
    assert_eq!(limit.v6(), Some(&ip("2001:db8::/48")));
    assert!(limit.asn().is_none());
}

#[test]
fn resolve_whole_leg_and_inherited_request() {
    let mut limit = RequestResourceLimit::new();
    limit.with_ipv4(ip("192.0.2.0/24"));
    limit.with_asn(AsResources::inherit());
    let r = limit.resolve(&parent()).unwrap();
    assert_eq!(r.v4(), &ip("192.0.2.0/24"));
    assert!(r.asn().is_inherited());
}
