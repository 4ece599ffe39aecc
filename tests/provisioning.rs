use std::str::FromStr;

use krill::provisioning::{
    bytes_equal, EntitlementClass, Entitlements, IssuanceRequest, ProvisioningRequest, SigningCert, DFLT_CLASS,
};
use krill::resources::{RequestResourceLimit, ResourceSet};
use rpki::repository::resources::{AsResources, IpResources};

fn set() -> ResourceSet {
    ResourceSet::new(AsResources::from_str("AS1-AS5").unwrap(), IpResources::inherit(), IpResources::missing())
}

#[test]
fn signing_cert_equality() {
    let a = SigningCert::new("rsync://host/ta.cer".to_string(), vec![1, 2, 3]);
    let b = SigningCert::new("rsync://host/ta.cer".to_string(), vec![1, 2, 3]);
    let c = SigningCert::new("rsync://host/ta.cer".to_string(), vec![1, 2, 4]);
    let d = SigningCert::new("rsync://other/ta.cer".to_string(), vec![1, 2, 3]);
    assert!(a == b);
    assert!(a != c);
    assert!(a != d);
    assert_eq!(a.uri(), "rsync://host/ta.cer");
    assert_eq!(a.cert(), &vec![1, 2, 3]);
}

#[test]
fn byte_comparison() {
    assert!(bytes_equal(&vec![], &vec![]));
    assert!(!bytes_equal(&vec![1], &vec![1, 2]));
    assert!(!bytes_equal(&vec![1, 3], &vec![1, 2]));
}

#[test]
fn default_class_is_named_all() {
    let issuer = SigningCert::new("rsync://host/ta.cer".to_string(), vec![9]);
    let e = Entitlements::with_default_class(issuer, set(), 1_600_000_000, vec![]);
    assert_eq!(e.classes().len(), 1);
    let class = &e.classes()[0];
    assert_eq!(class.name(), DFLT_CLASS);
    assert_eq!(class.name(), "all");
    assert_eq!(class.not_after(), 1_600_000_000);
    assert!(class.issued().is_empty());
    assert!(class.resource_set().v4().is_inherited());
    assert!(*class.issuer() == SigningCert::new("rsync://host/ta.cer".to_string(), vec![9]));
}

#[test]
fn classes_kept_in_order() {
    let issuer = || SigningCert::new("rsync://host/ta.cer".to_string(), vec![9]);
    let a = EntitlementClass::new("first".to_string(), issuer(), set(), 1, vec![]);
    let b = EntitlementClass::new("second".to_string(), issuer(), set(), 2, vec![]);
    let e = Entitlements::new(vec![a, b]);
    assert_eq!(e.classes()[0].name(), "first");
    assert_eq!(e.classes()[1].name(), "second");
}

#[test]
fn issuance_request_parts() {
    let mut limit = RequestResourceLimit::new();
    limit.with_asn(AsResources::from_str("AS2").unwrap());
    let req = IssuanceRequest::new("all".to_string(), limit, vec![7, 7]);
    assert_eq!(req.class_name(), "all");
    let p = ProvisioningRequest::request(req);
    match p {
        ProvisioningRequest::Request(r) => {
            let (name, limit, csr) = r.unwrap();
            assert_eq!(name, "all");
            assert_eq!(limit.asn(), Some(&AsResources::from_str("AS2").unwrap()));
            assert_eq!(csr, vec![7, 7]);
        }
        ProvisioningRequest::List => panic!("expected a request"),
    }
    assert!(matches!(ProvisioningRequest::list(), ProvisioningRequest::List));
}
