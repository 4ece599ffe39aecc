//! The messages a child CA and its parent exchange: the list of entitlements
//! and the request to issue a certificate (RFC 6492).
use vstd::prelude::*;

use crate::resources::{RequestResourceLimit, ResourceSet};

verus! {

/// The name of the class that a parent offers by default.
pub const DFLT_CLASS: &'static str = "all";

/// Compares two byte strings.
pub fn bytes_equal(a: &Vec<u8>, b: &Vec<u8>) -> (r: bool)
    ensures
        r == (a@ == b@),
{
    if a.len() != b.len() {
        return false;
    }
    let mut i: usize = 0;
    while i < a.len()
        invariant
            i <= a.len() == b.len(),
            a@.take(i as int) == b@.take(i as int),
        decreases a.len() - i,
    {
        if a[i] != b[i] {
            assert(a@[i as int] != b@[i as int]);
            return false;
        }
        assert(a@.take(i + 1) == a@.take(i as int).push(a@[i as int]));
        assert(b@.take(i + 1) == b@.take(i as int).push(b@[i as int]));
        i = i + 1;
    }
    assert(a@ == a@.take(a.len() as int));
    assert(b@ == b@.take(b.len() as int));
    true
}

/// A certificate that was issued to a child: where it is published, the
/// limit it was asked with, the resources it holds and its DER bytes.
pub struct IssuedCert {
    pub uri: String,
    pub limit: RequestResourceLimit,
    pub resource_set: ResourceSet,
    pub cert: Vec<u8>,
}

/// The certificate of a parent that signs for a class: its rsync URI and
/// its DER bytes. Two are equal where the URIs and the bytes are.
pub struct SigningCert {
    uri: String,
    cert: Vec<u8>,
}

impl SigningCert {
    pub closed spec fn spec_uri(&self) -> Seq<char> {
        self.uri@
    }

    pub closed spec fn spec_cert(&self) -> Seq<u8> {
        self.cert@
    }

    pub fn new(uri: String, cert: Vec<u8>) -> (r: SigningCert)
        ensures
            r.spec_uri() == uri@,
            r.spec_cert() == cert@,
    {
        SigningCert { uri, cert }
    }

    pub fn uri(&self) -> (r: &String)
        ensures
            r@ == self.spec_uri(),
    {
        &self.uri
    }

    pub fn cert(&self) -> (r: &Vec<u8>)
        ensures
            r@ == self.spec_cert(),
    {
        &self.cert
    }
}

impl PartialEq for SigningCert {
    fn eq(&self, other: &SigningCert) -> (r: bool) {
        self.uri == other.uri && bytes_equal(&self.cert, &other.cert)
    }
}

impl vstd::std_specs::cmp::PartialEqSpecImpl for SigningCert {
    open spec fn obeys_eq_spec() -> bool {
        true
    }

    open spec fn eq_spec(&self, other: &SigningCert) -> bool {
        self.spec_uri() == other.spec_uri() && self.spec_cert() == other.spec_cert()
    }
}

/// A Certificate Issuance Request (RFC 6492, 3.4.1): the class asked from,
/// the limit on the resources, and the DER bytes of the CSR.
pub struct IssuanceRequest {
    class_name: String,
    limit: RequestResourceLimit,
    csr: Vec<u8>,
}

impl IssuanceRequest {
    pub closed spec fn spec_class_name(&self) -> Seq<char> {
        self.class_name@
    }

    pub closed spec fn spec_limit(&self) -> RequestResourceLimit {
        self.limit
    }

    pub closed spec fn spec_csr(&self) -> Seq<u8> {
        self.csr@
    }

    pub fn new(class_name: String, limit: RequestResourceLimit, csr: Vec<u8>) -> (r: IssuanceRequest)
        ensures
            r.spec_class_name() == class_name@,
            r.spec_limit() == limit,
            r.spec_csr() == csr@,
    {
        IssuanceRequest { class_name, limit, csr }
    }

    pub fn unwrap(self) -> (r: (String, RequestResourceLimit, Vec<u8>))
        ensures
            r.0@ == self.spec_class_name(),
            r.1 == self.spec_limit(),
            r.2@ == self.spec_csr(),
    {
        (self.class_name, self.limit, self.csr)
    }

    pub fn class_name(&self) -> (r: &String)
        ensures
            r@ == self.spec_class_name(),
    {
        &self.class_name
    }
}

/// One class of resources that a parent offers a child.
pub struct EntitlementClass {
    name: String,
    issuer: SigningCert,
    resource_set: ResourceSet,
    /// Seconds since the Unix epoch.
    not_after: i64,
    issued: Vec<IssuedCert>,
}

impl EntitlementClass {
    pub closed spec fn spec_name(&self) -> Seq<char> {
        self.name@
    }

    pub closed spec fn spec_issuer(&self) -> SigningCert {
        self.issuer
    }

    pub closed spec fn spec_resource_set(&self) -> ResourceSet {
        self.resource_set
    }

    pub closed spec fn spec_not_after(&self) -> i64 {
        self.not_after
    }

    pub closed spec fn spec_issued(&self) -> Seq<IssuedCert> {
        self.issued@
    }

    pub fn new(
        name: String,
        issuer: SigningCert,
        resource_set: ResourceSet,
        not_after: i64,
        issued: Vec<IssuedCert>,
    ) -> (r: EntitlementClass)
        ensures
            r.spec_name() == name@,
            r.spec_issuer() == issuer,
            r.spec_resource_set() == resource_set,
            r.spec_not_after() == not_after,
            r.spec_issued() == issued@,
    {
        EntitlementClass { name, issuer, resource_set, not_after, issued }
    }

    pub fn name(&self) -> (r: &str)
        ensures
            r@ == self.spec_name(),
    {
        self.name.as_str()
    }

    pub fn issuer(&self) -> (r: &SigningCert)
        ensures
            *r == self.spec_issuer(),
    {
        &self.issuer
    }

    pub fn resource_set(&self) -> (r: &ResourceSet)
        ensures
            *r == self.spec_resource_set(),
    {
        &self.resource_set
    }

    pub fn not_after(&self) -> (r: i64)
        ensures
            r == self.spec_not_after(),
    {
        self.not_after
    }

    pub fn issued(&self) -> (r: &Vec<IssuedCert>)
        ensures
            r@ == self.spec_issued(),
    {
        &self.issued
    }
}

/// The Resource Class List Response (RFC 6492, 3.3.2).
pub struct Entitlements {
    classes: Vec<EntitlementClass>,
}

impl Entitlements {
    pub closed spec fn spec_classes(&self) -> Seq<EntitlementClass> {
        self.classes@
    }

    /// One class, named `all`, with the given issuer, resources, end of
    /// validity and issued certificates.
    pub fn with_default_class(
        issuer: SigningCert,
        resource_set: ResourceSet,
        not_after: i64,
        issued: Vec<IssuedCert>,
    ) -> (r: Entitlements)
        ensures
            r.spec_classes().len() == 1,
            r.spec_classes()[0].spec_name() == DFLT_CLASS@,
            r.spec_classes()[0].spec_issuer() == issuer,
            r.spec_classes()[0].spec_resource_set() == resource_set,
            r.spec_classes()[0].spec_not_after() == not_after,
            r.spec_classes()[0].spec_issued() == issued@,
    {
        let name = String::from_str(DFLT_CLASS);
        let class = EntitlementClass::new(name, issuer, resource_set, not_after, issued);
        let mut classes = Vec::new();
        classes.push(class);
        Entitlements { classes }
    }

    pub fn new(classes: Vec<EntitlementClass>) -> (r: Entitlements)
        ensures
            r.spec_classes() == classes@,
    {
        Entitlements { classes }
    }

    pub fn classes(&self) -> (r: &Vec<EntitlementClass>)
        ensures
            r@ == self.spec_classes(),
    {
        &self.classes
    }
}

/// What a child asks of its parent.
pub enum ProvisioningRequest {
    List,
    Request(IssuanceRequest),
}

impl ProvisioningRequest {
    pub fn list() -> (r: ProvisioningRequest)
        ensures
            r is List,
    {
        ProvisioningRequest::List
    }

    pub fn request(r: IssuanceRequest) -> (p: ProvisioningRequest)
        ensures
            p == ProvisioningRequest::Request(r),
    {
        ProvisioningRequest::Request(r)
    }
}

/// What a parent answers.
pub enum ProvisioningResponse {
    List(Entitlements),
}

} // verus!
