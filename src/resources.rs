//! Resource sets and the limit a child puts on what it asks to be certified.
use vstd::prelude::*;

use rpki::repository::cert::Overclaim;
use rpki::repository::resources::{AsBlocks, AsResources, IpBlocks, IpResources};

verus! {

#[verifier::external_type_specification]
#[verifier::external_body]
pub struct ExAsResources(AsResources);

#[verifier::external_type_specification]
#[verifier::external_body]
pub struct ExAsBlocks(AsBlocks);

#[verifier::external_type_specification]
#[verifier::external_body]
pub struct ExIpResources(IpResources);

#[verifier::external_type_specification]
#[verifier::external_body]
pub struct ExIpBlocks(IpBlocks);

/// Whether AS resources are of the inherited kind.
pub uninterp spec fn as_inherited(r: AsResources) -> bool;

/// The AS numbers held by explicit AS resources (none where they are missing).
pub uninterp spec fn as_resources_held(r: AsResources) -> Set<u32>;

/// The AS numbers held by a set of AS blocks.
pub uninterp spec fn as_blocks_held(b: AsBlocks) -> Set<u32>;

/// Whether IP resources are of the inherited kind.
pub uninterp spec fn ip_inherited(r: IpResources) -> bool;

/// The addresses held by explicit IP resources (none where they are missing).
pub uninterp spec fn ip_resources_held(r: IpResources) -> Set<u128>;

/// The addresses held by a set of IP blocks.
pub uninterp spec fn ip_blocks_held(b: IpBlocks) -> Set<u128>;

/// Relies on `AsResources::to_blocks`: the explicit blocks (empty where the
/// resources are missing), or an error where they are inherited.
#[verifier::external_body]
fn as_resources_blocks(r: &AsResources) -> (b: Option<AsBlocks>)
    ensures
        b is None <==> as_inherited(*r),
        b matches Some(blocks) ==> as_blocks_held(blocks) == as_resources_held(*r),
{
    r.to_blocks().ok()
}

/// Relies on `AsBlocks::verify_issued` with `Overclaim::Refuse`: missing and
/// inherited requests pass, explicit ones pass only where these blocks
/// encompass them.
#[verifier::external_body]
fn as_blocks_cover(parent: &AsBlocks, req: &AsResources) -> (ok: bool)
    ensures
        ok == (as_inherited(*req) || as_resources_held(*req).subset_of(as_blocks_held(*parent))),
{
    parent.verify_issued(req, Overclaim::Refuse).is_ok()
}

/// Relies on `IpResources::to_blocks`: the explicit blocks (empty where the
/// resources are missing), or an error where they are inherited.
#[verifier::external_body]
fn ip_resources_blocks(r: &IpResources) -> (b: Option<IpBlocks>)
    ensures
        b is None <==> ip_inherited(*r),
        b matches Some(blocks) ==> ip_blocks_held(blocks) == ip_resources_held(*r),
{
    r.to_blocks().ok()
}

/// Relies on `IpBlocks::verify_issued` with `Overclaim::Refuse`: missing and
/// inherited requests pass, explicit ones pass only where these blocks
/// encompass them.
#[verifier::external_body]
fn ip_blocks_cover(parent: &IpBlocks, req: &IpResources) -> (ok: bool)
    ensures
        ok == (ip_inherited(*req) || ip_resources_held(*req).subset_of(ip_blocks_held(*parent))),
{
    parent.verify_issued(req, Overclaim::Refuse).is_ok()
}

/// The derived `Clone` of `AsResources` copies the choice and its blocks.
pub assume_specification[ <AsResources as Clone>::clone ](r: &AsResources) -> (c: AsResources)
    ensures
        as_inherited(c) == as_inherited(*r),
        as_resources_held(c) == as_resources_held(*r),
;

/// The derived `Clone` of `IpResources` copies the choice and its blocks.
pub assume_specification[ <IpResources as Clone>::clone ](r: &IpResources) -> (c: IpResources)
    ensures
        ip_inherited(c) == ip_inherited(*r),
        ip_resources_held(c) == ip_resources_held(*r),
;

/// Two AS legs stand for the same resources: both inherited, or both
/// explicit with the same AS numbers.
pub open spec fn as_same(a: AsResources, b: AsResources) -> bool {
    &&& as_inherited(a) == as_inherited(b)
    &&& !as_inherited(a) ==> as_resources_held(a) == as_resources_held(b)
}

/// Two IP legs stand for the same resources: both inherited, or both
/// explicit with the same addresses.
pub open spec fn ip_same(a: IpResources, b: IpResources) -> bool {
    &&& ip_inherited(a) == ip_inherited(b)
    &&& !ip_inherited(a) ==> ip_resources_held(a) == ip_resources_held(b)
}

/// A requested AS leg can be granted out of a parent's leg: nothing is
/// asked, or the parent's leg is explicit and covers the request.
pub open spec fn as_grantable(req: Option<AsResources>, parent: AsResources) -> bool {
    match req {
        None => true,
        Some(q) => !as_inherited(parent) && (as_inherited(q) || as_resources_held(q).subset_of(
            as_resources_held(parent),
        )),
    }
}

/// A requested IP leg can be granted out of a parent's leg: nothing is
/// asked, or the parent's leg is explicit and covers the request.
pub open spec fn ip_grantable(req: Option<IpResources>, parent: IpResources) -> bool {
    match req {
        None => true,
        Some(q) => !ip_inherited(parent) && (ip_inherited(q) || ip_resources_held(q).subset_of(
            ip_resources_held(parent),
        )),
    }
}

/// The AS leg granted: what was asked, or the parent's leg where nothing was.
pub open spec fn as_granted(req: Option<AsResources>, parent: AsResources) -> AsResources {
    match req {
        None => parent,
        Some(q) => q,
    }
}

/// The IP leg granted: what was asked, or the parent's leg where nothing was.
pub open spec fn ip_granted(req: Option<IpResources>, parent: IpResources) -> IpResources {
    match req {
        None => parent,
        Some(q) => q,
    }
}

/// The resources of a certificate: AS numbers, IPv4 and IPv6 addresses.
/// Each leg is explicit or inherited from the issuer.
pub struct ResourceSet {
    asn: AsResources,
    v4: IpResources,
    v6: IpResources,
}

impl ResourceSet {
    pub closed spec fn spec_asn(&self) -> AsResources {
        self.asn
    }

    pub closed spec fn spec_v4(&self) -> IpResources {
        self.v4
    }

    pub closed spec fn spec_v6(&self) -> IpResources {
        self.v6
    }

    pub fn new(asn: AsResources, v4: IpResources, v6: IpResources) -> (r: ResourceSet)
        ensures
            r.spec_asn() == asn,
            r.spec_v4() == v4,
            r.spec_v6() == v6,
    {
        ResourceSet { asn, v4, v6 }
    }

    pub fn asn(&self) -> (r: &AsResources)
        ensures
            *r == self.spec_asn(),
    {
        &self.asn
    }

    pub fn v4(&self) -> (r: &IpResources)
        ensures
            *r == self.spec_v4(),
    {
        &self.v4
    }

    pub fn v6(&self) -> (r: &IpResources)
        ensures
            *r == self.spec_v6(),
    {
        &self.v6
    }
}

/// How far a child narrows what it asks to be certified for, leg by leg.
/// An absent leg asks for all the parent will give of that kind.
pub struct RequestResourceLimit {
    asn: Option<AsResources>,
    v4: Option<IpResources>,
    v6: Option<IpResources>,
}

impl RequestResourceLimit {
    pub closed spec fn spec_asn(&self) -> Option<AsResources> {
        self.asn
    }

    pub closed spec fn spec_v4(&self) -> Option<IpResources> {
        self.v4
    }

    pub closed spec fn spec_v6(&self) -> Option<IpResources> {
        self.v6
    }

    /// No leg is narrowed.
    pub open spec fn spec_is_empty(&self) -> bool {
        &&& self.spec_asn() is None
        &&& self.spec_v4() is None
        &&& self.spec_v6() is None
    }

    /// Every leg of the limit can be granted out of `set`.
    pub open spec fn grantable(&self, set: ResourceSet) -> bool {
        &&& as_grantable(self.spec_asn(), set.spec_asn())
        &&& ip_grantable(self.spec_v4(), set.spec_v4())
        &&& ip_grantable(self.spec_v6(), set.spec_v6())
    }

    /// The resources granted out of `set`, leg by leg.
    pub open spec fn granted(&self, set: ResourceSet, r: ResourceSet) -> bool {
        &&& as_same(r.spec_asn(), as_granted(self.spec_asn(), set.spec_asn()))
        &&& ip_same(r.spec_v4(), ip_granted(self.spec_v4(), set.spec_v4()))
        &&& ip_same(r.spec_v6(), ip_granted(self.spec_v6(), set.spec_v6()))
    }

    pub fn new() -> (r: RequestResourceLimit)
        ensures
            r.spec_is_empty(),
    {
        RequestResourceLimit { asn: None, v4: None, v6: None }
    }

    pub fn is_empty(&self) -> (r: bool)
        ensures
            r == self.spec_is_empty(),
    {
        self.asn.is_none() && self.v4.is_none() && self.v6.is_none()
    }

    pub fn with_asn(&mut self, asn: AsResources)
        ensures
            final(self).spec_asn() == Some(asn),
            final(self).spec_v4() == old(self).spec_v4(),
            final(self).spec_v6() == old(self).spec_v6(),
    {
        self.asn = Some(asn);
    }

    pub fn with_ipv4(&mut self, ipv4: IpResources)
        ensures
            final(self).spec_asn() == old(self).spec_asn(),
            final(self).spec_v4() == Some(ipv4),
            final(self).spec_v6() == old(self).spec_v6(),
    {
        self.v4 = Some(ipv4);
    }

    pub fn with_ipv6(&mut self, ipv6: IpResources)
        ensures
            final(self).spec_asn() == old(self).spec_asn(),
            final(self).spec_v4() == old(self).spec_v4(),
            final(self).spec_v6() == Some(ipv6),
    {
        self.v6 = Some(ipv6);
    }

    pub fn asn(&self) -> (r: Option<&AsResources>)
        ensures
            r matches Some(a) ==> self.spec_asn() == Some(*a),
            r is None <==> self.spec_asn() is None,
    {
        self.asn.as_ref()
    }

    pub fn v4(&self) -> (r: Option<&IpResources>)
        ensures
            r matches Some(a) ==> self.spec_v4() == Some(*a),
            r is None <==> self.spec_v4() is None,
    {
        self.v4.as_ref()
    }

    pub fn v6(&self) -> (r: Option<&IpResources>)
        ensures
            r matches Some(a) ==> self.spec_v6() == Some(*a),
            r is None <==> self.spec_v6() is None,
    {
        self.v6.as_ref()
    }

    /// The resources out of `set` that this limit asks for: `None` where a
    /// narrowed leg asks for more than the parent's explicit leg holds, or
    /// for part of a leg that the parent inherits.
    pub fn resolve(&self, set: &ResourceSet) -> (r: Option<ResourceSet>)
        ensures
            r is Some <==> self.grantable(*set),
            r matches Some(granted) ==> self.granted(*set, granted),
    {
        let asn = match &self.asn {
            None => set.asn.clone(),
            Some(asn) => {
                match as_resources_blocks(&set.asn) {
                    // Part of inherited resources cannot be checked.
                    None => return None,
                    Some(parent_asn) => {
                        if !as_blocks_cover(&parent_asn, asn) {
                            return None;
                        }
                        asn.clone()
                    },
                }
            },
        };
        let v4 = match &self.v4 {
            None => set.v4.clone(),
            Some(v4) => {
                match ip_resources_blocks(&set.v4) {
                    None => return None,
                    Some(parent_v4) => {
                        if !ip_blocks_cover(&parent_v4, v4) {
                            return None;
                        }
                        v4.clone()
                    },
                }
            },
        };
        let v6 = match &self.v6 {
            None => set.v6.clone(),
            Some(v6) => {
                match ip_resources_blocks(&set.v6) {
                    None => return None,
                    Some(parent_v6) => {
                        if !ip_blocks_cover(&parent_v6, v6) {
                            return None;
                        }
                        v6.clone()
                    },
                }
            },
        };
        Some(ResourceSet::new(asn, v4, v6))
    }
}

/// A limit that asks, on some leg, for resources outside the parent's
/// explicit leg of that kind.
pub open spec fn overclaims(limit: RequestResourceLimit, parent: ResourceSet) -> bool {
    ||| (limit.spec_asn() matches Some(q) && !as_inherited(q) && !as_inherited(parent.spec_asn())
        && !as_resources_held(q).subset_of(as_resources_held(parent.spec_asn())))
    ||| (limit.spec_v4() matches Some(q) && !ip_inherited(q) && !ip_inherited(parent.spec_v4())
        && !ip_resources_held(q).subset_of(ip_resources_held(parent.spec_v4())))
    ||| (limit.spec_v6() matches Some(q) && !ip_inherited(q) && !ip_inherited(parent.spec_v6())
        && !ip_resources_held(q).subset_of(ip_resources_held(parent.spec_v6())))
}

/// A limit that narrows some leg that the parent inherits.
pub open spec fn narrows_inherited(limit: RequestResourceLimit, parent: ResourceSet) -> bool {
    ||| (limit.spec_asn() is Some && as_inherited(parent.spec_asn()))
    ||| (limit.spec_v4() is Some && ip_inherited(parent.spec_v4()))
    ||| (limit.spec_v6() is Some && ip_inherited(parent.spec_v6()))
}

/// A limit that asks for more than the parent's explicit blocks hold is
/// refused: `resolve` gives `None`.
pub proof fn lemma_overclaim_refused(limit: RequestResourceLimit, parent: ResourceSet)
    requires
        overclaims(limit, parent),
    ensures
        !limit.grantable(parent),
{
}

/// A limit that narrows a leg which the parent inherits is refused:
/// `resolve` gives `None`.
pub proof fn lemma_inherited_refused(limit: RequestResourceLimit, parent: ResourceSet)
    requires
        narrows_inherited(limit, parent),
    ensures
        !limit.grantable(parent),
{
}

/// The empty limit is granted the parent's resources as they are.
pub proof fn lemma_empty_limit_identity(limit: RequestResourceLimit, parent: ResourceSet, r: ResourceSet)
    requires
        limit.spec_is_empty(),
    ensures
        limit.grantable(parent),
        limit.granted(parent, r) <==> (as_same(r.spec_asn(), parent.spec_asn())
            && ip_same(r.spec_v4(), parent.spec_v4()) && ip_same(r.spec_v6(), parent.spec_v6())),
{
}

} // verus!
