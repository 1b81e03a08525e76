//! A consolidated view of one route's attributes, for quick access by a
//! route-advertisement layer: one optional slot per attribute kind.
use vstd::prelude::*;

use crate::aspath::{as4_views, As4Path, As4SegV, As4Segment};
use crate::attr::{
    Aggregator, Aigp, AtomicAggregate, Attr, AttrV, ClusterList, LocalPref, Med, NexthopAttr,
    Origin, OriginatorId, PmsiTunnel, PmsiTunnelV,
};
use crate::community::{
    Community, ExtCommunity, ExtCommunityValue, LargeCommunity, LargeCommunityValue,
};
use crate::list::dup;
use crate::mp::Vpnv4Nexthop;

verus! {

/// A next hop of either kind.
#[derive(Clone, Copy, Debug, PartialEq, Eq, Structural)]
pub enum BgpNexthop {
    Ipv4(u32),
    Vpnv4(Vpnv4Nexthop),
}

/// The consolidated attributes of one route.
#[derive(Clone, Debug)]
pub struct BgpAttr {
    pub origin: Option<Origin>,
    pub aspath: Option<As4Path>,
    pub nexthop: Option<BgpNexthop>,
    pub med: Option<Med>,
    pub local_pref: Option<LocalPref>,
    pub atomic_aggregate: Option<AtomicAggregate>,
    pub aggregator: Option<Aggregator>,
    pub com: Option<Community>,
    pub originator_id: Option<OriginatorId>,
    pub cluster_list: Option<ClusterList>,
    pub ecom: Option<ExtCommunity>,
    pub pmsi_tunnel: Option<PmsiTunnel>,
    pub aigp: Option<u64>,
    pub lcom: Option<LargeCommunity>,
}

/// The mathematical shape of a consolidated attribute record.
#[verifier::ext_equal]
pub ghost struct BgpAttrV {
    pub origin: Option<Origin>,
    pub aspath: Option<Seq<As4SegV>>,
    pub nexthop: Option<BgpNexthop>,
    pub med: Option<Med>,
    pub local_pref: Option<LocalPref>,
    pub atomic_aggregate: Option<AtomicAggregate>,
    pub aggregator: Option<Aggregator>,
    pub com: Option<Seq<u32>>,
    pub originator_id: Option<OriginatorId>,
    pub cluster_list: Option<Seq<u32>>,
    pub ecom: Option<Seq<ExtCommunityValue>>,
    pub pmsi_tunnel: Option<PmsiTunnelV>,
    pub aigp: Option<u64>,
    pub lcom: Option<Seq<LargeCommunityValue>>,
}

impl View for BgpAttr {
    type V = BgpAttrV;

    open spec fn view(&self) -> BgpAttrV {
        BgpAttrV {
            origin: self.origin,
            aspath: match self.aspath {
                Some(p) => Some(as4_views(p.segs@)),
                None => None,
            },
            nexthop: self.nexthop,
            med: self.med,
            local_pref: self.local_pref,
            atomic_aggregate: self.atomic_aggregate,
            aggregator: self.aggregator,
            com: match self.com {
                Some(c) => Some(c.0@),
                None => None,
            },
            originator_id: self.originator_id,
            cluster_list: match self.cluster_list {
                Some(c) => Some(c.list@),
                None => None,
            },
            ecom: match self.ecom {
                Some(c) => Some(c.0@),
                None => None,
            },
            pmsi_tunnel: match self.pmsi_tunnel {
                Some(p) => Some(p@),
                None => None,
            },
            aigp: self.aigp,
            lcom: match self.lcom {
                Some(c) => Some(c.0@),
                None => None,
            },
        }
    }
}

/// An empty consolidated record.
pub open spec fn bgp_attr_empty() -> BgpAttrV {
    BgpAttrV {
        origin: None,
        aspath: None,
        nexthop: None,
        med: None,
        local_pref: None,
        atomic_aggregate: None,
        aggregator: None,
        com: None,
        originator_id: None,
        cluster_list: None,
        ecom: None,
        pmsi_tunnel: None,
        aigp: None,
        lcom: None,
    }
}

/// The first half of the emission order: origin through aggregator.
pub open spec fn bgp_attr_to_spec_a(b: BgpAttrV) -> Seq<AttrV> {
    (match b.origin {
        Some(v) => seq![AttrV::Origin(v)],
        None => Seq::empty(),
    }) + (match b.aspath {
        Some(v) => seq![AttrV::As4Path(v)],
        None => Seq::empty(),
    }) + (match b.nexthop {
        Some(BgpNexthop::Ipv4(a)) => seq![AttrV::NextHop(NexthopAttr { next_hop: a })],
        _ => Seq::empty(),
    }) + (match b.med {
        Some(v) => seq![AttrV::Med(v)],
        None => Seq::empty(),
    }) + (match b.local_pref {
        Some(v) => seq![AttrV::LocalPref(v)],
        None => Seq::empty(),
    }) + (match b.atomic_aggregate {
        Some(v) => seq![AttrV::AtomicAggregate(v)],
        None => Seq::empty(),
    }) + (match b.aggregator {
        Some(v) => seq![AttrV::Aggregator(v)],
        None => Seq::empty(),
    })
}

/// The second half of the emission order: communities through large
/// communities.
pub open spec fn bgp_attr_to_spec_b(b: BgpAttrV) -> Seq<AttrV> {
    (match b.com {
        Some(v) => seq![AttrV::Community(v)],
        None => Seq::empty(),
    }) + (match b.originator_id {
        Some(v) => seq![AttrV::OriginatorId(v)],
        None => Seq::empty(),
    }) + (match b.cluster_list {
        Some(v) => seq![AttrV::ClusterList(v)],
        None => Seq::empty(),
    }) + (match b.ecom {
        Some(v) => seq![AttrV::ExtendedCom(v)],
        None => Seq::empty(),
    }) + (match b.pmsi_tunnel {
        Some(v) => seq![AttrV::PmsiTunnel(v)],
        None => Seq::empty(),
    }) + (match b.aigp {
        Some(v) => seq![AttrV::Aigp(Aigp { aigp: v })],
        None => Seq::empty(),
    }) + (match b.lcom {
        Some(v) => seq![AttrV::LargeCom(v)],
        None => Seq::empty(),
    })
}

/// The attribute list a consolidated record spreads back into, in emission
/// order.
pub open spec fn bgp_attr_to_spec(b: BgpAttrV) -> Seq<AttrV> {
    bgp_attr_to_spec_a(b) + bgp_attr_to_spec_b(b)
}

/// Folding one attribute into a consolidated record: the slot of its kind is
/// replaced, every other slot is kept; multiprotocol and unknown attributes
/// are passed over.
pub open spec fn bgp_attr_absorb(acc: BgpAttrV, a: AttrV) -> BgpAttrV {
    match a {
        AttrV::Origin(v) => BgpAttrV { origin: Some(v), ..acc },
        AttrV::As4Path(v) => BgpAttrV { aspath: Some(v), ..acc },
        AttrV::NextHop(v) => BgpAttrV { nexthop: Some(BgpNexthop::Ipv4(v.next_hop)), ..acc },
        AttrV::Med(v) => BgpAttrV { med: Some(v), ..acc },
        AttrV::LocalPref(v) => BgpAttrV { local_pref: Some(v), ..acc },
        AttrV::AtomicAggregate(v) => BgpAttrV { atomic_aggregate: Some(v), ..acc },
        AttrV::Aggregator(v) => BgpAttrV { aggregator: Some(v), ..acc },
        AttrV::Community(v) => BgpAttrV { com: Some(v), ..acc },
        AttrV::OriginatorId(v) => BgpAttrV { originator_id: Some(v), ..acc },
        AttrV::ClusterList(v) => BgpAttrV { cluster_list: Some(v), ..acc },
        AttrV::ExtendedCom(v) => BgpAttrV { ecom: Some(v), ..acc },
        AttrV::PmsiTunnel(v) => BgpAttrV { pmsi_tunnel: Some(v), ..acc },
        AttrV::Aigp(v) => BgpAttrV { aigp: Some(v.aigp), ..acc },
        AttrV::LargeCom(v) => BgpAttrV { lcom: Some(v), ..acc },
        _ => acc,
    }
}

/// The consolidated record of an attribute list: later occurrences of a kind
/// replace earlier ones.
pub open spec fn bgp_attr_from_spec(s: Seq<AttrV>) -> BgpAttrV
    decreases s.len(),
{
    if s.len() == 0 {
        bgp_attr_empty()
    } else {
        bgp_attr_absorb(bgp_attr_from_spec(s.drop_last()), s.last())
    }
}

impl As4Path {
    /// A verified deep copy.
    pub fn duplicate(&self) -> (r: As4Path)
        ensures
            as4_views(r.segs@) =~= as4_views(self.segs@),
    {
        let mut segs: Vec<As4Segment> = Vec::new();
        let mut i: usize = 0;
        while i < self.segs.len()
            invariant
                i <= self.segs.len(),
                segs@.len() == i,
                forall|j: int| 0 <= j < i ==> #[trigger] segs@[j]@ == self.segs@[j]@,
            decreases self.segs.len() - i,
        {
            let seg = &self.segs[i];
            segs.push(As4Segment { typ: seg.typ, asn: dup(&seg.asn) });
            i = i + 1;
        }
        let r = As4Path { segs };
        proof {
            assert forall|j: int| 0 <= j < as4_views(r.segs@).len() implies as4_views(r.segs@)[j]
                == as4_views(self.segs@)[j] by {
                assert(as4_views(r.segs@)[j] == r.segs@[j]@);
                assert(as4_views(self.segs@)[j] == self.segs@[j]@);
            }
        }
        r
    }
}

impl BgpAttr {
    /// A record holding the well-known mandatory attributes with their
    /// initial values: IGP origin, an empty AS path, and a zero metric.
    pub fn new() -> (r: BgpAttr)
        ensures
            r@.origin == Some(Origin { origin: 0 }),
            r@.aspath matches Some(p) && p =~= Seq::<As4SegV>::empty(),
            r@.med == Some(Med { med: 0 }),
            r@.nexthop is None && r@.local_pref is None && r@.atomic_aggregate is None
                && r@.aggregator is None && r@.com is None && r@.originator_id is None
                && r@.cluster_list is None && r@.ecom is None && r@.pmsi_tunnel is None
                && r@.aigp is None && r@.lcom is None,
    {
        let r = BgpAttr {
            origin: Some(Origin { origin: 0 }),
            aspath: Some(As4Path::new()),
            nexthop: None,
            med: Some(Med { med: 0 }),
            local_pref: None,
            atomic_aggregate: None,
            aggregator: None,
            com: None,
            originator_id: None,
            cluster_list: None,
            ecom: None,
            pmsi_tunnel: None,
            aigp: None,
            lcom: None,
        };
        proof {
            assert(as4_views(r.aspath->Some_0.segs@) =~= Seq::<As4SegV>::empty());
        }
        r
    }

    /// An empty record.
    pub fn empty() -> (r: BgpAttr)
        ensures
            r@ == bgp_attr_empty(),
    {
        BgpAttr {
            origin: None,
            aspath: None,
            nexthop: None,
            med: None,
            local_pref: None,
            atomic_aggregate: None,
            aggregator: None,
            com: None,
            originator_id: None,
            cluster_list: None,
            ecom: None,
            pmsi_tunnel: None,
            aigp: None,
            lcom: None,
        }
    }

    /// Spreads the record back into an attribute list, in emission order.
    #[verifier::rlimit(100)]
    #[verifier::spinoff_prover]
    fn to_front(&self) -> (r: Vec<Attr>)
        ensures
            crate::attr::attr_views(r@) =~= bgp_attr_to_spec_a(self@),
    {
        let ghost b = self@;
        let mut attrs: Vec<Attr> = Vec::new();
        let ghost mut exp: Seq<AttrV> = Seq::empty();
        proof {
            assert(crate::attr::attr_views(attrs@) =~= exp);
        }
        if let Some(v) = &self.origin {
            attrs.push(Attr::Origin(*v));
        }
        proof {
            exp = exp + (match b.origin {
                Some(v) => seq![AttrV::Origin(v)],
                None => Seq::empty(),
            });
            assert(crate::attr::attr_views(attrs@) =~= exp);
        }
        if let Some(v) = &self.aspath {
            attrs.push(Attr::As4Path(v.duplicate()));
        }
        proof {
            exp = exp + (match b.aspath {
                Some(v) => seq![AttrV::As4Path(v)],
                None => Seq::empty(),
            });
            assert(crate::attr::attr_views(attrs@) =~= exp);
        }
        if let Some(v) = &self.nexthop {
            match v {
                BgpNexthop::Ipv4(addr) => {
                    attrs.push(Attr::NextHop(NexthopAttr { next_hop: *addr }));
                },
                BgpNexthop::Vpnv4(_) => {
                    // The VPNv4 next hop travels in MP_REACH_NLRI, not in a
                    // NEXT_HOP attribute.
                },
            }
        }
        proof {
            exp = exp + (match b.nexthop {
                Some(BgpNexthop::Ipv4(a)) => seq![AttrV::NextHop(NexthopAttr { next_hop: a })],
                _ => Seq::empty(),
            });
            assert(crate::attr::attr_views(attrs@) =~= exp);
        }
        if let Some(v) = &self.med {
            attrs.push(Attr::Med(*v));
        }
        proof {
            exp = exp + (match b.med {
                Some(v) => seq![AttrV::Med(v)],
                None => Seq::empty(),
            });
            assert(crate::attr::attr_views(attrs@) =~= exp);
        }
        if let Some(v) = &self.local_pref {
            attrs.push(Attr::LocalPref(*v));
        }
        proof {
            exp = exp + (match b.local_pref {
                Some(v) => seq![AttrV::LocalPref(v)],
                None => Seq::empty(),
            });
            assert(crate::attr::attr_views(attrs@) =~= exp);
        }
        if let Some(v) = &self.atomic_aggregate {
            attrs.push(Attr::AtomicAggregate(*v));
        }
        proof {
            exp = exp + (match b.atomic_aggregate {
                Some(v) => seq![AttrV::AtomicAggregate(v)],
                None => Seq::empty(),
            });
            assert(crate::attr::attr_views(attrs@) =~= exp);
        }
        if let Some(v) = &self.aggregator {
            attrs.push(Attr::Aggregator(*v));
        }
        proof {
            exp = exp + (match b.aggregator {
                Some(v) => seq![AttrV::Aggregator(v)],
                None => Seq::empty(),
            });
            assert(crate::attr::attr_views(attrs@) =~= exp);
        }
        proof {
            assert(exp =~= bgp_attr_to_spec_a(b));
        }
        attrs
    }

    #[verifier::rlimit(100)]
    #[verifier::spinoff_prover]
    fn to_back(&self) -> (r: Vec<Attr>)
        ensures
            crate::attr::attr_views(r@) =~= bgp_attr_to_spec_b(self@),
    {
        let ghost b = self@;
        let mut attrs: Vec<Attr> = Vec::new();
        let ghost mut exp: Seq<AttrV> = Seq::empty();
        proof {
            assert(crate::attr::attr_views(attrs@) =~= exp);
        }
        if let Some(v) = &self.com {
            attrs.push(Attr::Community(Community(dup(&v.0))));
        }
        proof {
            exp = exp + (match b.com {
                Some(v) => seq![AttrV::Community(v)],
                None => Seq::empty(),
            });
            assert(crate::attr::attr_views(attrs@) =~= exp);
        }
        if let Some(v) = &self.originator_id {
            attrs.push(Attr::OriginatorId(*v));
        }
        proof {
            exp = exp + (match b.originator_id {
                Some(v) => seq![AttrV::OriginatorId(v)],
                None => Seq::empty(),
            });
            assert(crate::attr::attr_views(attrs@) =~= exp);
        }
        if let Some(v) = &self.cluster_list {
            attrs.push(Attr::ClusterList(ClusterList { list: dup(&v.list) }));
        }
        proof {
            exp = exp + (match b.cluster_list {
                Some(v) => seq![AttrV::ClusterList(v)],
                None => Seq::empty(),
            });
            assert(crate::attr::attr_views(attrs@) =~= exp);
        }
        if let Some(v) = &self.ecom {
            attrs.push(Attr::ExtendedCom(ExtCommunity(dup(&v.0))));
        }
        proof {
            exp = exp + (match b.ecom {
                Some(v) => seq![AttrV::ExtendedCom(v)],
                None => Seq::empty(),
            });
            assert(crate::attr::attr_views(attrs@) =~= exp);
        }
        if let Some(v) = &self.pmsi_tunnel {
            attrs.push(
                Attr::PmsiTunnel(
                    PmsiTunnel {
                        flags: v.flags,
                        tunnel_type: v.tunnel_type,
                        vni: v.vni,
                        tid: dup(&v.tid),
                    },
                ),
            );
        }
        proof {
            exp = exp + (match b.pmsi_tunnel {
                Some(v) => seq![AttrV::PmsiTunnel(v)],
                None => Seq::empty(),
            });
            assert(crate::attr::attr_views(attrs@) =~= exp);
        }
        if let Some(v) = &self.aigp {
            attrs.push(Attr::Aigp(Aigp { aigp: *v }));
        }
        proof {
            exp = exp + (match b.aigp {
                Some(v) => seq![AttrV::Aigp(Aigp { aigp: v })],
                None => Seq::empty(),
            });
            assert(crate::attr::attr_views(attrs@) =~= exp);
        }
        if let Some(v) = &self.lcom {
            attrs.push(Attr::LargeCom(LargeCommunity(dup(&v.0))));
        }
        proof {
            exp = exp + (match b.lcom {
                Some(v) => seq![AttrV::LargeCom(v)],
                None => Seq::empty(),
            });
            assert(crate::attr::attr_views(attrs@) =~= exp);
            assert(exp =~= bgp_attr_to_spec_b(b));
        }
        attrs
    }

    /// Spreads the record back into an attribute list, in emission order.
    pub fn to(&self) -> (r: Vec<Attr>)
        ensures
            crate::attr::attr_views(r@) =~= bgp_attr_to_spec(self@),
    {
        let mut attrs = self.to_front();
        let mut back = self.to_back();
        let ghost pre = attrs@;
        let ghost preb = back@;
        attrs.append(&mut back);
        proof {
            assert forall|j: int| 0 <= j < crate::attr::attr_views(attrs@).len() implies crate::attr::attr_views(
                attrs@,
            )[j] == (crate::attr::attr_views(pre) + crate::attr::attr_views(preb))[j] by {
                assert(crate::attr::attr_views(attrs@)[j] == attrs@[j]@);
                if j < pre.len() {
                    assert(crate::attr::attr_views(pre)[j] == pre[j]@);
                } else {
                    assert(crate::attr::attr_views(preb)[j - pre.len()] == preb[j - pre.len()]@);
                }
            }
            assert(crate::attr::attr_views(attrs@) =~= crate::attr::attr_views(pre)
                + crate::attr::attr_views(preb));
        }
        attrs
    }

    /// Consolidates an attribute list: the last occurrence of each kind wins;
    /// multiprotocol and unknown attributes are left to their own handling.
    pub fn from(attrs: &Vec<Attr>) -> (r: BgpAttr)
        ensures
            r@ =~= bgp_attr_from_spec(crate::attr::attr_views(attrs@)),
    {
        let mut r = BgpAttr::empty();
        let mut i: usize = 0;
        proof {
            assert(crate::attr::attr_views(attrs@).take(0int) =~= Seq::<AttrV>::empty());
        }
        while i < attrs.len()
            invariant
                i <= attrs.len(),
                r@ =~= bgp_attr_from_spec(crate::attr::attr_views(attrs@).take(i as int)),
            decreases attrs.len() - i,
        {
            let ghost pre = r@;
            match &attrs[i] {
                Attr::Origin(v) => {
                    r.origin = Some(*v);
                },
                Attr::As2Path(_) => {
                    // The two-byte form is not consolidated; the session layer
                    // merges it with AS4_PATH when it needs to.
                },
                Attr::As4Path(v) => {
                    r.aspath = Some(v.duplicate());
                },
                Attr::NextHop(v) => {
                    r.nexthop = Some(BgpNexthop::Ipv4(v.next_hop));
                },
                Attr::Med(v) => {
                    r.med = Some(*v);
                },
                Attr::LocalPref(v) => {
                    r.local_pref = Some(*v);
                },
                Attr::AtomicAggregate(v) => {
                    r.atomic_aggregate = Some(*v);
                },
                Attr::Aggregator(v) => {
                    r.aggregator = Some(*v);
                },
                Attr::Aggregator2(_) => {
                    // The two-byte form is not consolidated.
                },
                Attr::Community(v) => {
                    r.com = Some(Community(dup(&v.0)));
                },
                Attr::OriginatorId(v) => {
                    r.originator_id = Some(*v);
                },
                Attr::ClusterList(v) => {
                    r.cluster_list = Some(ClusterList { list: dup(&v.list) });
                },
                Attr::MpReachNlri(_) => {},
                Attr::MpUnreachNlri(_) => {},
                Attr::ExtendedCom(v) => {
                    r.ecom = Some(ExtCommunity(dup(&v.0)));
                },
                Attr::ExtIpv6Com(_) => {},
                Attr::PmsiTunnel(v) => {
                    r.pmsi_tunnel = Some(
                        PmsiTunnel {
                            flags: v.flags,
                            tunnel_type: v.tunnel_type,
                            vni: v.vni,
                            tid: dup(&v.tid),
                        },
                    );
                },
                Attr::Aigp(v) => {
                    r.aigp = Some(v.aigp);
                },
                Attr::LargeCom(v) => {
                    r.lcom = Some(LargeCommunity(dup(&v.0)));
                },
                Attr::Unknown { .. } => {},
            }
            proof {
                let vs = crate::attr::attr_views(attrs@);
                assert(vs.take(i + 1).drop_last() =~= vs.take(i as int));
                assert(vs.take(i + 1).last() == vs[i as int]);
                assert(vs[i as int] == attrs@[i as int]@);
                assert(r@ =~= bgp_attr_absorb(pre, attrs@[i as int]@));
            }
            i = i + 1;
        }
        proof {
            assert(crate::attr::attr_views(attrs@).take(attrs@.len() as int) =~= crate::attr::attr_views(
                attrs@,
            ));
        }
        r
    }
}

} // verus!
