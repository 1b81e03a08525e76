//! Multiprotocol reachability attributes: the MP_REACH_NLRI and
//! MP_UNREACH_NLRI payload codecs for the IPv6-unicast, VPNv4, EVPN and
//! route-target-constraint families, with End-of-RIB recognition.
use vstd::prelude::*;

use crate::afi::{Afi, Safi};
use crate::context::{opt_add_path_recv, opt_view, sp_ap_recv, ParseOption, ParseOptionV};
use crate::error::BgpParseError;
use crate::evpn::{
    emit_evpn_route_list, enc_evpn_route_fn, evpn_views, parse_evpn_route_list,
    sp_evpn_route_list, EvpnRoute, EvpnRouteV,
};
use crate::list::enc_list;
use crate::nlri::{
    emit_ipv6_nlri_list, emit_rtcv4_nlri_list, emit_vpnv4_nlri_list, enc_ipv6_nlri_fn,
    enc_rtcv4_nlri_fn, enc_vpnv4_nlri_fn, parse_ipv6_nlri_list, parse_rtcv4_nlri_list,
    parse_vpnv4_nlri_list, sp_ipv6_nlri_list, sp_rtcv4_nlri_list, sp_vpnv4_nlri_list, Ipv6Nlri,
    Rtcv4, Vpnv4Nlri,
};
use crate::types::RouteDistinguisher;
use crate::wire::{
    be_enc, be_val, lemma_be_enc_len, lemma_be_val_bound, lemma_be_val_enc, lemma_pow256_consts,
    read_be, write_be,
};

verus! {

/// The VPNv4 next hop: an eight-byte route distinguisher (all-zero on the
/// wire from well-behaved speakers) and an IPv4 address.
#[derive(Clone, Copy, Debug, PartialEq, Eq, Structural)]
pub struct Vpnv4Nexthop {
    pub rd: RouteDistinguisher,
    pub nhop: u32,
}

/// A next hop that is either an IPv4 or an IPv6 address.
#[derive(Clone, Copy, Debug, PartialEq, Eq, Structural)]
pub enum MpNexthop {
    V4(u32),
    V6(u128),
}

impl MpNexthop {
    pub open spec fn nh_len(self) -> u8 {
        match self {
            MpNexthop::V4(_) => 4,
            MpNexthop::V6(_) => 16,
        }
    }

    pub open spec fn enc(self) -> Seq<u8> {
        match self {
            MpNexthop::V4(a) => be_enc(a as nat, 4),
            MpNexthop::V6(a) => be_enc(a as nat, 16),
        }
    }
}

/// The value of an MP_REACH_NLRI attribute, by family.
#[derive(Clone, Debug)]
pub enum MpNlriReachAttr {
    Ipv6 { nhop: u128, nhop_ll: Option<u128>, snpa: u8, updates: Vec<Ipv6Nlri> },
    Vpnv4 { nhop: Vpnv4Nexthop, snpa: u8, updates: Vec<Vpnv4Nlri> },
    Evpn { nhop: MpNexthop, snpa: u8, updates: Vec<EvpnRoute> },
    Rtcv4 { nhop: MpNexthop, snpa: u8, updates: Vec<Rtcv4> },
}

/// The mathematical shape of an MP_REACH_NLRI value.
#[verifier::ext_equal]
pub ghost enum MpReachV {
    Ipv6 { nhop: u128, nhop_ll: Option<u128>, snpa: u8, updates: Seq<Ipv6Nlri> },
    Vpnv4 { nhop: Vpnv4Nexthop, snpa: u8, updates: Seq<Vpnv4Nlri> },
    Evpn { nhop: MpNexthop, snpa: u8, updates: Seq<EvpnRouteV> },
    Rtcv4 { nhop: MpNexthop, snpa: u8, updates: Seq<Rtcv4> },
}

impl View for MpNlriReachAttr {
    type V = MpReachV;

    open spec fn view(&self) -> MpReachV {
        match self {
            MpNlriReachAttr::Ipv6 { nhop, nhop_ll, snpa, updates } => MpReachV::Ipv6 {
                nhop: *nhop,
                nhop_ll: *nhop_ll,
                snpa: *snpa,
                updates: updates@,
            },
            MpNlriReachAttr::Vpnv4 { nhop, snpa, updates } => MpReachV::Vpnv4 {
                nhop: *nhop,
                snpa: *snpa,
                updates: updates@,
            },
            MpNlriReachAttr::Evpn { nhop, snpa, updates } => MpReachV::Evpn {
                nhop: *nhop,
                snpa: *snpa,
                updates: evpn_views(updates@),
            },
            MpNlriReachAttr::Rtcv4 { nhop, snpa, updates } => MpReachV::Rtcv4 {
                nhop: *nhop,
                snpa: *snpa,
                updates: updates@,
            },
        }
    }
}

impl MpReachV {
    /// The family this value belongs to.
    pub open spec fn afi(self) -> Afi {
        match self {
            MpReachV::Ipv6 { .. } => Afi::Ip6,
            MpReachV::Vpnv4 { .. } => Afi::Ip,
            MpReachV::Evpn { .. } => Afi::L2vpn,
            MpReachV::Rtcv4 { .. } => Afi::Ip,
        }
    }

    pub open spec fn safi(self) -> Safi {
        match self {
            MpReachV::Ipv6 { .. } => Safi::Unicast,
            MpReachV::Vpnv4 { .. } => Safi::MplsVpn,
            MpReachV::Evpn { .. } => Safi::Evpn,
            MpReachV::Rtcv4 { .. } => Safi::Rtc,
        }
    }

    /// The Add-Path mode the value's own family sees under a context.
    pub open spec fn ap(self, ctx: Option<ParseOptionV>) -> bool {
        sp_ap_recv(ctx, self.afi(), self.safi())
    }

    /// A canonical value carries the zero SNPA byte the emitter writes, and a
    /// VPNv4 value a zero next-hop route distinguisher.
    pub open spec fn wf(self, ctx: Option<ParseOptionV>) -> bool {
        match self {
            MpReachV::Ipv6 { nhop, nhop_ll, snpa, updates } => snpa == 0 && forall|i: int|
                0 <= i < updates.len() ==> (#[trigger] updates[i]).wf(self.ap(ctx)),
            MpReachV::Vpnv4 { nhop, snpa, updates } => snpa == 0 && nhop.rd == (RouteDistinguisher {
                typ: 0,
                val: 0,
            }) && forall|i: int|
                0 <= i < updates.len() ==> (#[trigger] updates[i]).wf(self.ap(ctx)),
            MpReachV::Evpn { nhop, snpa, updates } => snpa == 0 && forall|i: int|
                0 <= i < updates.len() ==> (#[trigger] updates[i]).wf(self.ap(ctx)),
            MpReachV::Rtcv4 { nhop, snpa, updates } => snpa == 0 && forall|i: int|
                0 <= i < updates.len() ==> (#[trigger] updates[i]).wf(self.ap(ctx)),
        }
    }

    /// The attribute value bytes: AFI, SAFI, next-hop length, next hop, a
    /// zero SNPA byte, then the family's NLRI run. The VPNv4 next hop is
    /// written with a zero route distinguisher.
    pub open spec fn enc(self, ctx: Option<ParseOptionV>) -> Seq<u8> {
        match self {
            MpReachV::Ipv6 { nhop, nhop_ll, snpa, updates } => be_enc(2, 2) + seq![1u8] + (match nhop_ll {
                None => seq![16u8] + be_enc(nhop as nat, 16),
                Some(ll) => seq![32u8] + be_enc(nhop as nat, 16) + be_enc(ll as nat, 16),
            }) + seq![0u8] + enc_list(updates, enc_ipv6_nlri_fn(self.ap(ctx))),
            MpReachV::Vpnv4 { nhop, snpa, updates } => be_enc(1, 2) + seq![128u8, 12u8] + be_enc(
                0,
                8,
            ) + be_enc(nhop.nhop as nat, 4) + seq![0u8] + enc_list(
                updates,
                enc_vpnv4_nlri_fn(self.ap(ctx)),
            ),
            MpReachV::Evpn { nhop, snpa, updates } => be_enc(25, 2) + seq![70u8, nhop.nh_len()]
                + nhop.enc() + seq![0u8] + enc_list(updates, enc_evpn_route_fn(self.ap(ctx))),
            MpReachV::Rtcv4 { nhop, snpa, updates } => be_enc(1, 2) + seq![132u8, nhop.nh_len()]
                + nhop.enc() + seq![0u8] + enc_list(updates, enc_rtcv4_nlri_fn(self.ap(ctx))),
        }
    }
}

/// What an MP_REACH_NLRI attribute value parses to; the run of NLRI entries
/// must cover the payload exactly.
pub open spec fn sp_reach_ipv6(s: Seq<u8>, ap: bool) -> Result<MpReachV, BgpParseError> {
    let nhl = s[3] as int;
    if nhl != 16 && nhl != 32 {
        Err(BgpParseError::BadLength)
    } else if s.len() < 5 + nhl {
        Err(BgpParseError::Truncated { needed: (5 + nhl) as usize })
    } else {
        let nhop = be_val(s.subrange(4, 20)) as u128;
        let nhop_ll: Option<u128> = if nhl == 32 {
            Some(be_val(s.subrange(20, 36)) as u128)
        } else {
            None
        };
        match sp_ipv6_nlri_list(s.skip(5 + nhl), ap) {
            Err(e) => Err(e),
            Ok(updates) => Ok(MpReachV::Ipv6 { nhop, nhop_ll, snpa: s[4 + nhl], updates }),
        }
    }
}

pub open spec fn sp_reach_vpnv4(s: Seq<u8>, ap: bool) -> Result<MpReachV, BgpParseError> {
    let nhl = s[3] as int;
    if nhl != 12 {
        Err(BgpParseError::BadLength)
    } else if s.len() < 17 {
        Err(BgpParseError::Truncated { needed: 17 })
    } else {
        let rd = RouteDistinguisher {
            typ: be_val(s.subrange(4, 6)) as u16,
            val: be_val(s.subrange(6, 12)) as u64,
        };
        let nhop = be_val(s.subrange(12, 16)) as u32;
        match sp_vpnv4_nlri_list(s.skip(17), ap) {
            Err(e) => Err(e),
            Ok(updates) => Ok(
                MpReachV::Vpnv4 { nhop: Vpnv4Nexthop { rd, nhop }, snpa: s[16], updates },
            ),
        }
    }
}

pub open spec fn sp_reach_evpn(s: Seq<u8>, ap: bool) -> Result<MpReachV, BgpParseError> {
    let nhl = s[3] as int;
    if nhl != 4 && nhl != 16 {
        Err(BgpParseError::BadLength)
    } else if s.len() < 5 + nhl {
        Err(BgpParseError::Truncated { needed: (5 + nhl) as usize })
    } else {
        let nhop: MpNexthop = if nhl == 4 {
            MpNexthop::V4(be_val(s.subrange(4, 8)) as u32)
        } else {
            MpNexthop::V6(be_val(s.subrange(4, 20)) as u128)
        };
        match sp_evpn_route_list(s.skip(5 + nhl), ap) {
            Err(e) => Err(e),
            Ok(updates) => Ok(MpReachV::Evpn { nhop, snpa: s[4 + nhl], updates }),
        }
    }
}

pub open spec fn sp_reach_rtcv4(s: Seq<u8>, ap: bool) -> Result<MpReachV, BgpParseError> {
    let nhl = s[3] as int;
    if nhl != 4 && nhl != 16 {
        Err(BgpParseError::BadLength)
    } else if s.len() < 5 + nhl {
        Err(BgpParseError::Truncated { needed: (5 + nhl) as usize })
    } else {
        let nhop: MpNexthop = if nhl == 4 {
            MpNexthop::V4(be_val(s.subrange(4, 8)) as u32)
        } else {
            MpNexthop::V6(be_val(s.subrange(4, 20)) as u128)
        };
        match sp_rtcv4_nlri_list(s.skip(5 + nhl), ap) {
            Err(e) => Err(e),
            Ok(updates) => Ok(MpReachV::Rtcv4 { nhop, snpa: s[4 + nhl], updates }),
        }
    }
}

/// What an MP_REACH_NLRI attribute value parses to; the run of NLRI entries
/// must cover the payload exactly.
pub open spec fn sp_mp_reach(s: Seq<u8>, ctx: Option<ParseOptionV>) -> Result<
    MpReachV,
    BgpParseError,
> {
    if s.len() < 4 {
        Err(BgpParseError::Truncated { needed: 4 })
    } else {
        let afi = Afi::of_code_spec(be_val(s.subrange(0, 2)) as u16);
        let safi = Safi::of_code_spec(s[2]);
        let ap = sp_ap_recv(ctx, afi, safi);
        if afi == Afi::Ip6 && safi == Safi::Unicast {
            sp_reach_ipv6(s, ap)
        } else if afi == Afi::Ip && safi == Safi::MplsVpn {
            sp_reach_vpnv4(s, ap)
        } else if afi == Afi::L2vpn && safi == Safi::Evpn {
            sp_reach_evpn(s, ap)
        } else if afi == Afi::Ip && safi == Safi::Rtc {
            sp_reach_rtcv4(s, ap)
        } else {
            Err(
                BgpParseError::UnsupportedFamily {
                    afi: be_val(s.subrange(0, 2)) as u16,
                    safi: s[2],
                },
            )
        }
    }
}


/// Reads the IPv6-unicast MP_REACH body (after the family header is known).
#[verifier::rlimit(90)]
fn parse_reach_ipv6(input: &[u8], pos: usize, end: usize, ap: bool) -> (r: Result<
    MpNlriReachAttr,
    BgpParseError,
>)
    requires
        pos <= end <= input.len(),
        end - pos >= 4,
    ensures
        match r {
            Ok(v) => sp_reach_ipv6(input@.subrange(pos as int, end as int), ap) == Ok::<
                _,
                BgpParseError,
            >(v@),
            Err(e) => sp_reach_ipv6(input@.subrange(pos as int, end as int), ap) == Err::<
                MpReachV,
                _,
            >(e),
        },
{
    let ghost s = input@.subrange(pos as int, end as int);
    proof {
        assert(s[3] == input@[pos + 3]);
    }
    let nhl = input[pos + 3] as usize;
    if nhl != 16 && nhl != 32 {
        return Err(BgpParseError::BadLength);
    }
    if end - pos < 5 + nhl {
        return Err(BgpParseError::Truncated { needed: 5 + nhl });
    }
    proof {
        assert(s.subrange(4, 20) =~= input@.subrange(pos + 4, pos + 20));
        assert(s[4 + nhl] == input@[pos + 4 + nhl]);
        assert(s.skip(5 + nhl) =~= input@.subrange(pos + 5 + nhl, end as int));
    }
    let nhop = read_be(input, pos + 4, 16);
    let nhop_ll: Option<u128> = if nhl == 32 {
        proof {
            assert(s.subrange(20, 36) =~= input@.subrange(pos + 20, pos + 36));
        }
        Some(read_be(input, pos + 20, 16))
    } else {
        None
    };
    let snpa = input[pos + 4 + nhl];
    match parse_ipv6_nlri_list(input, pos + 5 + nhl, end, ap) {
        Err(e) => Err(e),
        Ok(updates) => Ok(MpNlriReachAttr::Ipv6 { nhop, nhop_ll, snpa, updates }),
    }
}

/// Reads the VPNv4 MP_REACH body (after the family header is known).
#[verifier::rlimit(90)]
fn parse_reach_vpnv4(input: &[u8], pos: usize, end: usize, ap: bool) -> (r: Result<
    MpNlriReachAttr,
    BgpParseError,
>)
    requires
        pos <= end <= input.len(),
        end - pos >= 4,
    ensures
        match r {
            Ok(v) => sp_reach_vpnv4(input@.subrange(pos as int, end as int), ap) == Ok::<
                _,
                BgpParseError,
            >(v@),
            Err(e) => sp_reach_vpnv4(input@.subrange(pos as int, end as int), ap) == Err::<
                MpReachV,
                _,
            >(e),
        },
{
    let ghost s = input@.subrange(pos as int, end as int);
    proof {
        assert(s[3] == input@[pos + 3]);
    }
    let nhl = input[pos + 3] as usize;
    if nhl != 12 {
        return Err(BgpParseError::BadLength);
    }
    if end - pos < 17 {
        return Err(BgpParseError::Truncated { needed: 17 });
    }
    proof {
        assert(s.subrange(4, 6) =~= input@.subrange(pos + 4, pos + 6));
        assert(s.subrange(6, 12) =~= input@.subrange(pos + 6, pos + 12));
        assert(s.subrange(12, 16) =~= input@.subrange(pos + 12, pos + 16));
        assert(s[16] == input@[pos + 16]);
        assert(s.skip(17) =~= input@.subrange(pos + 17, end as int));
        lemma_be_val_bound(input@.subrange(pos + 4, pos + 6));
        lemma_be_val_bound(input@.subrange(pos + 6, pos + 12));
        lemma_be_val_bound(input@.subrange(pos + 12, pos + 16));
        lemma_pow256_consts();
    }
    let rd = RouteDistinguisher {
        typ: read_be(input, pos + 4, 2) as u16,
        val: read_be(input, pos + 6, 6) as u64,
    };
    let nhop = read_be(input, pos + 12, 4) as u32;
    let snpa = input[pos + 16];
    match parse_vpnv4_nlri_list(input, pos + 17, end, ap) {
        Err(e) => Err(e),
        Ok(updates) => Ok(
            MpNlriReachAttr::Vpnv4 { nhop: Vpnv4Nexthop { rd, nhop }, snpa, updates },
        ),
    }
}

/// Reads the EVPN MP_REACH body (after the family header is known).
#[verifier::rlimit(90)]
fn parse_reach_evpn(input: &[u8], pos: usize, end: usize, ap: bool) -> (r: Result<
    MpNlriReachAttr,
    BgpParseError,
>)
    requires
        pos <= end <= input.len(),
        end - pos >= 4,
    ensures
        match r {
            Ok(v) => sp_reach_evpn(input@.subrange(pos as int, end as int), ap) == Ok::<
                _,
                BgpParseError,
            >(v@),
            Err(e) => sp_reach_evpn(input@.subrange(pos as int, end as int), ap) == Err::<
                MpReachV,
                _,
            >(e),
        },
{
    let ghost s = input@.subrange(pos as int, end as int);
    proof {
        assert(s[3] == input@[pos + 3]);
    }
    let nhl = input[pos + 3] as usize;
    if nhl != 4 && nhl != 16 {
        return Err(BgpParseError::BadLength);
    }
    if end - pos < 5 + nhl {
        return Err(BgpParseError::Truncated { needed: 5 + nhl });
    }
    let nhop: MpNexthop = if nhl == 4 {
        proof {
            assert(s.subrange(4, 8) =~= input@.subrange(pos + 4, pos + 8));
            lemma_be_val_bound(input@.subrange(pos + 4, pos + 8));
            lemma_pow256_consts();
        }
        MpNexthop::V4(read_be(input, pos + 4, 4) as u32)
    } else {
        proof {
            assert(s.subrange(4, 20) =~= input@.subrange(pos + 4, pos + 20));
        }
        MpNexthop::V6(read_be(input, pos + 4, 16))
    };
    let snpa = input[pos + 4 + nhl];
    proof {
        assert(s[4 + nhl] == input@[pos + 4 + nhl]);
        assert(s.skip(5 + nhl) =~= input@.subrange(pos + 5 + nhl, end as int));
    }
    match parse_evpn_route_list(input, pos + 5 + nhl, end, ap) {
        Err(e) => Err(e),
        Ok(updates) => Ok(MpNlriReachAttr::Evpn { nhop, snpa, updates }),
    }
}

/// Reads the route-target-constraint MP_REACH body (after the family header
/// is known).
#[verifier::rlimit(90)]
fn parse_reach_rtcv4(input: &[u8], pos: usize, end: usize, ap: bool) -> (r: Result<
    MpNlriReachAttr,
    BgpParseError,
>)
    requires
        pos <= end <= input.len(),
        end - pos >= 4,
    ensures
        match r {
            Ok(v) => sp_reach_rtcv4(input@.subrange(pos as int, end as int), ap) == Ok::<
                _,
                BgpParseError,
            >(v@),
            Err(e) => sp_reach_rtcv4(input@.subrange(pos as int, end as int), ap) == Err::<
                MpReachV,
                _,
            >(e),
        },
{
    let ghost s = input@.subrange(pos as int, end as int);
    proof {
        assert(s[3] == input@[pos + 3]);
    }
    let nhl = input[pos + 3] as usize;
    if nhl != 4 && nhl != 16 {
        return Err(BgpParseError::BadLength);
    }
    if end - pos < 5 + nhl {
        return Err(BgpParseError::Truncated { needed: 5 + nhl });
    }
    let nhop: MpNexthop = if nhl == 4 {
        proof {
            assert(s.subrange(4, 8) =~= input@.subrange(pos + 4, pos + 8));
            lemma_be_val_bound(input@.subrange(pos + 4, pos + 8));
            lemma_pow256_consts();
        }
        MpNexthop::V4(read_be(input, pos + 4, 4) as u32)
    } else {
        proof {
            assert(s.subrange(4, 20) =~= input@.subrange(pos + 4, pos + 20));
        }
        MpNexthop::V6(read_be(input, pos + 4, 16))
    };
    let snpa = input[pos + 4 + nhl];
    proof {
        assert(s[4 + nhl] == input@[pos + 4 + nhl]);
        assert(s.skip(5 + nhl) =~= input@.subrange(pos + 5 + nhl, end as int));
    }
    match parse_rtcv4_nlri_list(input, pos + 5 + nhl, end, ap) {
        Err(e) => Err(e),
        Ok(updates) => Ok(MpNlriReachAttr::Rtcv4 { nhop, snpa, updates }),
    }
}

impl MpNlriReachAttr {
    /// Reads one MP_REACH_NLRI attribute value covering `pos..end`, under the
    /// negotiated modes in `opt`.
    pub fn parse_nlri_opt(input: &[u8], pos: usize, end: usize, opt: Option<&ParseOption>) -> (r:
        Result<MpNlriReachAttr, BgpParseError>)
        requires
            pos <= end <= input.len(),
        ensures
            match r {
                Ok(v) => sp_mp_reach(input@.subrange(pos as int, end as int), opt_view(opt))
                    == Ok::<_, BgpParseError>(v@),
                Err(e) => sp_mp_reach(input@.subrange(pos as int, end as int), opt_view(opt))
                    == Err::<MpReachV, _>(e),
            },
    {
        let ghost s = input@.subrange(pos as int, end as int);
        if end - pos < 4 {
            return Err(BgpParseError::Truncated { needed: 4 });
        }
        proof {
            assert(s.subrange(0, 2) =~= input@.subrange(pos as int, pos + 2));
            lemma_be_val_bound(input@.subrange(pos as int, pos + 2));
            lemma_pow256_consts();
            assert(s[2] == input@[pos + 2]);
        }
        let afi_code = read_be(input, pos, 2) as u16;
        let afi = Afi::of_code(afi_code);
        let safi = Safi::of_code(input[pos + 2]);
        let ap = opt_add_path_recv(opt, afi, safi);
        if afi == Afi::Ip6 && safi == Safi::Unicast {
            parse_reach_ipv6(input, pos, end, ap)
        } else if afi == Afi::Ip && safi == Safi::MplsVpn {
            parse_reach_vpnv4(input, pos, end, ap)
        } else if afi == Afi::L2vpn && safi == Safi::Evpn {
            parse_reach_evpn(input, pos, end, ap)
        } else if afi == Afi::Ip && safi == Safi::Rtc {
            parse_reach_rtcv4(input, pos, end, ap)
        } else {
            Err(BgpParseError::UnsupportedFamily { afi: afi_code, safi: input[pos + 2] })
        }
    }

    /// Appends the attribute value bytes.
    #[verifier::rlimit(90)]
    pub fn emit_value(&self, out: &mut Vec<u8>, opt: Option<&ParseOption>)
        requires
            self@.wf(opt_view(opt)),
        ensures
            final(out)@ == old(out)@ + self@.enc(opt_view(opt)),
    {
        proof {
            lemma_pow256_consts();
        }
        match self {
            MpNlriReachAttr::Ipv6 { nhop, nhop_ll, snpa, updates } => {
                let ap = opt_add_path_recv(opt, Afi::Ip6, Safi::Unicast);
                proof {
                    assert(self@.ap(opt_view(opt)) == ap);
                    assert(self@ == (MpReachV::Ipv6 {
                        nhop: *nhop,
                        nhop_ll: *nhop_ll,
                        snpa: *snpa,
                        updates: updates@,
                    }));
                    assert(self@ is Ipv6);
                    assert forall|i: int| 0 <= i < updates@.len() implies (#[trigger] updates@[i]).wf(ap) by {
                        assert(self@.wf(opt_view(opt)));
                        assert(self@->Ipv6_updates == updates@);
                    }
                }
                write_be(out, 2, 2);
                out.push(1);
                match nhop_ll {
                    None => {
                        out.push(16);
                        write_be(out, *nhop, 16);
                    },
                    Some(ll) => {
                        out.push(32);
                        write_be(out, *nhop, 16);
                        write_be(out, *ll, 16);
                    },
                }
                out.push(0);
                emit_ipv6_nlri_list(out, updates, ap);
                proof {
                    assert(final(out)@ =~= old(out)@ + self@.enc(opt_view(opt)));
                }
            },
            MpNlriReachAttr::Vpnv4 { nhop, snpa, updates } => {
                let ap = opt_add_path_recv(opt, Afi::Ip, Safi::MplsVpn);
                proof {
                    assert(self@.ap(opt_view(opt)) == ap);
                    assert(self@ == (MpReachV::Vpnv4 { nhop: *nhop, snpa: *snpa, updates: updates@ }));
                    assert forall|i: int| 0 <= i < updates@.len() implies (#[trigger] updates@[i]).wf(ap) by {
                        assert(self@.wf(opt_view(opt)));
                        assert(self@->Vpnv4_updates == updates@);
                    }
                }
                write_be(out, 1, 2);
                out.push(128);
                out.push(12);
                write_be(out, 0, 8);
                write_be(out, nhop.nhop as u128, 4);
                out.push(0);
                emit_vpnv4_nlri_list(out, updates, ap);
                proof {
                    assert(final(out)@ =~= old(out)@ + self@.enc(opt_view(opt)));
                }
            },
            MpNlriReachAttr::Evpn { nhop, snpa, updates } => {
                let ap = opt_add_path_recv(opt, Afi::L2vpn, Safi::Evpn);
                proof {
                    assert(self@.ap(opt_view(opt)) == ap);
                    assert(self@ == (MpReachV::Evpn {
                        nhop: *nhop,
                        snpa: *snpa,
                        updates: evpn_views(updates@),
                    }));
                    assert forall|i: int| 0 <= i < evpn_views(updates@).len() implies (
                    #[trigger] evpn_views(updates@)[i]).wf(ap) by {
                        assert(self@.wf(opt_view(opt)));
                        assert(self@->Evpn_updates == evpn_views(updates@));
                    }
                    assert forall|i: int| 0 <= i < updates@.len() implies (#[trigger] updates@[i]@).wf(ap) by {
                        assert(evpn_views(updates@)[i] == updates@[i]@);
                        assert(evpn_views(updates@)[i].wf(ap));
                    }
                }
                write_be(out, 25, 2);
                out.push(70);
                match nhop {
                    MpNexthop::V4(a) => {
                        out.push(4);
                        write_be(out, *a as u128, 4);
                    },
                    MpNexthop::V6(a) => {
                        out.push(16);
                        write_be(out, *a, 16);
                    },
                }
                out.push(0);
                emit_evpn_route_list(out, updates, ap);
                proof {
                    assert(final(out)@ =~= old(out)@ + self@.enc(opt_view(opt)));
                }
            },
            MpNlriReachAttr::Rtcv4 { nhop, snpa, updates } => {
                let ap = opt_add_path_recv(opt, Afi::Ip, Safi::Rtc);
                proof {
                    assert(self@.ap(opt_view(opt)) == ap);
                    assert(self@ == (MpReachV::Rtcv4 { nhop: *nhop, snpa: *snpa, updates: updates@ }));
                    assert forall|i: int| 0 <= i < updates@.len() implies (#[trigger] updates@[i]).wf(ap) by {
                        assert(self@.wf(opt_view(opt)));
                        assert(self@->Rtcv4_updates == updates@);
                    }
                }
                write_be(out, 1, 2);
                out.push(132);
                match nhop {
                    MpNexthop::V4(a) => {
                        out.push(4);
                        write_be(out, *a as u128, 4);
                    },
                    MpNexthop::V6(a) => {
                        out.push(16);
                        write_be(out, *a, 16);
                    },
                }
                out.push(0);
                emit_rtcv4_nlri_list(out, updates, ap);
                proof {
                    assert(final(out)@ =~= old(out)@ + self@.enc(opt_view(opt)));
                }
            },
        }
    }
}


/// The value of an MP_UNREACH_NLRI attribute, by family; an `Eor` variant is
/// a body holding nothing after the family header, the End-of-RIB marker.
#[derive(Clone, Debug)]
pub enum MpNlriUnreachAttr {
    Ipv4Eor,
    Ipv6(Vec<Ipv6Nlri>),
    Ipv6Eor,
    Vpnv4(Vec<Vpnv4Nlri>),
    Vpnv4Eor,
    Evpn(Vec<EvpnRoute>),
    EvpnEor,
    Rtcv4(Vec<Rtcv4>),
    Rtcv4Eor,
}

/// The mathematical shape of an MP_UNREACH_NLRI value.
#[verifier::ext_equal]
pub ghost enum MpUnreachV {
    Ipv4Eor,
    Ipv6(Seq<Ipv6Nlri>),
    Ipv6Eor,
    Vpnv4(Seq<Vpnv4Nlri>),
    Vpnv4Eor,
    Evpn(Seq<EvpnRouteV>),
    EvpnEor,
    Rtcv4(Seq<Rtcv4>),
    Rtcv4Eor,
}

impl View for MpNlriUnreachAttr {
    type V = MpUnreachV;

    open spec fn view(&self) -> MpUnreachV {
        match self {
            MpNlriUnreachAttr::Ipv4Eor => MpUnreachV::Ipv4Eor,
            MpNlriUnreachAttr::Ipv6(w) => MpUnreachV::Ipv6(w@),
            MpNlriUnreachAttr::Ipv6Eor => MpUnreachV::Ipv6Eor,
            MpNlriUnreachAttr::Vpnv4(w) => MpUnreachV::Vpnv4(w@),
            MpNlriUnreachAttr::Vpnv4Eor => MpUnreachV::Vpnv4Eor,
            MpNlriUnreachAttr::Evpn(w) => MpUnreachV::Evpn(evpn_views(w@)),
            MpNlriUnreachAttr::EvpnEor => MpUnreachV::EvpnEor,
            MpNlriUnreachAttr::Rtcv4(w) => MpUnreachV::Rtcv4(w@),
            MpNlriUnreachAttr::Rtcv4Eor => MpUnreachV::Rtcv4Eor,
        }
    }
}

impl MpUnreachV {
    pub open spec fn afi(self) -> Afi {
        match self {
            MpUnreachV::Ipv4Eor => Afi::Ip,
            MpUnreachV::Ipv6(_) | MpUnreachV::Ipv6Eor => Afi::Ip6,
            MpUnreachV::Vpnv4(_) | MpUnreachV::Vpnv4Eor => Afi::Ip,
            MpUnreachV::Evpn(_) | MpUnreachV::EvpnEor => Afi::L2vpn,
            MpUnreachV::Rtcv4(_) | MpUnreachV::Rtcv4Eor => Afi::Ip,
        }
    }

    pub open spec fn safi(self) -> Safi {
        match self {
            MpUnreachV::Ipv4Eor => Safi::Unicast,
            MpUnreachV::Ipv6(_) | MpUnreachV::Ipv6Eor => Safi::Unicast,
            MpUnreachV::Vpnv4(_) | MpUnreachV::Vpnv4Eor => Safi::MplsVpn,
            MpUnreachV::Evpn(_) | MpUnreachV::EvpnEor => Safi::Evpn,
            MpUnreachV::Rtcv4(_) | MpUnreachV::Rtcv4Eor => Safi::Rtc,
        }
    }

    pub open spec fn ap(self, ctx: Option<ParseOptionV>) -> bool {
        sp_ap_recv(ctx, self.afi(), self.safi())
    }

    /// A withdrawal list may not be empty: an empty body is the `Eor` form.
    pub open spec fn wf(self, ctx: Option<ParseOptionV>) -> bool {
        match self {
            MpUnreachV::Ipv6(w) => w.len() > 0 && forall|i: int|
                0 <= i < w.len() ==> (#[trigger] w[i]).wf(self.ap(ctx)),
            MpUnreachV::Vpnv4(w) => w.len() > 0 && forall|i: int|
                0 <= i < w.len() ==> (#[trigger] w[i]).wf(self.ap(ctx)),
            MpUnreachV::Evpn(w) => w.len() > 0 && forall|i: int|
                0 <= i < w.len() ==> (#[trigger] w[i]).wf(self.ap(ctx)),
            MpUnreachV::Rtcv4(w) => w.len() > 0 && forall|i: int|
                0 <= i < w.len() ==> (#[trigger] w[i]).wf(self.ap(ctx)),
            _ => true,
        }
    }

    /// The attribute value bytes: AFI, SAFI, then the withdrawn run (empty
    /// for End-of-RIB).
    pub open spec fn enc(self, ctx: Option<ParseOptionV>) -> Seq<u8> {
        be_enc(self.afi().code_spec() as nat, 2) + seq![self.safi().code_spec()] + (match self {
            MpUnreachV::Ipv6(w) => enc_list(w, enc_ipv6_nlri_fn(self.ap(ctx))),
            MpUnreachV::Vpnv4(w) => enc_list(w, enc_vpnv4_nlri_fn(self.ap(ctx))),
            MpUnreachV::Evpn(w) => enc_list(w, enc_evpn_route_fn(self.ap(ctx))),
            MpUnreachV::Rtcv4(w) => enc_list(w, enc_rtcv4_nlri_fn(self.ap(ctx))),
            _ => Seq::empty(),
        })
    }
}

/// What an MP_UNREACH_NLRI attribute value parses to: an empty body after the
/// family header is End-of-RIB for that family.
pub open spec fn sp_mp_unreach(s: Seq<u8>, ctx: Option<ParseOptionV>) -> Result<
    MpUnreachV,
    BgpParseError,
> {
    if s.len() < 3 {
        Err(BgpParseError::Truncated { needed: 3 })
    } else {
        let afi = Afi::of_code_spec(be_val(s.subrange(0, 2)) as u16);
        let safi = Safi::of_code_spec(s[2]);
        let ap = sp_ap_recv(ctx, afi, safi);
        let rest = s.skip(3);
        if afi == Afi::Ip && safi == Safi::Unicast {
            if rest.len() == 0 {
                Ok(MpUnreachV::Ipv4Eor)
            } else {
                Err(
                    BgpParseError::UnsupportedFamily {
                        afi: be_val(s.subrange(0, 2)) as u16,
                        safi: s[2],
                    },
                )
            }
        } else if afi == Afi::Ip6 && safi == Safi::Unicast {
            if rest.len() == 0 {
                Ok(MpUnreachV::Ipv6Eor)
            } else {
                match sp_ipv6_nlri_list(rest, ap) {
                    Err(e) => Err(e),
                    Ok(w) => Ok(MpUnreachV::Ipv6(w)),
                }
            }
        } else if afi == Afi::Ip && safi == Safi::MplsVpn {
            if rest.len() == 0 {
                Ok(MpUnreachV::Vpnv4Eor)
            } else {
                match sp_vpnv4_nlri_list(rest, ap) {
                    Err(e) => Err(e),
                    Ok(w) => Ok(MpUnreachV::Vpnv4(w)),
                }
            }
        } else if afi == Afi::L2vpn && safi == Safi::Evpn {
            if rest.len() == 0 {
                Ok(MpUnreachV::EvpnEor)
            } else {
                match sp_evpn_route_list(rest, ap) {
                    Err(e) => Err(e),
                    Ok(w) => Ok(MpUnreachV::Evpn(w)),
                }
            }
        } else if afi == Afi::Ip && safi == Safi::Rtc {
            if rest.len() == 0 {
                Ok(MpUnreachV::Rtcv4Eor)
            } else {
                match sp_rtcv4_nlri_list(rest, ap) {
                    Err(e) => Err(e),
                    Ok(w) => Ok(MpUnreachV::Rtcv4(w)),
                }
            }
        } else {
            Err(
                BgpParseError::UnsupportedFamily {
                    afi: be_val(s.subrange(0, 2)) as u16,
                    safi: s[2],
                },
            )
        }
    }
}

impl MpNlriUnreachAttr {
    /// Reads one MP_UNREACH_NLRI attribute value covering `pos..end`, under
    /// the negotiated modes in `opt`.
    #[verifier::rlimit(90)]
    pub fn parse_nlri_opt(input: &[u8], pos: usize, end: usize, opt: Option<&ParseOption>) -> (r:
        Result<MpNlriUnreachAttr, BgpParseError>)
        requires
            pos <= end <= input.len(),
        ensures
            match r {
                Ok(v) => sp_mp_unreach(input@.subrange(pos as int, end as int), opt_view(opt))
                    == Ok::<_, BgpParseError>(v@),
                Err(e) => sp_mp_unreach(input@.subrange(pos as int, end as int), opt_view(opt))
                    == Err::<MpUnreachV, _>(e),
            },
    {
        let ghost s = input@.subrange(pos as int, end as int);
        if end - pos < 3 {
            return Err(BgpParseError::Truncated { needed: 3 });
        }
        proof {
            assert(s.subrange(0, 2) =~= input@.subrange(pos as int, pos + 2));
            lemma_be_val_bound(input@.subrange(pos as int, pos + 2));
            lemma_pow256_consts();
            assert(s[2] == input@[pos + 2]);
            assert(s.skip(3) =~= input@.subrange(pos + 3, end as int));
        }
        let afi_code = read_be(input, pos, 2) as u16;
        let afi = Afi::of_code(afi_code);
        let safi = Safi::of_code(input[pos + 2]);
        let ap = opt_add_path_recv(opt, afi, safi);
        let empty = end - pos == 3;
        if afi == Afi::Ip && safi == Safi::Unicast {
            if empty {
                Ok(MpNlriUnreachAttr::Ipv4Eor)
            } else {
                Err(BgpParseError::UnsupportedFamily { afi: afi_code, safi: input[pos + 2] })
            }
        } else if afi == Afi::Ip6 && safi == Safi::Unicast {
            if empty {
                Ok(MpNlriUnreachAttr::Ipv6Eor)
            } else {
                match parse_ipv6_nlri_list(input, pos + 3, end, ap) {
                    Err(e) => Err(e),
                    Ok(w) => Ok(MpNlriUnreachAttr::Ipv6(w)),
                }
            }
        } else if afi == Afi::Ip && safi == Safi::MplsVpn {
            if empty {
                Ok(MpNlriUnreachAttr::Vpnv4Eor)
            } else {
                match parse_vpnv4_nlri_list(input, pos + 3, end, ap) {
                    Err(e) => Err(e),
                    Ok(w) => Ok(MpNlriUnreachAttr::Vpnv4(w)),
                }
            }
        } else if afi == Afi::L2vpn && safi == Safi::Evpn {
            if empty {
                Ok(MpNlriUnreachAttr::EvpnEor)
            } else {
                match parse_evpn_route_list(input, pos + 3, end, ap) {
                    Err(e) => Err(e),
                    Ok(w) => Ok(MpNlriUnreachAttr::Evpn(w)),
                }
            }
        } else if afi == Afi::Ip && safi == Safi::Rtc {
            if empty {
                Ok(MpNlriUnreachAttr::Rtcv4Eor)
            } else {
                match parse_rtcv4_nlri_list(input, pos + 3, end, ap) {
                    Err(e) => Err(e),
                    Ok(w) => Ok(MpNlriUnreachAttr::Rtcv4(w)),
                }
            }
        } else {
            Err(BgpParseError::UnsupportedFamily { afi: afi_code, safi: input[pos + 2] })
        }
    }

    /// Appends the attribute value bytes; End-of-RIB is the bare family header.
    #[verifier::rlimit(90)]
    pub fn emit_value(&self, out: &mut Vec<u8>, opt: Option<&ParseOption>)
        requires
            self@.wf(opt_view(opt)),
        ensures
            final(out)@ == old(out)@ + self@.enc(opt_view(opt)),
    {
        proof {
            lemma_pow256_consts();
        }
        match self {
            MpNlriUnreachAttr::Ipv4Eor => {
                write_be(out, 1, 2);
                out.push(1);
                proof {
                    assert(final(out)@ =~= old(out)@ + self@.enc(opt_view(opt)));
                }
            },
            MpNlriUnreachAttr::Ipv6(w) => {
                let ap = opt_add_path_recv(opt, Afi::Ip6, Safi::Unicast);
                proof {
                    assert(self@ == MpUnreachV::Ipv6(w@));
                    assert(self@.ap(opt_view(opt)) == ap);
                    assert forall|i: int| 0 <= i < w@.len() implies (#[trigger] w@[i]).wf(ap) by {
                        assert(self@.wf(opt_view(opt)));
                        assert(self@->Ipv6_0 == w@);
                    }
                }
                write_be(out, 2, 2);
                out.push(1);
                emit_ipv6_nlri_list(out, w, ap);
                proof {
                    assert(final(out)@ =~= old(out)@ + self@.enc(opt_view(opt)));
                }
            },
            MpNlriUnreachAttr::Ipv6Eor => {
                write_be(out, 2, 2);
                out.push(1);
                proof {
                    assert(final(out)@ =~= old(out)@ + self@.enc(opt_view(opt)));
                }
            },
            MpNlriUnreachAttr::Vpnv4(w) => {
                let ap = opt_add_path_recv(opt, Afi::Ip, Safi::MplsVpn);
                proof {
                    assert(self@ == MpUnreachV::Vpnv4(w@));
                    assert(self@.ap(opt_view(opt)) == ap);
                    assert forall|i: int| 0 <= i < w@.len() implies (#[trigger] w@[i]).wf(ap) by {
                        assert(self@.wf(opt_view(opt)));
                        assert(self@->Vpnv4_0 == w@);
                    }
                }
                write_be(out, 1, 2);
                out.push(128);
                emit_vpnv4_nlri_list(out, w, ap);
                proof {
                    assert(final(out)@ =~= old(out)@ + self@.enc(opt_view(opt)));
                }
            },
            MpNlriUnreachAttr::Vpnv4Eor => {
                write_be(out, 1, 2);
                out.push(128);
                proof {
                    assert(final(out)@ =~= old(out)@ + self@.enc(opt_view(opt)));
                }
            },
            MpNlriUnreachAttr::Evpn(w) => {
                let ap = opt_add_path_recv(opt, Afi::L2vpn, Safi::Evpn);
                proof {
                    assert(self@ == MpUnreachV::Evpn(evpn_views(w@)));
                    assert(self@.ap(opt_view(opt)) == ap);
                    assert forall|i: int| 0 <= i < w@.len() implies (#[trigger] w@[i]@).wf(ap) by {
                        assert(self@.wf(opt_view(opt)));
                        assert(self@->Evpn_0 == evpn_views(w@));
                        assert(evpn_views(w@)[i] == w@[i]@);
                        assert(evpn_views(w@)[i].wf(ap));
                    }
                }
                write_be(out, 25, 2);
                out.push(70);
                emit_evpn_route_list(out, w, ap);
                proof {
                    assert(final(out)@ =~= old(out)@ + self@.enc(opt_view(opt)));
                }
            },
            MpNlriUnreachAttr::EvpnEor => {
                write_be(out, 25, 2);
                out.push(70);
                proof {
                    assert(final(out)@ =~= old(out)@ + self@.enc(opt_view(opt)));
                }
            },
            MpNlriUnreachAttr::Rtcv4(w) => {
                let ap = opt_add_path_recv(opt, Afi::Ip, Safi::Rtc);
                proof {
                    assert(self@ == MpUnreachV::Rtcv4(w@));
                    assert(self@.ap(opt_view(opt)) == ap);
                    assert forall|i: int| 0 <= i < w@.len() implies (#[trigger] w@[i]).wf(ap) by {
                        assert(self@.wf(opt_view(opt)));
                        assert(self@->Rtcv4_0 == w@);
                    }
                }
                write_be(out, 1, 2);
                out.push(132);
                emit_rtcv4_nlri_list(out, w, ap);
                proof {
                    assert(final(out)@ =~= old(out)@ + self@.enc(opt_view(opt)));
                }
            },
            MpNlriUnreachAttr::Rtcv4Eor => {
                write_be(out, 1, 2);
                out.push(132);
                proof {
                    assert(final(out)@ =~= old(out)@ + self@.enc(opt_view(opt)));
                }
            },
        }
    }
}


/// Emitting a well-formed MP_REACH_NLRI value and parsing it back under the
/// same context returns the value; next-hop lengths 12 (VPNv4), 16 (IPv6
/// global only) and 32 (IPv6 global and link-local) all round-trip.
#[verifier::rlimit(90)]
pub proof fn lemma_mp_reach_round_trip(v: MpReachV, ctx: Option<ParseOptionV>)
    requires
        v.wf(ctx),
    ensures
        sp_mp_reach(v.enc(ctx), ctx) == Ok::<_, BgpParseError>(v),
{
    let e = v.enc(ctx);
    let ap = v.ap(ctx);
    lemma_pow256_consts();
    match v {
        MpReachV::Ipv6 { nhop, nhop_ll, snpa, updates } => {
            lemma_be_enc_len(2, 2);
            lemma_be_enc_len(nhop as nat, 16);
            lemma_be_val_enc(2, 2);
            lemma_be_val_enc(nhop as nat, 16);
            assert(e.subrange(0, 2) =~= be_enc(2, 2));
            match nhop_ll {
                None => {
                    assert(e[2] == 1 && e[3] == 16);
                    assert(e.subrange(4, 20) =~= be_enc(nhop as nat, 16));
                    assert(e[20] == 0 && snpa == 0);
                    assert(e.skip(21) =~= enc_list(updates, enc_ipv6_nlri_fn(ap)));
                    crate::nlri::lemma_ipv6_nlri_list_round_trip(updates, ap);
                },
                Some(ll) => {
                    lemma_be_enc_len(ll as nat, 16);
                    lemma_be_val_enc(ll as nat, 16);
                    assert(e[2] == 1 && e[3] == 32);
                    assert(e.subrange(4, 20) =~= be_enc(nhop as nat, 16));
                    assert(e.subrange(20, 36) =~= be_enc(ll as nat, 16));
                    assert(e[36] == 0 && snpa == 0);
                    assert(e.skip(37) =~= enc_list(updates, enc_ipv6_nlri_fn(ap)));
                    crate::nlri::lemma_ipv6_nlri_list_round_trip(updates, ap);
                },
            }
            assert(sp_mp_reach(e, ctx) == Ok::<_, BgpParseError>(v));
        },
        MpReachV::Vpnv4 { nhop, snpa, updates } => {
            lemma_be_enc_len(1, 2);
            lemma_be_enc_len(0, 8);
            lemma_be_enc_len(0, 2);
            lemma_be_enc_len(0, 6);
            lemma_be_enc_len(nhop.nhop as nat, 4);
            lemma_be_val_enc(1, 2);
            lemma_be_val_enc(0, 2);
            lemma_be_val_enc(0, 6);
            lemma_be_val_enc(nhop.nhop as nat, 4);
            crate::wire::lemma_be_enc_split(0, 8, 6);
            crate::wire::lemma_pow256_pos(6);
            assert((0 as nat) / crate::wire::pow256(6) == 0 && (0 as nat) % crate::wire::pow256(6)
                == 0) by (nonlinear_arith)
                requires
                    crate::wire::pow256(6) >= 1,
            ;
            assert(e.subrange(0, 2) =~= be_enc(1, 2));
            assert(e[2] == 128 && e[3] == 12);
            assert(e.subrange(4, 6) =~= be_enc(0, 2));
            assert(e.subrange(6, 12) =~= be_enc(0, 6));
            assert(e.subrange(12, 16) =~= be_enc(nhop.nhop as nat, 4));
            assert(e[16] == 0 && snpa == 0);
            assert(e.skip(17) =~= enc_list(updates, enc_vpnv4_nlri_fn(ap)));
            crate::nlri::lemma_vpnv4_nlri_list_round_trip(updates, ap);
            assert(sp_mp_reach(e, ctx) == Ok::<_, BgpParseError>(v));
        },
        MpReachV::Evpn { nhop, snpa, updates } => {
            lemma_be_enc_len(25, 2);
            lemma_be_val_enc(25, 2);
            assert(e.subrange(0, 2) =~= be_enc(25, 2));
            assert(e[2] == 70);
            match nhop {
                MpNexthop::V4(a) => {
                    lemma_be_enc_len(a as nat, 4);
                    lemma_be_val_enc(a as nat, 4);
                    assert(e[3] == 4);
                    assert(e.subrange(4, 8) =~= be_enc(a as nat, 4));
                    assert(e[8] == 0 && snpa == 0);
                    assert(e.skip(9) =~= enc_list(updates, enc_evpn_route_fn(ap)));
                },
                MpNexthop::V6(a) => {
                    lemma_be_enc_len(a as nat, 16);
                    lemma_be_val_enc(a as nat, 16);
                    assert(e[3] == 16);
                    assert(e.subrange(4, 20) =~= be_enc(a as nat, 16));
                    assert(e[20] == 0 && snpa == 0);
                    assert(e.skip(21) =~= enc_list(updates, enc_evpn_route_fn(ap)));
                },
            }
            crate::evpn::lemma_evpn_route_list_round_trip(updates, ap);
            assert(sp_mp_reach(e, ctx) == Ok::<_, BgpParseError>(v));
        },
        MpReachV::Rtcv4 { nhop, snpa, updates } => {
            lemma_be_enc_len(1, 2);
            lemma_be_val_enc(1, 2);
            assert(e.subrange(0, 2) =~= be_enc(1, 2));
            assert(e[2] == 132);
            match nhop {
                MpNexthop::V4(a) => {
                    lemma_be_enc_len(a as nat, 4);
                    lemma_be_val_enc(a as nat, 4);
                    assert(e[3] == 4);
                    assert(e.subrange(4, 8) =~= be_enc(a as nat, 4));
                    assert(e[8] == 0 && snpa == 0);
                    assert(e.skip(9) =~= enc_list(updates, enc_rtcv4_nlri_fn(ap)));
                },
                MpNexthop::V6(a) => {
                    lemma_be_enc_len(a as nat, 16);
                    lemma_be_val_enc(a as nat, 16);
                    assert(e[3] == 16);
                    assert(e.subrange(4, 20) =~= be_enc(a as nat, 16));
                    assert(e[20] == 0 && snpa == 0);
                    assert(e.skip(21) =~= enc_list(updates, enc_rtcv4_nlri_fn(ap)));
                },
            }
            crate::nlri::lemma_rtcv4_nlri_list_round_trip(updates, ap);
            assert(sp_mp_reach(e, ctx) == Ok::<_, BgpParseError>(v));
        },
    }
}

/// Emitting a well-formed MP_UNREACH_NLRI value and parsing it back under the
/// same context returns the value. In particular every `Eor` form is exactly
/// the three family-header bytes, and those three bytes parse back to the
/// End-of-RIB marker of that family.
#[verifier::rlimit(90)]
pub proof fn lemma_mp_unreach_round_trip(v: MpUnreachV, ctx: Option<ParseOptionV>)
    requires
        v.wf(ctx),
    ensures
        sp_mp_unreach(v.enc(ctx), ctx) == Ok::<_, BgpParseError>(v),
        v matches MpUnreachV::Ipv6(w) ==> v.enc(ctx).len() > 3,
        (v is Ipv4Eor || v is Ipv6Eor || v is Vpnv4Eor || v is EvpnEor || v is Rtcv4Eor)
            ==> v.enc(ctx).len() == 3,
{
    let e = v.enc(ctx);
    let ap = v.ap(ctx);
    lemma_pow256_consts();
    lemma_be_enc_len(v.afi().code_spec() as nat, 2);
    lemma_be_val_enc(v.afi().code_spec() as nat, 2);
    assert(e.subrange(0, 2) =~= be_enc(v.afi().code_spec() as nat, 2));
    assert(e[2] == v.safi().code_spec());
    match v {
        MpUnreachV::Ipv4Eor => {
            assert(e.skip(3) =~= Seq::<u8>::empty());
        },
        MpUnreachV::Ipv6(w) => {
            assert(e.skip(3) =~= enc_list(w, enc_ipv6_nlri_fn(ap)));
            crate::nlri::lemma_ipv6_nlri_list_round_trip(w, ap);
            crate::nlri::lemma_ipv6_nlri_round_trip(w[0], ap, Seq::empty());
            assert(enc_list(w, enc_ipv6_nlri_fn(ap)).len() > 0);
        },
        MpUnreachV::Ipv6Eor => {
            assert(e.skip(3) =~= Seq::<u8>::empty());
        },
        MpUnreachV::Vpnv4(w) => {
            assert(e.skip(3) =~= enc_list(w, enc_vpnv4_nlri_fn(ap)));
            crate::nlri::lemma_vpnv4_nlri_list_round_trip(w, ap);
            crate::nlri::lemma_vpnv4_nlri_round_trip(w[0], ap, Seq::empty());
            assert(enc_list(w, enc_vpnv4_nlri_fn(ap)).len() > 0);
        },
        MpUnreachV::Vpnv4Eor => {
            assert(e.skip(3) =~= Seq::<u8>::empty());
        },
        MpUnreachV::Evpn(w) => {
            assert(e.skip(3) =~= enc_list(w, enc_evpn_route_fn(ap)));
            crate::evpn::lemma_evpn_route_list_round_trip(w, ap);
            crate::evpn::lemma_evpn_route_round_trip(w[0], ap, Seq::empty());
            assert(enc_list(w, enc_evpn_route_fn(ap)).len() > 0);
        },
        MpUnreachV::EvpnEor => {
            assert(e.skip(3) =~= Seq::<u8>::empty());
        },
        MpUnreachV::Rtcv4(w) => {
            assert(e.skip(3) =~= enc_list(w, enc_rtcv4_nlri_fn(ap)));
            crate::nlri::lemma_rtcv4_nlri_list_round_trip(w, ap);
            crate::nlri::lemma_rtcv4_nlri_round_trip(w[0], ap, Seq::empty());
            assert(enc_list(w, enc_rtcv4_nlri_fn(ap)).len() > 0);
        },
        MpUnreachV::Rtcv4Eor => {
            assert(e.skip(3) =~= Seq::<u8>::empty());
        },
    }
    assert(sp_mp_unreach(e, ctx) == Ok::<_, BgpParseError>(v));
}

} // verus!
