//! Path attributes: the typed attribute values, the flag/type/length
//! envelope with extended-length promotion, and the attribute-list codec.
use vstd::prelude::*;

use crate::aspath::{
    as2_views, as4_views, enc_as2_segment_fn, enc_as4_segment_fn, sp_as2_path, sp_as4_path,
    As2Path, As2SegV, As4Path, As4SegV,
};
use crate::community::{
    emit_ext_ipv6_community_list, emit_large_community_list, emit_u32_list, enc_ext_community_value_fn,
    enc_ext_ipv6_community_value_fn, enc_large_community_value_fn, enc_u32val_fn,
    parse_ext_ipv6_community_list, parse_large_community_list, parse_u32_list, sp_ext_community_list,
    sp_ext_ipv6_community_list, sp_large_community_list, sp_u32_list, Community, ExtCommunity,
    ExtCommunityValue, ExtIpv6Community, ExtIpv6CommunityValue, LargeCommunity, LargeCommunityValue,
};
use crate::context::{opt_view, ParseOption, ParseOptionV};
use crate::error::BgpParseError;
use crate::list::{enc_list, sp_list};
use crate::mp::{sp_mp_reach, sp_mp_unreach, MpNlriReachAttr, MpNlriUnreachAttr, MpReachV, MpUnreachV};
use crate::wire::{
    be_enc, be_val, lemma_be_enc_len, lemma_be_val_bound, lemma_be_val_enc, lemma_pow256_consts,
    read_be, read_bytes, write_be, write_bytes,
};

verus! {

/// The ORIGIN attribute.
#[derive(Clone, Copy, Debug, PartialEq, Eq, Structural)]
pub struct Origin {
    pub origin: u8,
}

impl Origin {
    pub fn new(origin: u8) -> (r: Origin)
        ensures
            r.origin == origin,
    {
        Origin { origin }
    }
}

/// The NEXT_HOP attribute.
#[derive(Clone, Copy, Debug, PartialEq, Eq, Structural)]
pub struct NexthopAttr {
    pub next_hop: u32,
}

/// The MULTI_EXIT_DISC attribute.
#[derive(Clone, Copy, Debug, PartialEq, Eq, Structural)]
pub struct Med {
    pub med: u32,
}

/// The LOCAL_PREF attribute.
#[derive(Clone, Copy, Debug, PartialEq, Eq, Structural)]
pub struct LocalPref {
    pub local_pref: u32,
}

impl LocalPref {
    pub fn new(local_pref: u32) -> (r: LocalPref)
        ensures
            r.local_pref == local_pref,
    {
        LocalPref { local_pref }
    }
}

/// The ATOMIC_AGGREGATE attribute: presence only.
#[derive(Clone, Copy, Debug, PartialEq, Eq, Structural)]
pub struct AtomicAggregate {}

impl AtomicAggregate {
    pub fn new() -> (r: AtomicAggregate) {
        AtomicAggregate {  }
    }
}

/// The AGGREGATOR attribute in two-byte AS form.
#[derive(Clone, Copy, Debug, PartialEq, Eq, Structural)]
pub struct Aggregator2 {
    pub asn: u16,
    pub ip: u32,
}

impl Aggregator2 {
    pub fn new(asn: u16, ip: u32) -> (r: Aggregator2)
        ensures
            r.asn == asn && r.ip == ip,
    {
        Aggregator2 { asn, ip }
    }

    pub fn ip(&self) -> (r: u32)
        ensures
            r == self.ip,
    {
        self.ip
    }
}

/// The AGGREGATOR attribute in four-byte AS form.
#[derive(Clone, Copy, Debug, PartialEq, Eq, Structural)]
pub struct Aggregator {
    pub asn: u32,
    pub ip: u32,
}

impl Aggregator {
    pub fn new(asn: u32, ip: u32) -> (r: Aggregator)
        ensures
            r.asn == asn && r.ip == ip,
    {
        Aggregator { asn, ip }
    }

    pub fn ip(&self) -> (r: u32)
        ensures
            r == self.ip,
    {
        self.ip
    }
}

/// The ORIGINATOR_ID attribute.
#[derive(Clone, Copy, Debug, PartialEq, Eq, Structural)]
pub struct OriginatorId {
    pub id: u32,
}

impl OriginatorId {
    pub fn new(id: u32) -> (r: OriginatorId)
        ensures
            r.id == id,
    {
        OriginatorId { id }
    }

    pub fn id(&self) -> (r: u32)
        ensures
            r == self.id,
    {
        self.id
    }
}

/// The CLUSTER_LIST attribute.
#[derive(Clone, Debug)]
pub struct ClusterList {
    pub list: Vec<u32>,
}

impl ClusterList {
    pub fn new() -> (r: ClusterList)
        ensures
            r.list@ =~= Seq::<u32>::empty(),
    {
        ClusterList { list: Vec::new() }
    }
}

/// The AIGP attribute: the metric of its single type-1 TLV.
#[derive(Clone, Copy, Debug, PartialEq, Eq, Structural)]
pub struct Aigp {
    pub aigp: u64,
}

impl Aigp {
    pub fn new(aigp: u64) -> (r: Aigp)
        ensures
            r.aigp == aigp,
    {
        Aigp { aigp }
    }
}

/// The PMSI_TUNNEL attribute: flags, tunnel type, a three-byte label or VNI,
/// and the tunnel identifier bytes.
#[derive(Clone, Debug)]
pub struct PmsiTunnel {
    pub flags: u8,
    pub tunnel_type: u8,
    pub vni: u32,
    pub tid: Vec<u8>,
}

/// The mathematical shape of a PMSI_TUNNEL value.
#[verifier::ext_equal]
pub ghost struct PmsiTunnelV {
    pub flags: u8,
    pub tunnel_type: u8,
    pub vni: u32,
    pub tid: Seq<u8>,
}

impl View for PmsiTunnel {
    type V = PmsiTunnelV;

    open spec fn view(&self) -> PmsiTunnelV {
        PmsiTunnelV {
            flags: self.flags,
            tunnel_type: self.tunnel_type,
            vni: self.vni,
            tid: self.tid@,
        }
    }
}

/// One path attribute.
#[derive(Clone, Debug)]
pub enum Attr {
    Origin(Origin),
    As2Path(As2Path),
    As4Path(As4Path),
    NextHop(NexthopAttr),
    Med(Med),
    LocalPref(LocalPref),
    AtomicAggregate(AtomicAggregate),
    Aggregator(Aggregator),
    Aggregator2(Aggregator2),
    Community(Community),
    OriginatorId(OriginatorId),
    ClusterList(ClusterList),
    MpReachNlri(MpNlriReachAttr),
    MpUnreachNlri(MpNlriUnreachAttr),
    ExtendedCom(ExtCommunity),
    ExtIpv6Com(ExtIpv6Community),
    PmsiTunnel(PmsiTunnel),
    Aigp(Aigp),
    LargeCom(LargeCommunity),
    Unknown { flags: u8, typ: u8, data: Vec<u8> },
}

/// The mathematical shape of a path attribute.
#[verifier::ext_equal]
pub ghost enum AttrV {
    Origin(Origin),
    As2Path(Seq<As2SegV>),
    As4Path(Seq<As4SegV>),
    NextHop(NexthopAttr),
    Med(Med),
    LocalPref(LocalPref),
    AtomicAggregate(AtomicAggregate),
    Aggregator(Aggregator),
    Aggregator2(Aggregator2),
    Community(Seq<u32>),
    OriginatorId(OriginatorId),
    ClusterList(Seq<u32>),
    MpReachNlri(MpReachV),
    MpUnreachNlri(MpUnreachV),
    ExtendedCom(Seq<ExtCommunityValue>),
    ExtIpv6Com(Seq<ExtIpv6CommunityValue>),
    PmsiTunnel(PmsiTunnelV),
    Aigp(Aigp),
    LargeCom(Seq<LargeCommunityValue>),
    Unknown { flags: u8, typ: u8, data: Seq<u8> },
}

impl View for Attr {
    type V = AttrV;

    open spec fn view(&self) -> AttrV {
        match self {
            Attr::Origin(v) => AttrV::Origin(*v),
            Attr::As2Path(v) => AttrV::As2Path(as2_views(v.segs@)),
            Attr::As4Path(v) => AttrV::As4Path(as4_views(v.segs@)),
            Attr::NextHop(v) => AttrV::NextHop(*v),
            Attr::Med(v) => AttrV::Med(*v),
            Attr::LocalPref(v) => AttrV::LocalPref(*v),
            Attr::AtomicAggregate(v) => AttrV::AtomicAggregate(*v),
            Attr::Aggregator(v) => AttrV::Aggregator(*v),
            Attr::Aggregator2(v) => AttrV::Aggregator2(*v),
            Attr::Community(v) => AttrV::Community(v.0@),
            Attr::OriginatorId(v) => AttrV::OriginatorId(*v),
            Attr::ClusterList(v) => AttrV::ClusterList(v.list@),
            Attr::MpReachNlri(v) => AttrV::MpReachNlri(v@),
            Attr::MpUnreachNlri(v) => AttrV::MpUnreachNlri(v@),
            Attr::ExtendedCom(v) => AttrV::ExtendedCom(v.0@),
            Attr::ExtIpv6Com(v) => AttrV::ExtIpv6Com(v.0@),
            Attr::PmsiTunnel(v) => AttrV::PmsiTunnel(v@),
            Attr::Aigp(v) => AttrV::Aigp(*v),
            Attr::LargeCom(v) => AttrV::LargeCom(v.0@),
            Attr::Unknown { flags, typ, data } => AttrV::Unknown {
                flags: *flags,
                typ: *typ,
                data: data@,
            },
        }
    }
}

impl AttrV {
    /// The attribute type code.
    pub open spec fn typ_code(self) -> u8 {
        match self {
            AttrV::Origin(_) => 1,
            AttrV::As2Path(_) | AttrV::As4Path(_) => 2,
            AttrV::NextHop(_) => 3,
            AttrV::Med(_) => 4,
            AttrV::LocalPref(_) => 5,
            AttrV::AtomicAggregate(_) => 6,
            AttrV::Aggregator(_) | AttrV::Aggregator2(_) => 7,
            AttrV::Community(_) => 8,
            AttrV::OriginatorId(_) => 9,
            AttrV::ClusterList(_) => 10,
            AttrV::MpReachNlri(_) => 14,
            AttrV::MpUnreachNlri(_) => 15,
            AttrV::ExtendedCom(_) => 16,
            AttrV::PmsiTunnel(_) => 22,
            AttrV::ExtIpv6Com(_) => 25,
            AttrV::Aigp(_) => 26,
            AttrV::LargeCom(_) => 32,
            AttrV::Unknown { typ, .. } => typ,
        }
    }

    /// The flag byte the attribute is emitted with, before extended-length
    /// promotion.
    pub open spec fn base_flags(self) -> u8 {
        match self {
            AttrV::Origin(_) => 0x40,
            AttrV::As2Path(_) | AttrV::As4Path(_) => 0x40,
            AttrV::NextHop(_) => 0x40,
            AttrV::Med(_) => 0x80,
            AttrV::LocalPref(_) => 0x40,
            AttrV::AtomicAggregate(_) => 0x40,
            AttrV::Aggregator(_) | AttrV::Aggregator2(_) => 0xC0,
            AttrV::Community(_) => 0xC0,
            AttrV::OriginatorId(_) => 0x80,
            AttrV::ClusterList(_) => 0x80,
            AttrV::MpReachNlri(_) => 0x80,
            AttrV::MpUnreachNlri(_) => 0x80,
            AttrV::ExtendedCom(_) => 0xC0,
            AttrV::PmsiTunnel(_) => 0xC0,
            AttrV::ExtIpv6Com(_) => 0xC0,
            AttrV::Aigp(_) => 0x80,
            AttrV::LargeCom(_) => 0xC0,
            AttrV::Unknown { flags, .. } => flags,
        }
    }

    /// The attribute value bytes.
    pub open spec fn payload_enc(self, ctx: Option<ParseOptionV>) -> Seq<u8> {
        match self {
            AttrV::Origin(v) => seq![v.origin],
            AttrV::As2Path(segs) => enc_list(segs, enc_as2_segment_fn()),
            AttrV::As4Path(segs) => enc_list(segs, enc_as4_segment_fn()),
            AttrV::NextHop(v) => be_enc(v.next_hop as nat, 4),
            AttrV::Med(v) => be_enc(v.med as nat, 4),
            AttrV::LocalPref(v) => be_enc(v.local_pref as nat, 4),
            AttrV::AtomicAggregate(_) => Seq::empty(),
            AttrV::Aggregator(v) => be_enc(v.asn as nat, 4) + be_enc(v.ip as nat, 4),
            AttrV::Aggregator2(v) => be_enc(v.asn as nat, 2) + be_enc(v.ip as nat, 4),
            AttrV::Community(vs) => enc_list(vs, enc_u32val_fn()),
            AttrV::OriginatorId(v) => be_enc(v.id as nat, 4),
            AttrV::ClusterList(vs) => enc_list(vs, enc_u32val_fn()),
            AttrV::MpReachNlri(v) => v.enc(ctx),
            AttrV::MpUnreachNlri(v) => v.enc(ctx),
            AttrV::ExtendedCom(vs) => enc_list(vs, enc_ext_community_value_fn()),
            AttrV::ExtIpv6Com(vs) => enc_list(vs, enc_ext_ipv6_community_value_fn()),
            AttrV::PmsiTunnel(v) => seq![v.flags, v.tunnel_type] + be_enc(v.vni as nat, 3) + v.tid,
            AttrV::Aigp(v) => seq![1u8] + be_enc(11, 2) + be_enc(v.aigp as nat, 8),
            AttrV::LargeCom(vs) => enc_list(vs, enc_large_community_value_fn()),
            AttrV::Unknown { data, .. } => data,
        }
    }

    /// The wire form: the flag byte (with the extended-length bit chosen by
    /// the value size), the type code, the one- or two-byte length, the value.
    pub open spec fn enc(self, ctx: Option<ParseOptionV>) -> Seq<u8> {
        env_enc(self.base_flags(), self.typ_code(), self.payload_enc(ctx))
    }

    /// Structural soundness under the negotiated modes: the four-octet mode
    /// selects which AS_PATH and AGGREGATOR forms may appear, every element is
    /// well-formed, and the value fits the wire length field.
    pub open spec fn wf(self, as4: bool, ctx: Option<ParseOptionV>) -> bool {
        self.payload_enc(ctx).len() <= 0xffff && match self {
            AttrV::Origin(v) => v.origin <= 2,
            AttrV::As2Path(segs) => !as4 && forall|i: int|
                0 <= i < segs.len() ==> (#[trigger] segs[i]).wf(),
            AttrV::As4Path(segs) => as4 && forall|i: int|
                0 <= i < segs.len() ==> (#[trigger] segs[i]).wf(),
            AttrV::Aggregator(_) => as4,
            AttrV::Aggregator2(_) => !as4,
            AttrV::MpReachNlri(v) => v.wf(ctx),
            AttrV::MpUnreachNlri(v) => v.wf(ctx),
            AttrV::ExtendedCom(vs) => forall|i: int|
                0 <= i < vs.len() ==> (#[trigger] vs[i]).wf(),
            AttrV::PmsiTunnel(v) => v.vni < 0x100_0000 && v.tid.len() >= 4,
            AttrV::Unknown { flags, typ, data } => flags & 0x10 == 0 && flags & 0x80 == 0x80
                && !known_attr_type(typ),
            _ => true,
        }
    }
}

/// Whether a type code has a typed representation of its own.
pub open spec fn known_attr_type(typ: u8) -> bool {
    typ == 1 || typ == 2 || typ == 3 || typ == 4 || typ == 5 || typ == 6 || typ == 7 || typ == 8
        || typ == 9 || typ == 10 || typ == 14 || typ == 15 || typ == 16 || typ == 22 || typ == 25
        || typ == 26 || typ == 32
}

/// The attribute envelope around a value of `p` bytes: the extended-length
/// bit is set, and two length bytes are written, exactly when the value is
/// 256 bytes or longer.
pub open spec fn env_enc(flags: u8, typ: u8, p: Seq<u8>) -> Seq<u8> {
    if p.len() < 256 {
        seq![flags, typ, p.len() as u8] + p
    } else {
        seq![flags | 0x10, typ] + be_enc(p.len() as nat, 2) + p
    }
}

/// The flag-byte facts the envelope codec relies on.
pub proof fn lemma_flag_bits(f: u8)
    ensures
        (f | 0x10) & 0x10 == 0x10,
        f & 0x10 == 0 ==> (f | 0x10) & 0xEF == f,
        (f | 0x10) & 0xC0 == f & 0xC0,
        f & 0xEF & 0x10 == 0,
        f & 0xC0 == 0x40 || f & 0xC0 == 0x80 || f & 0xC0 == 0xC0 || f & 0xC0 == 0,
        f & 0x80 == 0x80 ==> (f & 0xC0 == 0x80 || f & 0xC0 == 0xC0),
{
    assert((f | 0x10) & 0x10 == 0x10) by (bit_vector);
    assert(f & 0x10 == 0 ==> (f | 0x10) & 0xEF == f) by (bit_vector);
    assert((f | 0x10) & 0xC0 == f & 0xC0) by (bit_vector);
    assert(f & 0xEF & 0x10 == 0) by (bit_vector);
    assert(f & 0xC0 == 0x40 || f & 0xC0 == 0x80 || f & 0xC0 == 0xC0 || f & 0xC0 == 0)
        by (bit_vector);
    assert(f & 0x80 == 0x80 ==> (f & 0xC0 == 0x80 || f & 0xC0 == 0xC0)) by (bit_vector);
}

/// Appends the attribute envelope and value; the extended-length bit and the
/// width of the length field are chosen by the value size, so a value of 255
/// bytes takes a one-byte length and a value of 256 bytes takes two.
pub fn emit_envelope(out: &mut Vec<u8>, flags: u8, typ: u8, p: &Vec<u8>)
    requires
        flags & 0x10 == 0,
        p@.len() <= 0xffff,
    ensures
        final(out)@ == old(out)@ + env_enc(flags, typ, p@),
{
    proof {
        lemma_pow256_consts();
    }
    if p.len() < 256 {
        out.push(flags);
        out.push(typ);
        out.push(p.len() as u8);
    } else {
        out.push(flags | 0x10);
        out.push(typ);
        write_be(out, p.len() as u128, 2);
    }
    write_bytes(out, p.as_slice());
    proof {
        assert(final(out)@ =~= old(out)@ + env_enc(flags, typ, p@));
    }
}

/// What an attribute envelope parses to: the header length, the value length,
/// the flag byte with the extended bit masked off, and the type code.
pub open spec fn sp_envelope(s: Seq<u8>) -> Result<(int, int, u8, u8), BgpParseError> {
    if s.len() < 3 {
        Err(BgpParseError::Truncated { needed: 3 })
    } else {
        let flags = s[0];
        let typ = s[1];
        if flags & 0x10 == 0x10 {
            if s.len() < 4 {
                Err(BgpParseError::Truncated { needed: 4 })
            } else {
                let alen = be_val(s.subrange(2, 4)) as int;
                if s.len() < 4 + alen {
                    Err(BgpParseError::Truncated { needed: (4 + alen) as usize })
                } else {
                    Ok((4, alen, (flags & 0xEF) as u8, typ))
                }
            }
        } else {
            let alen = s[2] as int;
            if s.len() < 3 + alen {
                Err(BgpParseError::Truncated { needed: (3 + alen) as usize })
            } else {
                Ok((3, alen, flags, typ))
            }
        }
    }
}

/// What one attribute value (without its envelope) parses to, for a given
/// flag byte and type code.
pub open spec fn sp_attr_payload(
    flags: u8,
    typ: u8,
    p: Seq<u8>,
    as4: bool,
    ctx: Option<ParseOptionV>,
) -> Result<AttrV, BgpParseError> {
    if typ == 1 {
        if flags & 0xC0 != 0x40 {
            Err(BgpParseError::FlagViolation { typ: 1 })
        } else if p.len() != 1 {
            Err(BgpParseError::BadLength)
        } else if p[0] > 2 {
            Err(BgpParseError::BadValue { typ: 1 })
        } else {
            Ok(AttrV::Origin(Origin { origin: p[0] }))
        }
    } else if typ == 2 {
        if flags & 0xC0 != 0x40 {
            Err(BgpParseError::FlagViolation { typ: 2 })
        } else if as4 {
            match sp_as4_path(p) {
                Err(e) => Err(e),
                Ok(segs) => Ok(AttrV::As4Path(segs)),
            }
        } else {
            match sp_as2_path(p) {
                Err(e) => Err(e),
                Ok(segs) => Ok(AttrV::As2Path(segs)),
            }
        }
    } else if typ == 3 {
        if flags & 0xC0 != 0x40 {
            Err(BgpParseError::FlagViolation { typ: 3 })
        } else if p.len() != 4 {
            Err(BgpParseError::BadLength)
        } else {
            Ok(AttrV::NextHop(NexthopAttr { next_hop: be_val(p.subrange(0, 4)) as u32 }))
        }
    } else if typ == 4 {
        if flags & 0xC0 != 0x80 {
            Err(BgpParseError::FlagViolation { typ: 4 })
        } else if p.len() != 4 {
            Err(BgpParseError::BadLength)
        } else {
            Ok(AttrV::Med(Med { med: be_val(p.subrange(0, 4)) as u32 }))
        }
    } else if typ == 5 {
        if flags & 0xC0 != 0x40 {
            Err(BgpParseError::FlagViolation { typ: 5 })
        } else if p.len() != 4 {
            Err(BgpParseError::BadLength)
        } else {
            Ok(AttrV::LocalPref(LocalPref { local_pref: be_val(p.subrange(0, 4)) as u32 }))
        }
    } else if typ == 6 {
        if flags & 0xC0 != 0x40 {
            Err(BgpParseError::FlagViolation { typ: 6 })
        } else if p.len() != 0 {
            Err(BgpParseError::BadLength)
        } else {
            Ok(AttrV::AtomicAggregate(AtomicAggregate {  }))
        }
    } else if typ == 7 {
        if flags & 0xC0 != 0xC0 {
            Err(BgpParseError::FlagViolation { typ: 7 })
        } else if as4 {
            if p.len() != 8 {
                Err(BgpParseError::BadLength)
            } else {
                Ok(
                    AttrV::Aggregator(
                        Aggregator {
                            asn: be_val(p.subrange(0, 4)) as u32,
                            ip: be_val(p.subrange(4, 8)) as u32,
                        },
                    ),
                )
            }
        } else {
            if p.len() != 6 {
                Err(BgpParseError::BadLength)
            } else {
                Ok(
                    AttrV::Aggregator2(
                        Aggregator2 {
                            asn: be_val(p.subrange(0, 2)) as u16,
                            ip: be_val(p.subrange(2, 6)) as u32,
                        },
                    ),
                )
            }
        }
    } else if typ == 8 {
        if flags & 0xC0 != 0xC0 {
            Err(BgpParseError::FlagViolation { typ: 8 })
        } else if p.len() % 4 != 0 {
            Err(BgpParseError::BadLength)
        } else {
            match sp_u32_list(p) {
                Err(e) => Err(e),
                Ok(vs) => Ok(AttrV::Community(vs)),
            }
        }
    } else if typ == 9 {
        if flags & 0xC0 != 0x80 {
            Err(BgpParseError::FlagViolation { typ: 9 })
        } else if p.len() != 4 {
            Err(BgpParseError::BadLength)
        } else {
            Ok(AttrV::OriginatorId(OriginatorId { id: be_val(p.subrange(0, 4)) as u32 }))
        }
    } else if typ == 10 {
        if flags & 0xC0 != 0x80 {
            Err(BgpParseError::FlagViolation { typ: 10 })
        } else if p.len() % 4 != 0 {
            Err(BgpParseError::BadLength)
        } else {
            match sp_u32_list(p) {
                Err(e) => Err(e),
                Ok(vs) => Ok(AttrV::ClusterList(vs)),
            }
        }
    } else if typ == 14 {
        if flags & 0xC0 != 0x80 {
            Err(BgpParseError::FlagViolation { typ: 14 })
        } else {
            match sp_mp_reach(p, ctx) {
                Err(e) => Err(e),
                Ok(v) => Ok(AttrV::MpReachNlri(v)),
            }
        }
    } else if typ == 15 {
        if flags & 0xC0 != 0x80 {
            Err(BgpParseError::FlagViolation { typ: 15 })
        } else {
            match sp_mp_unreach(p, ctx) {
                Err(e) => Err(e),
                Ok(v) => Ok(AttrV::MpUnreachNlri(v)),
            }
        }
    } else if typ == 16 {
        if flags & 0xC0 != 0xC0 {
            Err(BgpParseError::FlagViolation { typ: 16 })
        } else if p.len() % 8 != 0 {
            Err(BgpParseError::BadLength)
        } else {
            match sp_ext_community_list(p) {
                Err(e) => Err(e),
                Ok(vs) => Ok(AttrV::ExtendedCom(vs)),
            }
        }
    } else if typ == 22 {
        if flags & 0xC0 != 0xC0 {
            Err(BgpParseError::FlagViolation { typ: 22 })
        } else if p.len() < 9 {
            Err(BgpParseError::BadLength)
        } else {
            Ok(
                AttrV::PmsiTunnel(
                    PmsiTunnelV {
                        flags: p[0],
                        tunnel_type: p[1],
                        vni: be_val(p.subrange(2, 5)) as u32,
                        tid: p.skip(5),
                    },
                ),
            )
        }
    } else if typ == 25 {
        if flags & 0xC0 != 0xC0 {
            Err(BgpParseError::FlagViolation { typ: 25 })
        } else if p.len() % 20 != 0 {
            Err(BgpParseError::BadLength)
        } else {
            match sp_ext_ipv6_community_list(p) {
                Err(e) => Err(e),
                Ok(vs) => Ok(AttrV::ExtIpv6Com(vs)),
            }
        }
    } else if typ == 26 {
        if flags & 0xC0 != 0x80 {
            Err(BgpParseError::FlagViolation { typ: 26 })
        } else if p.len() != 11 {
            Err(BgpParseError::BadLength)
        } else if p[0] != 1 || be_val(p.subrange(1, 3)) != 11 {
            Err(BgpParseError::BadValue { typ: 26 })
        } else {
            Ok(AttrV::Aigp(Aigp { aigp: be_val(p.subrange(3, 11)) as u64 }))
        }
    } else if typ == 32 {
        if flags & 0xC0 != 0xC0 {
            Err(BgpParseError::FlagViolation { typ: 32 })
        } else if p.len() % 12 != 0 {
            Err(BgpParseError::BadLength)
        } else {
            match sp_large_community_list(p) {
                Err(e) => Err(e),
                Ok(vs) => Ok(AttrV::LargeCom(vs)),
            }
        }
    } else {
        if flags & 0x80 != 0x80 {
            Err(BgpParseError::OptionalMissing { typ })
        } else {
            Ok(AttrV::Unknown { flags, typ, data: p })
        }
    }
}

/// What one whole attribute parses to.
pub open spec fn sp_attr(s: Seq<u8>, as4: bool, ctx: Option<ParseOptionV>) -> Result<
    (int, AttrV),
    BgpParseError,
> {
    match sp_envelope(s) {
        Err(e) => Err(e),
        Ok((hdr, alen, flags, typ)) => match sp_attr_payload(
            flags,
            typ,
            s.subrange(hdr, hdr + alen),
            as4,
            ctx,
        ) {
            Err(e) => Err(e),
            Ok(v) => Ok((hdr + alen, v)),
        },
    }
}

pub open spec fn sp_attr_fn(as4: bool, ctx: Option<ParseOptionV>) -> spec_fn(Seq<u8>) -> Result<
    (int, AttrV),
    BgpParseError,
> {
    |t: Seq<u8>| sp_attr(t, as4, ctx)
}

pub open spec fn enc_attr_fn(ctx: Option<ParseOptionV>) -> spec_fn(AttrV) -> Seq<u8> {
    |v: AttrV| v.enc(ctx)
}

/// What a run of attributes covering a whole slice parses to.
pub open spec fn sp_attr_list(s: Seq<u8>, as4: bool, ctx: Option<ParseOptionV>) -> Result<
    Seq<AttrV>,
    BgpParseError,
> {
    sp_list(s, sp_attr_fn(as4, ctx))
}

/// The shapes of a vector of attributes.
pub open spec fn attr_views(s: Seq<Attr>) -> Seq<AttrV> {
    s.map_values(|a: Attr| a@)
}


/// Constant flag-byte facts for the known attribute types.
pub proof fn lemma_flag_consts()
    ensures
        0x40u8 & 0x10 == 0,
        0x80u8 & 0x10 == 0,
        0xC0u8 & 0x10 == 0,
        0x40u8 & 0xC0 == 0x40,
        0x80u8 & 0xC0 == 0x80,
        0xC0u8 & 0xC0 == 0xC0,
        0x80u8 & 0x80 == 0x80,
        0xC0u8 & 0x80 == 0x80,
{
    assert(0x40u8 & 0x10 == 0 && 0x80u8 & 0x10 == 0 && 0xC0u8 & 0x10 == 0 && 0x40u8 & 0xC0 == 0x40
        && 0x80u8 & 0xC0 == 0x80 && 0xC0u8 & 0xC0 == 0xC0 && 0x80u8 & 0x80 == 0x80 && 0xC0u8 & 0x80
        == 0x80) by (bit_vector);
}

/// Reads one attribute starting at `pos`; everything up to `end` may belong
/// to it.
#[verifier::rlimit(100)]
#[verifier::spinoff_prover]
pub fn parse_attr(input: &[u8], pos: usize, end: usize, as4: bool, opt: Option<&ParseOption>) -> (r:
    Result<(usize, Attr), BgpParseError>)
    requires
        pos <= end <= input.len(),
    ensures
        match r {
            Ok((n, v)) => pos < n <= end && sp_attr(
                input@.subrange(pos as int, end as int),
                as4,
                opt_view(opt),
            ) == Ok::<_, BgpParseError>(((n - pos) as int, v@)),
            Err(e) => sp_attr(input@.subrange(pos as int, end as int), as4, opt_view(opt)) == Err::<
                (int, AttrV),
                _,
            >(e),
        },
{
    let ghost s = input@.subrange(pos as int, end as int);
    if end - pos < 3 {
        return Err(BgpParseError::Truncated { needed: 3 });
    }
    let flags0 = input[pos];
    let typ = input[pos + 1];
    proof {
        assert(s[0] == input@[pos as int] && s[1] == input@[pos + 1] && s[2] == input@[pos + 2]);
    }
    let (hdr, alen, flags): (usize, usize, u8) = if flags0 & 0x10 == 0x10 {
        if end - pos < 4 {
            return Err(BgpParseError::Truncated { needed: 4 });
        }
        proof {
            assert(s.subrange(2, 4) =~= input@.subrange(pos + 2, pos + 4));
            lemma_be_val_bound(input@.subrange(pos + 2, pos + 4));
            lemma_pow256_consts();
        }
        let alen = read_be(input, pos + 2, 2) as usize;
        (4, alen, flags0 & 0xEF)
    } else {
        (3, input[pos + 2] as usize, flags0)
    };
    if end - pos - hdr < alen {
        return Err(BgpParseError::Truncated { needed: hdr + alen });
    }
    proof {
        assert(sp_envelope(s) == Ok::<_, BgpParseError>(
            (hdr as int, alen as int, flags, typ),
        ));
        assert(s.subrange(hdr as int, hdr + alen) =~= input@.subrange(
            pos + hdr,
            pos + hdr + alen,
        ));
    }
    match parse_attr_payload(input, pos + hdr, pos + hdr + alen, flags, typ, as4, opt) {
        Err(e) => Err(e),
        Ok(v) => Ok((pos + hdr + alen, v)),
    }
}

/// Reads one attribute value covering `pos..end`, for a given flag byte and
/// type code.
#[verifier::rlimit(90)]
fn parse_attr_payload(
    input: &[u8],
    pos: usize,
    end: usize,
    flags: u8,
    typ: u8,
    as4: bool,
    opt: Option<&ParseOption>,
) -> (r: Result<Attr, BgpParseError>)
    requires
        pos <= end <= input.len(),
    ensures
        match r {
            Ok(v) => sp_attr_payload(
                flags,
                typ,
                input@.subrange(pos as int, end as int),
                as4,
                opt_view(opt),
            ) == Ok::<_, BgpParseError>(v@),
            Err(e) => sp_attr_payload(
                flags,
                typ,
                input@.subrange(pos as int, end as int),
                as4,
                opt_view(opt),
            ) == Err::<AttrV, _>(e),
        },
{
    let ghost p = input@.subrange(pos as int, end as int);
    let alen = end - pos;
    proof {
        lemma_pow256_consts();
    }
    if typ == 1 {
        if flags & 0xC0 != 0x40 {
            Err(BgpParseError::FlagViolation { typ: 1 })
        } else if alen != 1 {
            Err(BgpParseError::BadLength)
        } else if input[pos] > 2 {
            proof {
                assert(p[0] == input@[pos as int]);
            }
            Err(BgpParseError::BadValue { typ: 1 })
        } else {
            proof {
                assert(p[0] == input@[pos as int]);
            }
            Ok(Attr::Origin(Origin { origin: input[pos] }))
        }
    } else if typ == 2 {
        if flags & 0xC0 != 0x40 {
            Err(BgpParseError::FlagViolation { typ: 2 })
        } else if as4 {
            match As4Path::parse_be(input, pos, end) {
                Err(e) => Err(e),
                Ok(v) => Ok(Attr::As4Path(v)),
            }
        } else {
            match As2Path::parse_be(input, pos, end) {
                Err(e) => Err(e),
                Ok(v) => Ok(Attr::As2Path(v)),
            }
        }
    } else if typ == 3 {
        if flags & 0xC0 != 0x40 {
            Err(BgpParseError::FlagViolation { typ: 3 })
        } else if alen != 4 {
            Err(BgpParseError::BadLength)
        } else {
            proof {
                assert(p.subrange(0, 4) =~= input@.subrange(pos as int, pos + 4));
                lemma_be_val_bound(input@.subrange(pos as int, pos + 4));
            }
            Ok(Attr::NextHop(NexthopAttr { next_hop: read_be(input, pos, 4) as u32 }))
        }
    } else if typ == 4 {
        if flags & 0xC0 != 0x80 {
            Err(BgpParseError::FlagViolation { typ: 4 })
        } else if alen != 4 {
            Err(BgpParseError::BadLength)
        } else {
            proof {
                assert(p.subrange(0, 4) =~= input@.subrange(pos as int, pos + 4));
                lemma_be_val_bound(input@.subrange(pos as int, pos + 4));
            }
            Ok(Attr::Med(Med { med: read_be(input, pos, 4) as u32 }))
        }
    } else if typ == 5 {
        if flags & 0xC0 != 0x40 {
            Err(BgpParseError::FlagViolation { typ: 5 })
        } else if alen != 4 {
            Err(BgpParseError::BadLength)
        } else {
            proof {
                assert(p.subrange(0, 4) =~= input@.subrange(pos as int, pos + 4));
                lemma_be_val_bound(input@.subrange(pos as int, pos + 4));
            }
            Ok(Attr::LocalPref(LocalPref { local_pref: read_be(input, pos, 4) as u32 }))
        }
    } else if typ == 6 {
        if flags & 0xC0 != 0x40 {
            Err(BgpParseError::FlagViolation { typ: 6 })
        } else if alen != 0 {
            Err(BgpParseError::BadLength)
        } else {
            Ok(Attr::AtomicAggregate(AtomicAggregate {  }))
        }
    } else if typ == 7 {
        if flags & 0xC0 != 0xC0 {
            Err(BgpParseError::FlagViolation { typ: 7 })
        } else if as4 {
            if alen != 8 {
                Err(BgpParseError::BadLength)
            } else {
                proof {
                    assert(p.subrange(0, 4) =~= input@.subrange(pos as int, pos + 4));
                    assert(p.subrange(4, 8) =~= input@.subrange(pos + 4, pos + 8));
                    lemma_be_val_bound(input@.subrange(pos as int, pos + 4));
                    lemma_be_val_bound(input@.subrange(pos + 4, pos + 8));
                }
                Ok(
                    Attr::Aggregator(
                        Aggregator {
                            asn: read_be(input, pos, 4) as u32,
                            ip: read_be(input, pos + 4, 4) as u32,
                        },
                    ),
                )
            }
        } else {
            if alen != 6 {
                Err(BgpParseError::BadLength)
            } else {
                proof {
                    assert(p.subrange(0, 2) =~= input@.subrange(pos as int, pos + 2));
                    assert(p.subrange(2, 6) =~= input@.subrange(pos + 2, pos + 6));
                    lemma_be_val_bound(input@.subrange(pos as int, pos + 2));
                    lemma_be_val_bound(input@.subrange(pos + 2, pos + 6));
                }
                Ok(
                    Attr::Aggregator2(
                        Aggregator2 {
                            asn: read_be(input, pos, 2) as u16,
                            ip: read_be(input, pos + 2, 4) as u32,
                        },
                    ),
                )
            }
        }
    } else if typ == 8 {
        if flags & 0xC0 != 0xC0 {
            Err(BgpParseError::FlagViolation { typ: 8 })
        } else if alen % 4 != 0 {
            Err(BgpParseError::BadLength)
        } else {
            match parse_u32_list(input, pos, end) {
                Err(e) => Err(e),
                Ok(vs) => Ok(Attr::Community(Community(vs))),
            }
        }
    } else if typ == 9 {
        if flags & 0xC0 != 0x80 {
            Err(BgpParseError::FlagViolation { typ: 9 })
        } else if alen != 4 {
            Err(BgpParseError::BadLength)
        } else {
            proof {
                assert(p.subrange(0, 4) =~= input@.subrange(pos as int, pos + 4));
                lemma_be_val_bound(input@.subrange(pos as int, pos + 4));
            }
            Ok(Attr::OriginatorId(OriginatorId { id: read_be(input, pos, 4) as u32 }))
        }
    } else if typ == 10 {
        if flags & 0xC0 != 0x80 {
            Err(BgpParseError::FlagViolation { typ: 10 })
        } else if alen % 4 != 0 {
            Err(BgpParseError::BadLength)
        } else {
            match parse_u32_list(input, pos, end) {
                Err(e) => Err(e),
                Ok(vs) => Ok(Attr::ClusterList(ClusterList { list: vs })),
            }
        }
    } else if typ == 14 {
        if flags & 0xC0 != 0x80 {
            Err(BgpParseError::FlagViolation { typ: 14 })
        } else {
            match MpNlriReachAttr::parse_nlri_opt(input, pos, end, opt) {
                Err(e) => Err(e),
                Ok(v) => Ok(Attr::MpReachNlri(v)),
            }
        }
    } else if typ == 15 {
        if flags & 0xC0 != 0x80 {
            Err(BgpParseError::FlagViolation { typ: 15 })
        } else {
            match MpNlriUnreachAttr::parse_nlri_opt(input, pos, end, opt) {
                Err(e) => Err(e),
                Ok(v) => Ok(Attr::MpUnreachNlri(v)),
            }
        }
    } else if typ == 16 {
        if flags & 0xC0 != 0xC0 {
            Err(BgpParseError::FlagViolation { typ: 16 })
        } else if alen % 8 != 0 {
            Err(BgpParseError::BadLength)
        } else {
            match ExtCommunity::parse_list(input, pos, end) {
                Err(e) => Err(e),
                Ok(v) => Ok(Attr::ExtendedCom(v)),
            }
        }
    } else if typ == 22 {
        if flags & 0xC0 != 0xC0 {
            Err(BgpParseError::FlagViolation { typ: 22 })
        } else if alen < 9 {
            Err(BgpParseError::BadLength)
        } else {
            proof {
                assert(p[0] == input@[pos as int] && p[1] == input@[pos + 1]);
                assert(p.subrange(2, 5) =~= input@.subrange(pos + 2, pos + 5));
                assert(p.skip(5) =~= input@.subrange(pos + 5, end as int));
                lemma_be_val_bound(input@.subrange(pos + 2, pos + 5));
            }
            let pflags = input[pos];
            let tunnel_type = input[pos + 1];
            let vni = read_be(input, pos + 2, 3) as u32;
            let tid = read_bytes(input, pos + 5, end - pos - 5);
            Ok(Attr::PmsiTunnel(PmsiTunnel { flags: pflags, tunnel_type, vni, tid }))
        }
    } else if typ == 25 {
        if flags & 0xC0 != 0xC0 {
            Err(BgpParseError::FlagViolation { typ: 25 })
        } else if alen % 20 != 0 {
            Err(BgpParseError::BadLength)
        } else {
            match parse_ext_ipv6_community_list(input, pos, end) {
                Err(e) => Err(e),
                Ok(vs) => Ok(Attr::ExtIpv6Com(ExtIpv6Community(vs))),
            }
        }
    } else if typ == 26 {
        if flags & 0xC0 != 0x80 {
            Err(BgpParseError::FlagViolation { typ: 26 })
        } else if alen != 11 {
            Err(BgpParseError::BadLength)
        } else {
            proof {
                assert(p[0] == input@[pos as int]);
                assert(p.subrange(1, 3) =~= input@.subrange(pos + 1, pos + 3));
                assert(p.subrange(3, 11) =~= input@.subrange(pos + 3, pos + 11));
                lemma_be_val_bound(input@.subrange(pos + 1, pos + 3));
                lemma_be_val_bound(input@.subrange(pos + 3, pos + 11));
            }
            if input[pos] != 1 || read_be(input, pos + 1, 2) != 11 {
                Err(BgpParseError::BadValue { typ: 26 })
            } else {
                Ok(Attr::Aigp(Aigp { aigp: read_be(input, pos + 3, 8) as u64 }))
            }
        }
    } else if typ == 32 {
        if flags & 0xC0 != 0xC0 {
            Err(BgpParseError::FlagViolation { typ: 32 })
        } else if alen % 12 != 0 {
            Err(BgpParseError::BadLength)
        } else {
            match parse_large_community_list(input, pos, end) {
                Err(e) => Err(e),
                Ok(vs) => Ok(Attr::LargeCom(LargeCommunity(vs))),
            }
        }
    } else {
        if flags & 0x80 != 0x80 {
            Err(BgpParseError::OptionalMissing { typ })
        } else {
            let data = read_bytes(input, pos, end - pos);
            proof {
                assert(data@ =~= p);
            }
            Ok(Attr::Unknown { flags, typ, data })
        }
    }
}


impl Attr {
    /// Appends the whole attribute: envelope and value.
    #[verifier::rlimit(90)]
    pub fn emit(&self, out: &mut Vec<u8>, opt: Option<&ParseOption>)
        requires
            self@.payload_enc(opt_view(opt)).len() <= 0xffff,
            self@ matches AttrV::MpReachNlri(m) ==> m.wf(opt_view(opt)),
            self@ matches AttrV::MpUnreachNlri(m) ==> m.wf(opt_view(opt)),
            self@ matches AttrV::As2Path(segs) ==> forall|i: int|
                0 <= i < segs.len() ==> (#[trigger] segs[i]).wf(),
            self@ matches AttrV::As4Path(segs) ==> forall|i: int|
                0 <= i < segs.len() ==> (#[trigger] segs[i]).wf(),
            self@ matches AttrV::ExtendedCom(vs) ==> forall|i: int|
                0 <= i < vs.len() ==> (#[trigger] vs[i]).wf(),
            self@ matches AttrV::PmsiTunnel(v) ==> v.vni < 0x100_0000,
            self@ matches AttrV::Unknown { flags, .. } ==> flags & 0x10 == 0,
        ensures
            final(out)@ == old(out)@ + self@.enc(opt_view(opt)),
    {
        proof {
            lemma_pow256_consts();
            lemma_flag_consts();
        }
        let mut p: Vec<u8> = Vec::new();
        let flags: u8;
        let typ: u8;
        match self {
            Attr::Origin(v) => {
                p.push(v.origin);
                flags = 0x40;
                typ = 1;
                proof {
                    assert(p@ =~= self@.payload_enc(opt_view(opt)));
                }
            },
            Attr::As2Path(v) => {
                proof {
                    assert(self@ == AttrV::As2Path(as2_views(v.segs@)));
                    assert forall|i: int| 0 <= i < v.segs@.len() implies (
                    #[trigger] v.segs@[i]@).wf() by {
                        assert(as2_views(v.segs@)[i] == v.segs@[i]@);
                    }
                }
                v.emit(&mut p);
                flags = 0x40;
                typ = 2;
                proof {
                    assert(p@ =~= self@.payload_enc(opt_view(opt)));
                }
            },
            Attr::As4Path(v) => {
                proof {
                    assert(self@ == AttrV::As4Path(as4_views(v.segs@)));
                    assert forall|i: int| 0 <= i < v.segs@.len() implies (
                    #[trigger] v.segs@[i]@).wf() by {
                        assert(as4_views(v.segs@)[i] == v.segs@[i]@);
                    }
                }
                v.emit(&mut p);
                flags = 0x40;
                typ = 2;
                proof {
                    assert(p@ =~= self@.payload_enc(opt_view(opt)));
                }
            },
            Attr::NextHop(v) => {
                write_be(&mut p, v.next_hop as u128, 4);
                flags = 0x40;
                typ = 3;
                proof {
                    assert(p@ =~= self@.payload_enc(opt_view(opt)));
                }
            },
            Attr::Med(v) => {
                write_be(&mut p, v.med as u128, 4);
                flags = 0x80;
                typ = 4;
                proof {
                    assert(p@ =~= self@.payload_enc(opt_view(opt)));
                }
            },
            Attr::LocalPref(v) => {
                write_be(&mut p, v.local_pref as u128, 4);
                flags = 0x40;
                typ = 5;
                proof {
                    assert(p@ =~= self@.payload_enc(opt_view(opt)));
                }
            },
            Attr::AtomicAggregate(_) => {
                flags = 0x40;
                typ = 6;
                proof {
                    assert(p@ =~= self@.payload_enc(opt_view(opt)));
                }
            },
            Attr::Aggregator(v) => {
                write_be(&mut p, v.asn as u128, 4);
                write_be(&mut p, v.ip as u128, 4);
                flags = 0xC0;
                typ = 7;
                proof {
                    assert(p@ =~= self@.payload_enc(opt_view(opt)));
                }
            },
            Attr::Aggregator2(v) => {
                write_be(&mut p, v.asn as u128, 2);
                write_be(&mut p, v.ip as u128, 4);
                flags = 0xC0;
                typ = 7;
                proof {
                    assert(p@ =~= self@.payload_enc(opt_view(opt)));
                }
            },
            Attr::Community(v) => {
                emit_u32_list(&mut p, &v.0);
                flags = 0xC0;
                typ = 8;
                proof {
                    assert(p@ =~= self@.payload_enc(opt_view(opt)));
                }
            },
            Attr::OriginatorId(v) => {
                write_be(&mut p, v.id as u128, 4);
                flags = 0x80;
                typ = 9;
                proof {
                    assert(p@ =~= self@.payload_enc(opt_view(opt)));
                }
            },
            Attr::ClusterList(v) => {
                emit_u32_list(&mut p, &v.list);
                flags = 0x80;
                typ = 10;
                proof {
                    assert(p@ =~= self@.payload_enc(opt_view(opt)));
                }
            },
            Attr::MpReachNlri(v) => {
                v.emit_value(&mut p, opt);
                flags = 0x80;
                typ = 14;
                proof {
                    assert(p@ =~= self@.payload_enc(opt_view(opt)));
                }
            },
            Attr::MpUnreachNlri(v) => {
                v.emit_value(&mut p, opt);
                flags = 0x80;
                typ = 15;
                proof {
                    assert(p@ =~= self@.payload_enc(opt_view(opt)));
                }
            },
            Attr::ExtendedCom(v) => {
                v.emit(&mut p);
                flags = 0xC0;
                typ = 16;
                proof {
                    assert(p@ =~= self@.payload_enc(opt_view(opt)));
                }
            },
            Attr::ExtIpv6Com(v) => {
                emit_ext_ipv6_community_list(&mut p, &v.0);
                flags = 0xC0;
                typ = 25;
                proof {
                    assert(p@ =~= self@.payload_enc(opt_view(opt)));
                }
            },
            Attr::PmsiTunnel(v) => {
                p.push(v.flags);
                p.push(v.tunnel_type);
                write_be(&mut p, v.vni as u128, 3);
                write_bytes(&mut p, v.tid.as_slice());
                flags = 0xC0;
                typ = 22;
                proof {
                    assert(p@ =~= self@.payload_enc(opt_view(opt)));
                }
            },
            Attr::Aigp(v) => {
                p.push(1);
                write_be(&mut p, 11, 2);
                write_be(&mut p, v.aigp as u128, 8);
                flags = 0x80;
                typ = 26;
                proof {
                    assert(p@ =~= self@.payload_enc(opt_view(opt)));
                }
            },
            Attr::LargeCom(v) => {
                emit_large_community_list(&mut p, &v.0);
                flags = 0xC0;
                typ = 32;
                proof {
                    assert(p@ =~= self@.payload_enc(opt_view(opt)));
                }
            },
            Attr::Unknown { flags: f, typ: t, data } => {
                write_bytes(&mut p, data.as_slice());
                flags = *f;
                typ = *t;
                proof {
                    assert(p@ =~= self@.payload_enc(opt_view(opt)));
                }
            },
        }
        proof {
            assert(flags == self@.base_flags() && typ == self@.typ_code());
            assert(flags & 0x10 == 0);
        }
        emit_envelope(out, flags, typ, &p);
    }
}

/// Emitting a well-formed attribute value and parsing the value bytes back
/// returns the value.
#[verifier::rlimit(90)]
pub proof fn lemma_attr_payload_round_trip(v: AttrV, as4: bool, ctx: Option<ParseOptionV>)
    requires
        v.wf(as4, ctx),
    ensures
        sp_attr_payload(v.base_flags(), v.typ_code(), v.payload_enc(ctx), as4, ctx) == Ok::<
            _,
            BgpParseError,
        >(v),
{
    let p = v.payload_enc(ctx);
    lemma_pow256_consts();
    lemma_flag_consts();
    match v {
        AttrV::Origin(o) => {
            assert(p[0] == o.origin);
        },
        AttrV::As2Path(segs) => {
            crate::aspath::lemma_as2_path_round_trip(segs);
        },
        AttrV::As4Path(segs) => {
            crate::aspath::lemma_as4_path_round_trip(segs);
        },
        AttrV::NextHop(a) => {
            lemma_be_enc_len(a.next_hop as nat, 4);
            lemma_be_val_enc(a.next_hop as nat, 4);
            assert(p.subrange(0, 4) =~= be_enc(a.next_hop as nat, 4));
        },
        AttrV::Med(a) => {
            lemma_be_enc_len(a.med as nat, 4);
            lemma_be_val_enc(a.med as nat, 4);
            assert(p.subrange(0, 4) =~= be_enc(a.med as nat, 4));
        },
        AttrV::LocalPref(a) => {
            lemma_be_enc_len(a.local_pref as nat, 4);
            lemma_be_val_enc(a.local_pref as nat, 4);
            assert(p.subrange(0, 4) =~= be_enc(a.local_pref as nat, 4));
        },
        AttrV::AtomicAggregate(_) => {},
        AttrV::Aggregator(a) => {
            lemma_be_enc_len(a.asn as nat, 4);
            lemma_be_enc_len(a.ip as nat, 4);
            lemma_be_val_enc(a.asn as nat, 4);
            lemma_be_val_enc(a.ip as nat, 4);
            assert(p.subrange(0, 4) =~= be_enc(a.asn as nat, 4));
            assert(p.subrange(4, 8) =~= be_enc(a.ip as nat, 4));
        },
        AttrV::Aggregator2(a) => {
            lemma_be_enc_len(a.asn as nat, 2);
            lemma_be_enc_len(a.ip as nat, 4);
            lemma_be_val_enc(a.asn as nat, 2);
            lemma_be_val_enc(a.ip as nat, 4);
            assert(p.subrange(0, 2) =~= be_enc(a.asn as nat, 2));
            assert(p.subrange(2, 6) =~= be_enc(a.ip as nat, 4));
        },
        AttrV::Community(vs) => {
            lemma_u32_list_len_mod4(vs);
            crate::community::lemma_u32_list_round_trip(vs);
        },
        AttrV::OriginatorId(a) => {
            lemma_be_enc_len(a.id as nat, 4);
            lemma_be_val_enc(a.id as nat, 4);
            assert(p.subrange(0, 4) =~= be_enc(a.id as nat, 4));
        },
        AttrV::ClusterList(vs) => {
            lemma_u32_list_len_mod4(vs);
            crate::community::lemma_u32_list_round_trip(vs);
        },
        AttrV::MpReachNlri(m) => {
            crate::mp::lemma_mp_reach_round_trip(m, ctx);
        },
        AttrV::MpUnreachNlri(m) => {
            crate::mp::lemma_mp_unreach_round_trip(m, ctx);
        },
        AttrV::ExtendedCom(vs) => {
            lemma_fixed_list_len_mod(vs, enc_ext_community_value_fn(), 8);
            crate::community::lemma_ext_community_list_round_trip(vs);
        },
        AttrV::ExtIpv6Com(vs) => {
            lemma_fixed20_len(vs);
            crate::community::lemma_ext_ipv6_community_list_round_trip(vs);
        },
        AttrV::PmsiTunnel(t) => {
            lemma_be_enc_len(t.vni as nat, 3);
            lemma_be_val_enc(t.vni as nat, 3);
            assert(p[0] == t.flags && p[1] == t.tunnel_type);
            assert(p.subrange(2, 5) =~= be_enc(t.vni as nat, 3));
            assert(p.skip(5) =~= t.tid);
        },
        AttrV::Aigp(a) => {
            lemma_be_enc_len(11, 2);
            lemma_be_enc_len(a.aigp as nat, 8);
            lemma_be_val_enc(11, 2);
            lemma_be_val_enc(a.aigp as nat, 8);
            assert(p[0] == 1);
            assert(p.subrange(1, 3) =~= be_enc(11, 2));
            assert(p.subrange(3, 11) =~= be_enc(a.aigp as nat, 8));
        },
        AttrV::LargeCom(vs) => {
            lemma_fixed12_len(vs);
            crate::community::lemma_large_community_list_round_trip(vs);
        },
        AttrV::Unknown { flags, typ, data } => {},
    }
}

/// A run of four-byte records has length divisible by four.
pub proof fn lemma_u32_list_len_mod4(vs: Seq<u32>)
    ensures
        enc_list(vs, enc_u32val_fn()).len() == 4 * vs.len(),
        enc_list(vs, enc_u32val_fn()).len() % 4 == 0,
{
    assert forall|i: int| 0 <= i < vs.len() implies (#[trigger] enc_u32val_fn()(vs[i])).len()
        == 4 by {
        lemma_be_enc_len(vs[i] as nat, 4);
    }
    crate::list::lemma_enc_list_fixed(vs, enc_u32val_fn(), 4);
    assert(4 * vs.len() % 4 == 0) by (nonlinear_arith);
}

/// A run of eight-byte extended communities has length divisible by eight.
pub proof fn lemma_fixed_list_len_mod(
    vs: Seq<ExtCommunityValue>,
    g: spec_fn(ExtCommunityValue) -> Seq<u8>,
    w: int,
)
    requires
        g == enc_ext_community_value_fn(),
        w == 8,
    ensures
        enc_list(vs, g).len() == 8 * vs.len(),
        enc_list(vs, g).len() % 8 == 0,
{
    assert forall|i: int| 0 <= i < vs.len() implies (#[trigger] g(vs[i])).len() == 8 by {
        lemma_be_enc_len(vs[i].val as nat, 6);
    }
    crate::list::lemma_enc_list_fixed(vs, g, 8);
    assert(8 * vs.len() % 8 == 0) by (nonlinear_arith);
}

/// A run of twenty-byte IPv6 extended communities has length divisible by 20.
pub proof fn lemma_fixed20_len(vs: Seq<ExtIpv6CommunityValue>)
    ensures
        enc_list(vs, enc_ext_ipv6_community_value_fn()).len() == 20 * vs.len(),
        enc_list(vs, enc_ext_ipv6_community_value_fn()).len() % 20 == 0,
{
    assert forall|i: int| 0 <= i < vs.len() implies (#[trigger] enc_ext_ipv6_community_value_fn()(
        vs[i],
    )).len() == 20 by {
        lemma_be_enc_len(vs[i].global as nat, 16);
        lemma_be_enc_len(vs[i].local as nat, 2);
    }
    crate::list::lemma_enc_list_fixed(vs, enc_ext_ipv6_community_value_fn(), 20);
    assert(20 * vs.len() % 20 == 0) by (nonlinear_arith);
}

/// A run of twelve-byte large communities has length divisible by twelve.
pub proof fn lemma_fixed12_len(vs: Seq<LargeCommunityValue>)
    ensures
        enc_list(vs, enc_large_community_value_fn()).len() == 12 * vs.len(),
        enc_list(vs, enc_large_community_value_fn()).len() % 12 == 0,
{
    assert forall|i: int| 0 <= i < vs.len() implies (#[trigger] enc_large_community_value_fn()(
        vs[i],
    )).len() == 12 by {
        lemma_be_enc_len(vs[i].global as nat, 4);
        lemma_be_enc_len(vs[i].local1 as nat, 4);
        lemma_be_enc_len(vs[i].local2 as nat, 4);
    }
    crate::list::lemma_enc_list_fixed(vs, enc_large_community_value_fn(), 12);
    assert(12 * vs.len() % 12 == 0) by (nonlinear_arith);
}

/// Emitting a well-formed attribute and parsing it back returns it; the
/// envelope writes a one-byte length exactly when the value is shorter than
/// 256 bytes, and sets the extended-length flag bit exactly when it writes
/// two length bytes.
#[verifier::rlimit(90)]
pub proof fn lemma_attr_round_trip(v: AttrV, as4: bool, ctx: Option<ParseOptionV>, tail: Seq<u8>)
    requires
        v.wf(as4, ctx),
    ensures
        sp_attr(v.enc(ctx) + tail, as4, ctx) == Ok::<_, BgpParseError>(
            (v.enc(ctx).len() as int, v),
        ),
        v.enc(ctx).len() >= 3,
{
    let p = v.payload_enc(ctx);
    let f = v.base_flags();
    let t = v.typ_code();
    let e = v.enc(ctx);
    let s = e + tail;
    lemma_flag_consts();
    lemma_flag_bits(f);
    assert(f & 0x10 == 0);
    if p.len() < 256 {
        assert(s[0] == f && s[1] == t && s[2] == p.len() as u8);
        assert(s.subrange(3, 3 + p.len() as int) =~= p);
        assert(sp_envelope(s) == Ok::<_, BgpParseError>((3int, p.len() as int, f, t)));
    } else {
        lemma_pow256_consts();
        lemma_be_enc_len(p.len() as nat, 2);
        lemma_be_val_enc(p.len() as nat, 2);
        assert(s[0] == (f | 0x10) && s[1] == t);
        assert(s.subrange(2, 4) =~= be_enc(p.len() as nat, 2));
        assert(s.subrange(4, 4 + p.len() as int) =~= p);
        assert(sp_envelope(s) == Ok::<_, BgpParseError>((4int, p.len() as int, f, t)));
    }
    lemma_attr_payload_round_trip(v, as4, ctx);
}

/// Reads a run of attributes covering `pos..end`.
#[verifier::rlimit(90)]
pub fn parse_attr_list(
    input: &[u8],
    pos: usize,
    end: usize,
    as4: bool,
    opt: Option<&ParseOption>,
) -> (r: Result<Vec<Attr>, BgpParseError>)
    requires
        pos <= end <= input.len(),
    ensures
        match r {
            Ok(v) => sp_attr_list(input@.subrange(pos as int, end as int), as4, opt_view(opt))
                == Ok::<_, BgpParseError>(attr_views(v@)),
            Err(e) => sp_attr_list(input@.subrange(pos as int, end as int), as4, opt_view(opt))
                == Err::<Seq<AttrV>, _>(e),
        },
{
    let ghost whole = input@.subrange(pos as int, end as int);
    let ghost f = sp_attr_fn(as4, opt_view(opt));
    let mut acc: Vec<Attr> = Vec::new();
    let mut cur: usize = pos;
    proof {
        assert(attr_views(acc@) =~= Seq::<AttrV>::empty());
    }
    while cur < end
        invariant
            pos <= cur <= end <= input.len(),
            whole == input@.subrange(pos as int, end as int),
            f == sp_attr_fn(as4, opt_view(opt)),
            sp_list(whole, f) == match sp_list(input@.subrange(cur as int, end as int), f) {
                Ok(rest) => Ok::<Seq<AttrV>, BgpParseError>(attr_views(acc@) + rest),
                Err(e) => Err(e),
            },
        decreases end - cur,
    {
        let ghost seg = input@.subrange(cur as int, end as int);
        match parse_attr(input, cur, end, as4, opt) {
            Err(e) => {
                return Err(e);
            },
            Ok((n, v)) => {
                proof {
                    assert(seg.skip((n - cur) as int) =~= input@.subrange(n as int, end as int));
                    crate::list::lemma_sp_list_shift(
                        whole,
                        seg,
                        input@.subrange(n as int, end as int),
                        f,
                        attr_views(acc@),
                        (n - cur) as int,
                        v@,
                    );
                }
                let ghost pre = acc@;
                acc.push(v);
                proof {
                    assert(attr_views(acc@) =~= attr_views(pre) + seq![acc@[pre.len() as int]@]);
                }
                cur = n;
            },
        }
    }
    proof {
        assert(input@.subrange(cur as int, end as int).len() == 0);
        assert(attr_views(acc@) + Seq::<AttrV>::empty() =~= attr_views(acc@));
    }
    Ok(acc)
}

/// The requirement `Attr::emit` places on one attribute, as a predicate the
/// list emitter can quantify over.
pub open spec fn attr_emit_ok(a: AttrV, ctx: Option<ParseOptionV>) -> bool {
    &&& a.payload_enc(ctx).len() <= 0xffff
    &&& (a matches AttrV::MpReachNlri(m) ==> m.wf(ctx))
    &&& (a matches AttrV::MpUnreachNlri(m) ==> m.wf(ctx))
    &&& (a matches AttrV::As2Path(segs) ==> forall|i: int|
        0 <= i < segs.len() ==> (#[trigger] segs[i]).wf())
    &&& (a matches AttrV::As4Path(segs) ==> forall|i: int|
        0 <= i < segs.len() ==> (#[trigger] segs[i]).wf())
    &&& (a matches AttrV::ExtendedCom(vs) ==> forall|i: int|
        0 <= i < vs.len() ==> (#[trigger] vs[i]).wf())
    &&& (a matches AttrV::PmsiTunnel(v) ==> v.vni < 0x100_0000)
    &&& (a matches AttrV::Unknown { flags, .. } ==> flags & 0x10 == 0)
}

/// Appends a run of attributes.
#[verifier::rlimit(90)]
pub fn emit_attr_list(out: &mut Vec<u8>, list: &Vec<Attr>, opt: Option<&ParseOption>)
    requires
        forall|i: int| 0 <= i < list@.len() ==> attr_emit_ok(#[trigger] list@[i]@, opt_view(opt)),
    ensures
        final(out)@ == old(out)@ + enc_list(attr_views(list@), enc_attr_fn(opt_view(opt))),
{
    let mut i: usize = 0;
    proof {
        assert(attr_views(list@.subrange(0, 0int)) =~= Seq::<AttrV>::empty());
    }
    while i < list.len()
        invariant
            i <= list.len(),
            forall|j: int| 0 <= j < list@.len() ==> attr_emit_ok(
                #[trigger] list@[j]@,
                opt_view(opt),
            ),
            out@ == old(out)@ + enc_list(
                attr_views(list@.subrange(0, i as int)),
                enc_attr_fn(opt_view(opt)),
            ),
        decreases list.len() - i,
    {
        let v = &list[i];
        v.emit(out, opt);
        proof {
            crate::list::lemma_enc_list_snoc(
                attr_views(list@.subrange(0, i as int)),
                list@[i as int]@,
                enc_attr_fn(opt_view(opt)),
            );
            assert(attr_views(list@.subrange(0, i + 1)) =~= attr_views(
                list@.subrange(0, i as int),
            ) + seq![list@[i as int]@]);
        }
        i = i + 1;
    }
    proof {
        assert(list@.subrange(0, list@.len() as int) =~= list@);
    }
}

/// A list of well-formed attributes parses back from its encoding under the
/// same modes.
pub proof fn lemma_attr_list_round_trip(vs: Seq<AttrV>, as4: bool, ctx: Option<ParseOptionV>)
    requires
        forall|i: int| 0 <= i < vs.len() ==> (#[trigger] vs[i]).wf(as4, ctx),
    ensures
        sp_attr_list(enc_list(vs, enc_attr_fn(ctx)), as4, ctx) == Ok::<_, BgpParseError>(vs),
{
    assert forall|i: int, tail: Seq<u8>| 0 <= i < vs.len() implies #[trigger] sp_attr_fn(as4, ctx)(
        enc_attr_fn(ctx)(vs[i]) + tail,
    ) == Ok::<_, BgpParseError>((enc_attr_fn(ctx)(vs[i]).len() as int, vs[i])) by {
        lemma_attr_round_trip(vs[i], as4, ctx, tail);
    }
    assert forall|i: int| 0 <= i < vs.len() implies #[trigger] enc_attr_fn(ctx)(vs[i]).len() > 0 by {
        lemma_attr_round_trip(vs[i], as4, ctx, Seq::empty());
    }
    crate::list::lemma_list_round_trip(vs, sp_attr_fn(as4, ctx), enc_attr_fn(ctx));
}

} // verus!
