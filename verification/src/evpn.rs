//! EVPN route NLRI: MAC/IP advertisements, inclusive-multicast routes, and
//! the opaque carriage of Ethernet auto-discovery and Ethernet-segment routes.
use vstd::prelude::*;

use crate::error::BgpParseError;
use crate::list::sp_list;
use crate::nlri::{id_enc, id_wf, Ipv6Prefix};
use crate::types::{nlri_psize, parse_prefix, psize_spec, sp_prefix, RouteDistinguisher};
use crate::wire::{
    be_enc, be_val, lemma_be_enc_len, lemma_be_val_bound, lemma_be_val_enc, lemma_pow256_consts,
    pow256, read_be, read_bytes, write_be, write_bytes,
};

verus! {

/// The EVPN route-type registry.
#[derive(Clone, Copy, Debug, PartialEq, Eq, Structural)]
pub enum EvpnRouteType {
    EthernetAd,
    MacIpAdvRoute,
    IncMulticast,
    EthernetSr,
    Unknown(u8),
}

impl EvpnRouteType {
    pub open spec fn code_spec(self) -> u8 {
        match self {
            EvpnRouteType::EthernetAd => 1,
            EvpnRouteType::MacIpAdvRoute => 2,
            EvpnRouteType::IncMulticast => 3,
            EvpnRouteType::EthernetSr => 4,
            EvpnRouteType::Unknown(v) => v,
        }
    }

    pub fn code(self) -> (r: u8)
        ensures
            r == self.code_spec(),
    {
        match self {
            EvpnRouteType::EthernetAd => 1,
            EvpnRouteType::MacIpAdvRoute => 2,
            EvpnRouteType::IncMulticast => 3,
            EvpnRouteType::EthernetSr => 4,
            EvpnRouteType::Unknown(v) => v,
        }
    }

    pub fn of_code(v: u8) -> (r: EvpnRouteType)
        ensures
            r.code_spec() == v || (r is Unknown),
    {
        if v == 1 {
            EvpnRouteType::EthernetAd
        } else if v == 2 {
            EvpnRouteType::MacIpAdvRoute
        } else if v == 3 {
            EvpnRouteType::IncMulticast
        } else if v == 4 {
            EvpnRouteType::EthernetSr
        } else {
            EvpnRouteType::Unknown(v)
        }
    }
}

/// The header fields every EVPN route shares.
#[derive(Clone, Copy, Debug, PartialEq, Eq, Structural)]
pub struct Evpn {
    pub route_type: EvpnRouteType,
    pub rd: RouteDistinguisher,
    pub ether_tag: u32,
}

impl Evpn {
    pub fn rd(&self) -> (r: &RouteDistinguisher)
        ensures
            r == self.rd,
    {
        &self.rd
    }
}

/// The IP field of a MAC/IP advertisement: absent, four bytes or sixteen.
#[derive(Clone, Copy, Debug, PartialEq, Eq, Structural)]
pub enum EvpnIp {
    NoIp,
    V4(u32),
    V6(u128),
}

impl EvpnIp {
    /// The IP-length byte, in bits, then the address bytes.
    pub open spec fn enc(self) -> Seq<u8> {
        match self {
            EvpnIp::NoIp => seq![0u8],
            EvpnIp::V4(a) => seq![32u8] + be_enc(a as nat, 4),
            EvpnIp::V6(a) => seq![128u8] + be_enc(a as nat, 16),
        }
    }

    pub open spec fn ip_bytes(self) -> int {
        match self {
            EvpnIp::NoIp => 0,
            EvpnIp::V4(_) => 4,
            EvpnIp::V6(_) => 16,
        }
    }
}

/// A MAC/IP advertisement (route type 2).
#[derive(Clone, Copy, Debug, PartialEq, Eq, Structural)]
pub struct EvpnMac {
    pub id: u32,
    pub rd: RouteDistinguisher,
    pub esi_type: u8,
    pub esi: u128,
    pub ether_tag: u32,
    pub mac: u64,
    pub ip: EvpnIp,
    pub vni: u32,
}

/// An inclusive-multicast route (route type 3): the originator address is a
/// length-compressed prefix zero-extended to sixteen bytes.
#[derive(Clone, Copy, Debug, PartialEq, Eq, Structural)]
pub struct EvpnMulticast {
    pub id: u32,
    pub rd: RouteDistinguisher,
    pub ether_tag: u32,
    pub orig: Ipv6Prefix,
}

/// A route type carried opaquely (Ethernet auto-discovery and Ethernet
/// segment): its interior bytes are preserved exactly for re-emission.
#[derive(Clone, Debug)]
pub struct EvpnOpaque {
    pub id: u32,
    pub typ: u8,
    pub data: Vec<u8>,
}

/// One EVPN route.
#[derive(Clone, Debug)]
pub enum EvpnRoute {
    Mac(EvpnMac),
    Multicast(EvpnMulticast),
    Opaque(EvpnOpaque),
}

/// The mathematical shape of an EVPN route.
#[verifier::ext_equal]
pub ghost enum EvpnRouteV {
    Mac(EvpnMac),
    Multicast(EvpnMulticast),
    Opaque { id: u32, typ: u8, data: Seq<u8> },
}

impl View for EvpnRoute {
    type V = EvpnRouteV;

    open spec fn view(&self) -> EvpnRouteV {
        match self {
            EvpnRoute::Mac(m) => EvpnRouteV::Mac(*m),
            EvpnRoute::Multicast(m) => EvpnRouteV::Multicast(*m),
            EvpnRoute::Opaque(o) => EvpnRouteV::Opaque { id: o.id, typ: o.typ, data: o.data@ },
        }
    }
}

impl EvpnRouteV {
    pub open spec fn wf(self, ap: bool) -> bool {
        match self {
            EvpnRouteV::Mac(m) => m.rd.wf() && m.esi < pow256(9) && m.mac < pow256(6) && m.vni
                < pow256(3) && id_wf(m.id, ap),
            EvpnRouteV::Multicast(m) => m.rd.wf() && m.orig.wf() && id_wf(m.id, ap),
            EvpnRouteV::Opaque { id, typ, data } => (typ == 1 || typ == 4) && data.len() <= 255
                && id_wf(id, ap),
        }
    }

    /// The wire form: route type, the length of the remainder, the remainder.
    pub open spec fn enc(self, ap: bool) -> Seq<u8> {
        match self {
            EvpnRouteV::Mac(m) => id_enc(m.id, ap) + seq![2u8, (33 + m.ip.ip_bytes()) as u8]
                + m.rd.enc() + seq![m.esi_type] + be_enc(m.esi as nat, 9) + be_enc(
                m.ether_tag as nat,
                4,
            ) + seq![48u8] + be_enc(m.mac as nat, 6) + m.ip.enc() + be_enc(m.vni as nat, 3),
            EvpnRouteV::Multicast(m) => id_enc(m.id, ap) + seq![3u8, (12
                + m.orig.enc().len()) as u8] + m.rd.enc() + be_enc(m.ether_tag as nat, 4)
                + m.orig.enc(),
            EvpnRouteV::Opaque { id, typ, data } => id_enc(id, ap) + seq![typ, data.len() as u8]
                + data,
        }
    }
}

/// What one EVPN route parses to under Add-Path mode `ap`. A route whose
/// declared length overruns the slice, or whose interior does not fill its
/// declared length exactly, is malformed.
pub open spec fn sp_evpn_route(s: Seq<u8>, ap: bool) -> Result<(int, EvpnRouteV), BgpParseError> {
    let off: int = if ap {
        4
    } else {
        0
    };
    if s.len() < off + 2 {
        Err(BgpParseError::Truncated { needed: (off + 2) as usize })
    } else {
        let id: u32 = if ap {
            be_val(s.subrange(0, 4)) as u32
        } else {
            0
        };
        let typ = s[off];
        let rl = s[off + 1] as int;
        if s.len() < off + 2 + rl {
            Err(BgpParseError::Malformed)
        } else {
            let base = off + 2;
            if typ == 2 {
                sp_evpn_mac(s, base, rl, id)
            } else if typ == 3 {
                sp_evpn_multicast(s, base, rl, id)
            } else if typ == 1 || typ == 4 {
                Ok(
                    (
                        base + rl,
                        EvpnRouteV::Opaque { id, typ, data: s.subrange(base, base + rl) },
                    ),
                )
            } else {
                Err(BgpParseError::Malformed)
            }
        }
    }
}

/// The MAC/IP advertisement interior, at `base` with declared length `rl`.
pub open spec fn sp_evpn_mac(s: Seq<u8>, base: int, rl: int, id: u32) -> Result<
    (int, EvpnRouteV),
    BgpParseError,
> {
    if rl < 30 {
        Err(BgpParseError::Malformed)
    } else if s[base + 22] != 48 {
        Err(BgpParseError::Malformed)
    } else {
        let ip_len = s[base + 29];
        if ip_len == 0 {
            if rl != 33 {
                Err(BgpParseError::Malformed)
            } else {
                Ok((base + rl, sp_evpn_mac_value(s, base, id, EvpnIp::NoIp, 30)))
            }
        } else if ip_len == 32 {
            if rl != 37 {
                Err(BgpParseError::Malformed)
            } else {
                Ok(
                    (
                        base + rl,
                        sp_evpn_mac_value(
                            s,
                            base,
                            id,
                            EvpnIp::V4(be_val(s.subrange(base + 30, base + 34)) as u32),
                            34,
                        ),
                    ),
                )
            }
        } else if ip_len == 128 {
            if rl != 49 {
                Err(BgpParseError::Malformed)
            } else {
                Ok(
                    (
                        base + rl,
                        sp_evpn_mac_value(
                            s,
                            base,
                            id,
                            EvpnIp::V6(be_val(s.subrange(base + 30, base + 46)) as u128),
                            46,
                        ),
                    ),
                )
            }
        } else {
            Err(BgpParseError::Malformed)
        }
    }
}

/// The fields of a MAC/IP advertisement read at `base`; `vo` is the offset of
/// the trailing label field.
pub open spec fn sp_evpn_mac_value(s: Seq<u8>, base: int, id: u32, ip: EvpnIp, vo: int) -> EvpnRouteV {
    EvpnRouteV::Mac(
        EvpnMac {
            id,
            rd: RouteDistinguisher {
                typ: be_val(s.subrange(base, base + 2)) as u16,
                val: be_val(s.subrange(base + 2, base + 8)) as u64,
            },
            esi_type: s[base + 8],
            esi: be_val(s.subrange(base + 9, base + 18)) as u128,
            ether_tag: be_val(s.subrange(base + 18, base + 22)) as u32,
            mac: be_val(s.subrange(base + 23, base + 29)) as u64,
            ip,
            vni: be_val(s.subrange(base + vo, base + vo + 3)) as u32,
        },
    )
}

/// The inclusive-multicast interior, at `base` with declared length `rl`.
pub open spec fn sp_evpn_multicast(s: Seq<u8>, base: int, rl: int, id: u32) -> Result<
    (int, EvpnRouteV),
    BgpParseError,
> {
    if rl < 12 {
        Err(BgpParseError::Malformed)
    } else {
        match sp_prefix(s.subrange(base + 12, base + rl), 16) {
            Err(e) => Err(e),
            Ok((n, (addr, plen))) => if 12 + n != rl {
                Err(BgpParseError::Malformed)
            } else {
                Ok(
                    (
                        base + rl,
                        EvpnRouteV::Multicast(
                            EvpnMulticast {
                                id,
                                rd: RouteDistinguisher {
                                    typ: be_val(s.subrange(base, base + 2)) as u16,
                                    val: be_val(s.subrange(base + 2, base + 8)) as u64,
                                },
                                ether_tag: be_val(s.subrange(base + 8, base + 12)) as u32,
                                orig: Ipv6Prefix { addr, plen },
                            },
                        ),
                    ),
                )
            },
        }
    }
}

pub open spec fn sp_evpn_route_fn(ap: bool) -> spec_fn(Seq<u8>) -> Result<
    (int, EvpnRouteV),
    BgpParseError,
> {
    |t: Seq<u8>| sp_evpn_route(t, ap)
}

pub open spec fn enc_evpn_route_fn(ap: bool) -> spec_fn(EvpnRouteV) -> Seq<u8> {
    |v: EvpnRouteV| v.enc(ap)
}

/// What a run of EVPN routes parses to.
pub open spec fn sp_evpn_route_list(s: Seq<u8>, ap: bool) -> Result<Seq<EvpnRouteV>, BgpParseError> {
    sp_list(s, sp_evpn_route_fn(ap))
}

/// The shapes of a vector of EVPN routes.
pub open spec fn evpn_views(s: Seq<EvpnRoute>) -> Seq<EvpnRouteV> {
    s.map_values(|r: EvpnRoute| r@)
}

impl EvpnRoute {
    /// Reads one EVPN route.
    #[verifier::rlimit(90)]
    pub fn parse_nlri(input: &[u8], pos: usize, end: usize, ap: bool) -> (r: Result<
        (usize, EvpnRoute),
        BgpParseError,
    >)
        requires
            pos <= end <= input.len(),
        ensures
            match r {
                Ok((n, v)) => pos < n <= end && sp_evpn_route(
                    input@.subrange(pos as int, end as int),
                    ap,
                ) == Ok::<_, BgpParseError>(((n - pos) as int, v@)),
                Err(e) => sp_evpn_route(input@.subrange(pos as int, end as int), ap) == Err::<
                    (int, EvpnRouteV),
                    _,
                >(e),
            },
    {
        let ghost s = input@.subrange(pos as int, end as int);
        let mut cur: usize = pos;
        let mut id: u32 = 0;
        if ap {
            if end - pos < 2 + 4 {
                return Err(BgpParseError::Truncated { needed: 6 });
            }
            proof {
                assert(s.subrange(0, 4) =~= input@.subrange(pos as int, pos + 4));
                lemma_be_val_bound(input@.subrange(pos as int, pos + 4));
                lemma_pow256_consts();
            }
            id = read_be(input, pos, 4) as u32;
            cur = pos + 4;
        } else {
            if end - pos < 2 {
                return Err(BgpParseError::Truncated { needed: 2 });
            }
        }
        let ghost off = (cur - pos) as int;
        let typ = input[cur];
        let rl = input[cur + 1] as usize;
        proof {
            assert(s[off] == input@[cur as int]);
            assert(s[off + 1] == input@[cur + 1]);
        }
        if end - cur - 2 < rl {
            return Err(BgpParseError::Malformed);
        }
        let base = cur + 2;
        let ghost gb = (base - pos) as int;
        if typ == 2 {
            match parse_mac_interior(input, pos, end, base, rl, id) {
                Err(e) => Err(e),
                Ok(v) => {
                    proof {
                        assert(sp_evpn_route(s, ap) == Ok::<_, BgpParseError>((gb + rl, v@)));
                    }
                    Ok((base + rl, v))
                },
            }
        } else if typ == 3 {
            match parse_multicast_interior(input, pos, end, base, rl, id) {
                Err(e) => Err(e),
                Ok(v) => {
                    proof {
                        assert(sp_evpn_route(s, ap) == Ok::<_, BgpParseError>((gb + rl, v@)));
                    }
                    Ok((base + rl, v))
                },
            }
        } else if typ == 1 || typ == 4 {
            let data = read_bytes(input, base, rl);
            let v = EvpnRoute::Opaque(EvpnOpaque { id, typ, data });
            proof {
                assert(v@->Opaque_data =~= s.subrange(gb, gb + rl));
                assert(sp_evpn_route(s, ap) == Ok::<_, BgpParseError>((gb + rl, v@)));
            }
            Ok((base + rl, v))
        } else {
            return Err(BgpParseError::Malformed);
        }
    }

    /// Appends the wire form.
    #[verifier::rlimit(90)]
    pub fn emit(&self, out: &mut Vec<u8>, ap: bool)
        requires
            self@.wf(ap),
        ensures
            final(out)@ == old(out)@ + self@.enc(ap),
    {
        proof {
            lemma_pow256_consts();
        }
        match self {
            EvpnRoute::Mac(m) => {
                if ap {
                    write_be(out, m.id as u128, 4);
                }
                out.push(2);
                match m.ip {
                    EvpnIp::NoIp => out.push(33),
                    EvpnIp::V4(_) => out.push(37),
                    EvpnIp::V6(_) => out.push(49),
                }
                m.rd.emit(out);
                out.push(m.esi_type);
                write_be(out, m.esi, 9);
                write_be(out, m.ether_tag as u128, 4);
                out.push(48);
                write_be(out, m.mac as u128, 6);
                match m.ip {
                    EvpnIp::NoIp => out.push(0),
                    EvpnIp::V4(a) => {
                        out.push(32);
                        write_be(out, a as u128, 4);
                    },
                    EvpnIp::V6(a) => {
                        out.push(128);
                        write_be(out, a, 16);
                    },
                }
                write_be(out, m.vni as u128, 3);
                proof {
                    assert(final(out)@ =~= old(out)@ + self@.enc(ap));
                }
            },
            EvpnRoute::Multicast(m) => {
                if ap {
                    write_be(out, m.id as u128, 4);
                }
                out.push(3);
                let psz = nlri_psize(m.orig.plen);
                proof {
                    crate::types::lemma_psize_le_w(m.orig.plen as nat, 16);
                    lemma_be_enc_len(
                        (m.orig.addr as nat) / pow256((16 - psize_spec(m.orig.plen as nat)) as nat),
                        psize_spec(m.orig.plen as nat),
                    );
                }
                out.push(13 + psz as u8);
                m.rd.emit(out);
                write_be(out, m.ether_tag as u128, 4);
                crate::types::emit_prefix(out, m.orig.addr, m.orig.plen, 16);
                proof {
                    assert(final(out)@ =~= old(out)@ + self@.enc(ap));
                }
            },
            EvpnRoute::Opaque(o) => {
                if ap {
                    write_be(out, o.id as u128, 4);
                }
                out.push(o.typ);
                out.push(o.data.len() as u8);
                write_bytes(out, o.data.as_slice());
                proof {
                    assert(final(out)@ =~= old(out)@ + self@.enc(ap));
                }
            },
        }
    }
}

/// Reads the interior of a MAC/IP advertisement whose remainder of `rl` bytes
/// starts at `base`.
#[verifier::rlimit(90)]
fn parse_mac_interior(input: &[u8], pos: usize, end: usize, base: usize, rl: usize, id: u32) -> (r:
    Result<EvpnRoute, BgpParseError>)
    requires
        pos <= base <= end <= input.len(),
        base + rl <= end,
    ensures
        match r {
            Ok(v) => sp_evpn_mac(
                input@.subrange(pos as int, end as int),
                (base - pos) as int,
                rl as int,
                id,
            ) == Ok::<_, BgpParseError>((base - pos + rl, v@)) && v is Mac,
            Err(e) => sp_evpn_mac(
                input@.subrange(pos as int, end as int),
                (base - pos) as int,
                rl as int,
                id,
            ) == Err::<(int, EvpnRouteV), _>(e),
        },
{
    let ghost s = input@.subrange(pos as int, end as int);
    let ghost gb = (base - pos) as int;
    if rl < 30 {
        return Err(BgpParseError::Malformed);
    }
    proof {
        assert(s[gb + 22] == input@[base + 22]);
        assert(s[gb + 29] == input@[base + 29]);
    }
    if input[base + 22] != 48 {
        return Err(BgpParseError::Malformed);
    }
    let ip_len = input[base + 29];
    let (ip, vo): (EvpnIp, usize) = if ip_len == 0 {
        if rl != 33 {
            return Err(BgpParseError::Malformed);
        }
        (EvpnIp::NoIp, 30)
    } else if ip_len == 32 {
        if rl != 37 {
            return Err(BgpParseError::Malformed);
        }
        proof {
            assert(s.subrange(gb + 30, gb + 34) =~= input@.subrange(base + 30, base + 34));
            lemma_be_val_bound(input@.subrange(base + 30, base + 34));
            lemma_pow256_consts();
        }
        (EvpnIp::V4(read_be(input, base + 30, 4) as u32), 34)
    } else if ip_len == 128 {
        if rl != 49 {
            return Err(BgpParseError::Malformed);
        }
        proof {
            assert(s.subrange(gb + 30, gb + 46) =~= input@.subrange(base + 30, base + 46));
        }
        (EvpnIp::V6(read_be(input, base + 30, 16)), 46)
    } else {
        return Err(BgpParseError::Malformed);
    };
    proof {
        assert(s.subrange(gb, gb + 2) =~= input@.subrange(base as int, base + 2));
        assert(s.subrange(gb + 2, gb + 8) =~= input@.subrange(base + 2, base + 8));
        assert(s[gb + 8] == input@[base + 8]);
        assert(s.subrange(gb + 9, gb + 18) =~= input@.subrange(base + 9, base + 18));
        assert(s.subrange(gb + 18, gb + 22) =~= input@.subrange(base + 18, base + 22));
        assert(s.subrange(gb + 23, gb + 29) =~= input@.subrange(base + 23, base + 29));
        assert(s.subrange(gb + vo, gb + vo + 3) =~= input@.subrange(base + vo, base + vo + 3));
        lemma_be_val_bound(input@.subrange(base as int, base + 2));
        lemma_be_val_bound(input@.subrange(base + 2, base + 8));
        lemma_be_val_bound(input@.subrange(base + 9, base + 18));
        lemma_be_val_bound(input@.subrange(base + 18, base + 22));
        lemma_be_val_bound(input@.subrange(base + 23, base + 29));
        lemma_be_val_bound(input@.subrange(base + vo, base + vo + 3));
        lemma_pow256_consts();
    }
    let rd = RouteDistinguisher {
        typ: read_be(input, base, 2) as u16,
        val: read_be(input, base + 2, 6) as u64,
    };
    let esi_type = input[base + 8];
    let esi = read_be(input, base + 9, 9);
    let ether_tag = read_be(input, base + 18, 4) as u32;
    let mac = read_be(input, base + 23, 6) as u64;
    let vni = read_be(input, base + vo, 3) as u32;
    let v = EvpnRoute::Mac(EvpnMac { id, rd, esi_type, esi, ether_tag, mac, ip, vni });
    proof {
        assert(sp_evpn_mac(s, gb, rl as int, id) == Ok::<_, BgpParseError>((gb + rl, v@)));
    }
    Ok(v)
}

/// Reads the interior of an inclusive-multicast route whose remainder of `rl`
/// bytes starts at `base`.
#[verifier::rlimit(90)]
fn parse_multicast_interior(
    input: &[u8],
    pos: usize,
    end: usize,
    base: usize,
    rl: usize,
    id: u32,
) -> (r: Result<EvpnRoute, BgpParseError>)
    requires
        pos <= base <= end <= input.len(),
        base + rl <= end,
    ensures
        match r {
            Ok(v) => sp_evpn_multicast(
                input@.subrange(pos as int, end as int),
                (base - pos) as int,
                rl as int,
                id,
            ) == Ok::<_, BgpParseError>((base - pos + rl, v@)) && v is Multicast,
            Err(e) => sp_evpn_multicast(
                input@.subrange(pos as int, end as int),
                (base - pos) as int,
                rl as int,
                id,
            ) == Err::<(int, EvpnRouteV), _>(e),
        },
{
    let ghost s = input@.subrange(pos as int, end as int);
    let ghost gb = (base - pos) as int;
    if rl < 12 {
        return Err(BgpParseError::Malformed);
    }
    proof {
        assert(s.subrange(gb + 12, gb + rl) =~= input@.subrange(base + 12, base + rl));
        assert(s.subrange(gb, gb + 2) =~= input@.subrange(base as int, base + 2));
        assert(s.subrange(gb + 2, gb + 8) =~= input@.subrange(base + 2, base + 8));
        assert(s.subrange(gb + 8, gb + 12) =~= input@.subrange(base + 8, base + 12));
        lemma_be_val_bound(input@.subrange(base as int, base + 2));
        lemma_be_val_bound(input@.subrange(base + 2, base + 8));
        lemma_be_val_bound(input@.subrange(base + 8, base + 12));
        lemma_pow256_consts();
    }
    match parse_prefix(input, base + 12, base + rl, 16) {
        Err(e) => Err(e),
        Ok((n, (addr, plen))) => {
            if n != base + rl {
                return Err(BgpParseError::Malformed);
            }
            let rd = RouteDistinguisher {
                typ: read_be(input, base, 2) as u16,
                val: read_be(input, base + 2, 6) as u64,
            };
            let ether_tag = read_be(input, base + 8, 4) as u32;
            let v = EvpnRoute::Multicast(
                EvpnMulticast { id, rd, ether_tag, orig: Ipv6Prefix { addr, plen } },
            );
            proof {
                assert(sp_evpn_multicast(s, gb, rl as int, id) == Ok::<_, BgpParseError>(
                    (gb + rl, v@),
                ));
            }
            Ok(v)
        },
    }
}


/// Emitting a well-formed EVPN route and parsing it back under the same
/// Add-Path mode returns the route.
#[verifier::rlimit(90)]
pub proof fn lemma_evpn_route_round_trip(v: EvpnRouteV, ap: bool, tail: Seq<u8>)
    requires
        v.wf(ap),
    ensures
        sp_evpn_route(v.enc(ap) + tail, ap) == Ok::<_, BgpParseError>(
            (v.enc(ap).len() as int, v),
        ),
        v.enc(ap).len() > 0,
{
    let s = v.enc(ap) + tail;
    let off: int = if ap {
        4
    } else {
        0
    };
    lemma_pow256_consts();
    match v {
        EvpnRouteV::Mac(m) => {
            let ipn = m.ip.ip_bytes();
            let rl = 33 + ipn;
            let base = off + 2;
            lemma_be_enc_len(m.id as nat, 4);
            lemma_be_enc_len(m.rd.typ as nat, 2);
            lemma_be_enc_len(m.rd.val as nat, 6);
            lemma_be_enc_len(m.esi as nat, 9);
            lemma_be_enc_len(m.ether_tag as nat, 4);
            lemma_be_enc_len(m.mac as nat, 6);
            lemma_be_enc_len(m.vni as nat, 3);
            match m.ip {
                EvpnIp::NoIp => {},
                EvpnIp::V4(a) => {
                    lemma_be_enc_len(a as nat, 4);
                },
                EvpnIp::V6(a) => {
                    lemma_be_enc_len(a as nat, 16);
                },
            }
            if ap {
                lemma_be_val_enc(m.id as nat, 4);
                assert(s.subrange(0, 4) =~= be_enc(m.id as nat, 4));
            }
            assert(s[off] == 2 && s[off + 1] == rl);
            assert(s.subrange(base, base + 2) =~= be_enc(m.rd.typ as nat, 2));
            assert(s.subrange(base + 2, base + 8) =~= be_enc(m.rd.val as nat, 6));
            assert(s[base + 8] == m.esi_type);
            assert(s.subrange(base + 9, base + 18) =~= be_enc(m.esi as nat, 9));
            assert(s.subrange(base + 18, base + 22) =~= be_enc(m.ether_tag as nat, 4));
            assert(s[base + 22] == 48);
            assert(s.subrange(base + 23, base + 29) =~= be_enc(m.mac as nat, 6));
            lemma_be_val_enc(m.rd.typ as nat, 2);
            lemma_be_val_enc(m.rd.val as nat, 6);
            lemma_be_val_enc(m.esi as nat, 9);
            lemma_be_val_enc(m.ether_tag as nat, 4);
            lemma_be_val_enc(m.mac as nat, 6);
            lemma_be_val_enc(m.vni as nat, 3);
            match m.ip {
                EvpnIp::NoIp => {
                    assert(s[base + 29] == 0);
                    assert(s.subrange(base + 30, base + 33) =~= be_enc(m.vni as nat, 3));
                },
                EvpnIp::V4(a) => {
                    assert(s[base + 29] == 32);
                    assert(s.subrange(base + 30, base + 34) =~= be_enc(a as nat, 4));
                    lemma_be_val_enc(a as nat, 4);
                    assert(s.subrange(base + 34, base + 37) =~= be_enc(m.vni as nat, 3));
                },
                EvpnIp::V6(a) => {
                    assert(s[base + 29] == 128);
                    assert(s.subrange(base + 30, base + 46) =~= be_enc(a as nat, 16));
                    lemma_be_val_enc(a as nat, 16);
                    assert(s.subrange(base + 46, base + 49) =~= be_enc(m.vni as nat, 3));
                },
            }
            assert(sp_evpn_route(s, ap) == Ok::<_, BgpParseError>((v.enc(ap).len() as int, v)));
        },
        EvpnRouteV::Multicast(m) => {
            let pe = m.orig.enc();
            let psz = psize_spec(m.orig.plen as nat);
            crate::types::lemma_psize_le_w(m.orig.plen as nat, 16);
            lemma_be_enc_len(
                (m.orig.addr as nat) / pow256((16 - psz) as nat),
                psz,
            );
            let rl = 12 + pe.len() as int;
            let base = off + 2;
            lemma_be_enc_len(m.id as nat, 4);
            lemma_be_enc_len(m.rd.typ as nat, 2);
            lemma_be_enc_len(m.rd.val as nat, 6);
            lemma_be_enc_len(m.ether_tag as nat, 4);
            if ap {
                lemma_be_val_enc(m.id as nat, 4);
                assert(s.subrange(0, 4) =~= be_enc(m.id as nat, 4));
            }
            assert(s[off] == 3 && s[off + 1] == rl);
            assert(s.subrange(base, base + 2) =~= be_enc(m.rd.typ as nat, 2));
            assert(s.subrange(base + 2, base + 8) =~= be_enc(m.rd.val as nat, 6));
            assert(s.subrange(base + 8, base + 12) =~= be_enc(m.ether_tag as nat, 4));
            lemma_be_val_enc(m.rd.typ as nat, 2);
            lemma_be_val_enc(m.rd.val as nat, 6);
            lemma_be_val_enc(m.ether_tag as nat, 4);
            crate::types::lemma_prefix_round_trip(m.orig.addr, m.orig.plen, 16, Seq::empty());
            assert(s.subrange(base + 12, base + rl) =~= pe + Seq::<u8>::empty());
            assert(sp_evpn_route(s, ap) == Ok::<_, BgpParseError>((v.enc(ap).len() as int, v)));
        },
        EvpnRouteV::Opaque { id, typ, data } => {
            let base = off + 2;
            lemma_be_enc_len(id as nat, 4);
            if ap {
                lemma_be_val_enc(id as nat, 4);
                assert(s.subrange(0, 4) =~= be_enc(id as nat, 4));
            }
            assert(s[off] == typ && s[off + 1] == data.len());
            assert(s.subrange(base, base + data.len() as int) =~= data);
            assert(sp_evpn_route(s, ap) == Ok::<_, BgpParseError>(
                (v.enc(ap).len() as int, v),
            ));
        },
    }
}

/// A list of well-formed EVPN routes parses back from its encoding.
pub proof fn lemma_evpn_route_list_round_trip(vs: Seq<EvpnRouteV>, ap: bool)
    requires
        forall|i: int| 0 <= i < vs.len() ==> #[trigger] vs[i].wf(ap),
    ensures
        sp_evpn_route_list(crate::list::enc_list(vs, enc_evpn_route_fn(ap)), ap) == Ok::<
            _,
            BgpParseError,
        >(vs),
{
    assert forall|i: int, tail: Seq<u8>| 0 <= i < vs.len() implies #[trigger] sp_evpn_route_fn(ap)(
        enc_evpn_route_fn(ap)(vs[i]) + tail,
    ) == Ok::<_, BgpParseError>((enc_evpn_route_fn(ap)(vs[i]).len() as int, vs[i])) by {
        lemma_evpn_route_round_trip(vs[i], ap, tail);
    }
    assert forall|i: int| 0 <= i < vs.len() implies #[trigger] enc_evpn_route_fn(ap)(
        vs[i],
    ).len() > 0 by {
        lemma_evpn_route_round_trip(vs[i], ap, Seq::empty());
    }
    crate::list::lemma_list_round_trip(vs, sp_evpn_route_fn(ap), enc_evpn_route_fn(ap));
}

/// Parses a run of EVPN routes covering `pos..end`.
pub fn parse_evpn_route_list(input: &[u8], pos: usize, end: usize, ap: bool) -> (r: Result<
    Vec<EvpnRoute>,
    BgpParseError,
>)
    requires
        pos <= end <= input.len(),
    ensures
        match r {
            Ok(v) => sp_evpn_route_list(input@.subrange(pos as int, end as int), ap) == Ok::<
                _,
                BgpParseError,
            >(evpn_views(v@)),
            Err(e) => sp_evpn_route_list(input@.subrange(pos as int, end as int), ap) == Err::<
                Seq<EvpnRouteV>,
                _,
            >(e),
        },
{
    let ghost whole = input@.subrange(pos as int, end as int);
    let ghost f = sp_evpn_route_fn(ap);
    let mut acc: Vec<EvpnRoute> = Vec::new();
    let mut cur: usize = pos;
    proof {
        assert(evpn_views(acc@) =~= Seq::<EvpnRouteV>::empty());
    }
    while cur < end
        invariant
            pos <= cur <= end <= input.len(),
            whole == input@.subrange(pos as int, end as int),
            f == sp_evpn_route_fn(ap),
            sp_list(whole, f) == match sp_list(input@.subrange(cur as int, end as int), f) {
                Ok(rest) => Ok::<Seq<EvpnRouteV>, BgpParseError>(evpn_views(acc@) + rest),
                Err(e) => Err(e),
            },
        decreases end - cur,
    {
        let ghost seg = input@.subrange(cur as int, end as int);
        match EvpnRoute::parse_nlri(input, cur, end, ap) {
            Err(e) => {
                return Err(e);
            },
            Ok((n, v)) => {
                proof {
                    assert(seg.skip((n - cur) as int) =~= input@.subrange(n as int, end as int));
                    crate::list::lemma_sp_list_shift(
                        whole,
                        seg,
                        input@.subrange(n as int, end as int),
                        f,
                        evpn_views(acc@),
                        (n - cur) as int,
                        v@,
                    );
                }
                let ghost pre = acc@;
                acc.push(v);
                proof {
                    assert(evpn_views(acc@) =~= evpn_views(pre) + seq![acc@[pre.len() as int]@]);
                }
                cur = n;
            },
        }
    }
    proof {
        assert(input@.subrange(cur as int, end as int).len() == 0);
        assert(evpn_views(acc@) + Seq::<EvpnRouteV>::empty() =~= evpn_views(acc@));
    }
    Ok(acc)
}

/// Appends a run of EVPN routes.
pub fn emit_evpn_route_list(out: &mut Vec<u8>, list: &Vec<EvpnRoute>, ap: bool)
    requires
        forall|i: int| 0 <= i < list@.len() ==> (#[trigger] list@[i]@).wf(ap),
    ensures
        final(out)@ == old(out)@ + crate::list::enc_list(evpn_views(list@), enc_evpn_route_fn(ap)),
{
    let mut i: usize = 0;
    proof {
        assert(evpn_views(list@.subrange(0, 0int)) =~= Seq::<EvpnRouteV>::empty());
    }
    while i < list.len()
        invariant
            i <= list.len(),
            forall|j: int| 0 <= j < list@.len() ==> (#[trigger] list@[j]@).wf(ap),
            out@ == old(out)@ + crate::list::enc_list(
                evpn_views(list@.subrange(0, i as int)),
                enc_evpn_route_fn(ap),
            ),
        decreases list.len() - i,
    {
        let v = &list[i];
        v.emit(out, ap);
        proof {
            crate::list::lemma_enc_list_snoc(
                evpn_views(list@.subrange(0, i as int)),
                list@[i as int]@,
                enc_evpn_route_fn(ap),
            );
            assert(evpn_views(list@.subrange(0, i + 1)) =~= evpn_views(
                list@.subrange(0, i as int),
            ) + seq![list@[i as int]@]);
        }
        i = i + 1;
    }
    proof {
        assert(list@.subrange(0, list@.len() as int) =~= list@);
    }
}

} // verus!
