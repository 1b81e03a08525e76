//! Per-family NLRI records: IPv4 and IPv6 unicast prefixes, VPNv4 labelled
//! prefixes and route-target-constraint entries, with optional Add-Path
//! identifiers, and their list codecs.
use vstd::prelude::*;

use crate::community::ExtCommunityValue;
use crate::error::BgpParseError;
use crate::list::{enc_list, lemma_enc_list_snoc, lemma_list_round_trip, sp_list};
use crate::types::{
    emit_prefix, lemma_prefix_round_trip, lemma_psize_le_w, nlri_psize, parse_prefix, prefix_enc,
    prefix_wf, psize_spec, sp_prefix, Label, RouteDistinguisher,
};
use crate::wire::{
    be_enc, be_val, lemma_be_enc_len, lemma_be_val_bound, lemma_be_val_enc, lemma_pow256_consts,
    read_be, write_be,
};

verus! {

/// The Add-Path identifier prefix: four bytes when Add-Path is negotiated,
/// nothing otherwise. The emitters write the stored identifier, zero
/// included, whenever Add-Path is on, and never otherwise.
pub open spec fn id_enc(id: u32, ap: bool) -> Seq<u8> {
    if ap {
        be_enc(id as nat, 4)
    } else {
        Seq::empty()
    }
}

/// A value's identifier agrees with the Add-Path mode it is emitted under:
/// without Add-Path no identifier travels, so only zero is representable.
pub open spec fn id_wf(id: u32, ap: bool) -> bool {
    !ap ==> id == 0
}

/// An IPv4 prefix, zero-extended to the full four bytes.
#[derive(Clone, Copy, Debug, PartialEq, Eq, Structural)]
pub struct Ipv4Prefix {
    pub addr: u32,
    pub plen: u8,
}

impl Ipv4Prefix {
    pub open spec fn wf(self) -> bool {
        prefix_wf(self.addr as nat, self.plen as nat, 4)
    }

    pub open spec fn enc(self) -> Seq<u8> {
        prefix_enc(self.addr as nat, self.plen as nat, 4)
    }
}

/// An IPv6 prefix, zero-extended to the full sixteen bytes.
#[derive(Clone, Copy, Debug, PartialEq, Eq, Structural)]
pub struct Ipv6Prefix {
    pub addr: u128,
    pub plen: u8,
}

impl Ipv6Prefix {
    pub open spec fn wf(self) -> bool {
        prefix_wf(self.addr as nat, self.plen as nat, 16)
    }

    pub open spec fn enc(self) -> Seq<u8> {
        prefix_enc(self.addr as nat, self.plen as nat, 16)
    }
}

/// One IPv4-unicast NLRI entry: an optional path identifier and a prefix.
#[derive(Clone, Copy, Debug, PartialEq, Eq, Structural)]
pub struct Ipv4Nlri {
    pub id: u32,
    pub prefix: Ipv4Prefix,
}

/// One IPv6-unicast NLRI entry: an optional path identifier and a prefix.
#[derive(Clone, Copy, Debug, PartialEq, Eq, Structural)]
pub struct Ipv6Nlri {
    pub id: u32,
    pub prefix: Ipv6Prefix,
}

impl Ipv4Nlri {
    pub open spec fn wf(self, ap: bool) -> bool {
        self.prefix.wf() && id_wf(self.id, ap)
    }

    pub open spec fn enc(self, ap: bool) -> Seq<u8> {
        id_enc(self.id, ap) + self.prefix.enc()
    }

    /// Reads one IPv4 NLRI entry; `ap` says whether a path identifier leads.
    pub fn parse_nlri(input: &[u8], pos: usize, end: usize, ap: bool) -> (r: Result<
        (usize, Ipv4Nlri),
        BgpParseError,
    >)
        requires
            pos <= end <= input.len(),
        ensures
            match r {
                Ok((n, v)) => pos < n <= end && sp_ipv4_nlri(
                    input@.subrange(pos as int, end as int),
                    ap,
                ) == Ok::<_, BgpParseError>(((n - pos) as int, v)),
                Err(e) => sp_ipv4_nlri(input@.subrange(pos as int, end as int), ap) == Err::<
                    (int, Ipv4Nlri),
                    _,
                >(e),
            },
    {
        let ghost s = input@.subrange(pos as int, end as int);
        let mut cur: usize = pos;
        let mut id: u32 = 0;
        if ap {
            if end - pos < 4 {
                return Err(BgpParseError::Truncated { needed: 4 });
            }
            proof {
                assert(s.subrange(0, 4) =~= input@.subrange(pos as int, pos + 4));
                lemma_be_val_bound(input@.subrange(pos as int, pos + 4));
                lemma_pow256_consts();
            }
            id = read_be(input, pos, 4) as u32;
            cur = pos + 4;
        }
        proof {
            assert(s.skip((cur - pos) as int) =~= input@.subrange(cur as int, end as int));
        }
        match parse_prefix(input, cur, end, 4) {
            Err(e) => Err(e),
            Ok((n, (addr, plen))) => Ok(
                (n, Ipv4Nlri { id, prefix: Ipv4Prefix { addr: addr as u32, plen } }),
            ),
        }
    }

    /// Appends the wire form; the identifier is written exactly when
    /// Add-Path is on.
    pub fn emit(self, out: &mut Vec<u8>, ap: bool)
        requires
            self.wf(ap),
        ensures
            final(out)@ == old(out)@ + self.enc(ap),
    {
        proof {
            lemma_pow256_consts();
        }
        if ap {
            write_be(out, self.id as u128, 4);
        }
        emit_prefix(out, self.prefix.addr as u128, self.prefix.plen, 4);
        proof {
            assert(final(out)@ =~= old(out)@ + self.enc(ap));
        }
    }
}

/// What one IPv4 NLRI entry parses to under Add-Path mode `ap`. The parsed
/// address is a `u128` internally; it always fits four bytes.
pub open spec fn sp_ipv4_nlri(s: Seq<u8>, ap: bool) -> Result<(int, Ipv4Nlri), BgpParseError> {
    if ap {
        if s.len() < 4 {
            Err(BgpParseError::Truncated { needed: 4 })
        } else {
            match sp_prefix(s.skip(4), 4) {
                Err(e) => Err(e),
                Ok((n, (addr, plen))) => Ok(
                    (
                        4 + n,
                        Ipv4Nlri {
                            id: be_val(s.subrange(0, 4)) as u32,
                            prefix: Ipv4Prefix { addr: addr as u32, plen },
                        },
                    ),
                ),
            }
        }
    } else {
        match sp_prefix(s, 4) {
            Err(e) => Err(e),
            Ok((n, (addr, plen))) => Ok(
                (n, Ipv4Nlri { id: 0, prefix: Ipv4Prefix { addr: addr as u32, plen } }),
            ),
        }
    }
}

pub open spec fn sp_ipv4_nlri_fn(ap: bool) -> spec_fn(Seq<u8>) -> Result<
    (int, Ipv4Nlri),
    BgpParseError,
> {
    |t: Seq<u8>| sp_ipv4_nlri(t, ap)
}

pub open spec fn enc_ipv4_nlri_fn(ap: bool) -> spec_fn(Ipv4Nlri) -> Seq<u8> {
    |v: Ipv4Nlri| v.enc(ap)
}

/// What a run of IPv4 NLRI entries parses to.
pub open spec fn sp_ipv4_nlri_list(s: Seq<u8>, ap: bool) -> Result<Seq<Ipv4Nlri>, BgpParseError> {
    sp_list(s, sp_ipv4_nlri_fn(ap))
}

/// Emitting an IPv4 NLRI entry and parsing it back under the same Add-Path
/// mode returns the entry; in particular the path identifier is preserved.
pub proof fn lemma_ipv4_nlri_round_trip(v: Ipv4Nlri, ap: bool, tail: Seq<u8>)
    requires
        v.wf(ap),
    ensures
        sp_ipv4_nlri(v.enc(ap) + tail, ap) == Ok::<_, BgpParseError>(
            (v.enc(ap).len() as int, v),
        ),
        v.enc(ap).len() > 0,
{
    let s = v.enc(ap) + tail;
    let pe = v.prefix.enc();
    lemma_be_enc_len(v.prefix.addr as nat / crate::wire::pow256(
        (4 - psize_spec(v.prefix.plen as nat)) as nat,
    ), psize_spec(v.prefix.plen as nat));
    lemma_psize_le_w(v.prefix.plen as nat, 4);
    lemma_prefix_round_trip(v.prefix.addr as u128, v.prefix.plen, 4, tail);
    if ap {
        lemma_be_enc_len(v.id as nat, 4);
        lemma_pow256_consts();
        lemma_be_val_enc(v.id as nat, 4);
        assert(s.subrange(0, 4) =~= be_enc(v.id as nat, 4));
        assert(s.skip(4) =~= pe + tail);
    } else {
        assert(s =~= pe + tail);
    }
}

impl Ipv6Nlri {
    pub open spec fn wf(self, ap: bool) -> bool {
        self.prefix.wf() && id_wf(self.id, ap)
    }

    pub open spec fn enc(self, ap: bool) -> Seq<u8> {
        id_enc(self.id, ap) + self.prefix.enc()
    }

    /// Reads one IPv6 NLRI entry; `ap` says whether a path identifier leads.
    pub fn parse_nlri(input: &[u8], pos: usize, end: usize, ap: bool) -> (r: Result<
        (usize, Ipv6Nlri),
        BgpParseError,
    >)
        requires
            pos <= end <= input.len(),
        ensures
            match r {
                Ok((n, v)) => pos < n <= end && sp_ipv6_nlri(
                    input@.subrange(pos as int, end as int),
                    ap,
                ) == Ok::<_, BgpParseError>(((n - pos) as int, v)),
                Err(e) => sp_ipv6_nlri(input@.subrange(pos as int, end as int), ap) == Err::<
                    (int, Ipv6Nlri),
                    _,
                >(e),
            },
    {
        let ghost s = input@.subrange(pos as int, end as int);
        let mut cur: usize = pos;
        let mut id: u32 = 0;
        if ap {
            if end - pos < 4 {
                return Err(BgpParseError::Truncated { needed: 4 });
            }
            proof {
                assert(s.subrange(0, 4) =~= input@.subrange(pos as int, pos + 4));
                lemma_be_val_bound(input@.subrange(pos as int, pos + 4));
                lemma_pow256_consts();
            }
            id = read_be(input, pos, 4) as u32;
            cur = pos + 4;
        }
        proof {
            assert(s.skip((cur - pos) as int) =~= input@.subrange(cur as int, end as int));
        }
        match parse_prefix(input, cur, end, 16) {
            Err(e) => Err(e),
            Ok((n, (addr, plen))) => Ok(
                (n, Ipv6Nlri { id, prefix: Ipv6Prefix { addr, plen } }),
            ),
        }
    }

    /// Appends the wire form; the identifier is written exactly when
    /// Add-Path is on.
    pub fn emit(self, out: &mut Vec<u8>, ap: bool)
        requires
            self.wf(ap),
        ensures
            final(out)@ == old(out)@ + self.enc(ap),
    {
        proof {
            lemma_pow256_consts();
        }
        if ap {
            write_be(out, self.id as u128, 4);
        }
        emit_prefix(out, self.prefix.addr, self.prefix.plen, 16);
        proof {
            assert(final(out)@ =~= old(out)@ + self.enc(ap));
        }
    }
}

/// What one IPv6 NLRI entry parses to under Add-Path mode `ap`.
pub open spec fn sp_ipv6_nlri(s: Seq<u8>, ap: bool) -> Result<(int, Ipv6Nlri), BgpParseError> {
    if ap {
        if s.len() < 4 {
            Err(BgpParseError::Truncated { needed: 4 })
        } else {
            match sp_prefix(s.skip(4), 16) {
                Err(e) => Err(e),
                Ok((n, (addr, plen))) => Ok(
                    (
                        4 + n,
                        Ipv6Nlri {
                            id: be_val(s.subrange(0, 4)) as u32,
                            prefix: Ipv6Prefix { addr, plen },
                        },
                    ),
                ),
            }
        }
    } else {
        match sp_prefix(s, 16) {
            Err(e) => Err(e),
            Ok((n, (addr, plen))) => Ok((n, Ipv6Nlri { id: 0, prefix: Ipv6Prefix { addr, plen } })),
        }
    }
}

pub open spec fn sp_ipv6_nlri_fn(ap: bool) -> spec_fn(Seq<u8>) -> Result<
    (int, Ipv6Nlri),
    BgpParseError,
> {
    |t: Seq<u8>| sp_ipv6_nlri(t, ap)
}

pub open spec fn enc_ipv6_nlri_fn(ap: bool) -> spec_fn(Ipv6Nlri) -> Seq<u8> {
    |v: Ipv6Nlri| v.enc(ap)
}

/// What a run of IPv6 NLRI entries parses to.
pub open spec fn sp_ipv6_nlri_list(s: Seq<u8>, ap: bool) -> Result<Seq<Ipv6Nlri>, BgpParseError> {
    sp_list(s, sp_ipv6_nlri_fn(ap))
}

/// Emitting an IPv6 NLRI entry and parsing it back under the same Add-Path
/// mode returns the entry.
pub proof fn lemma_ipv6_nlri_round_trip(v: Ipv6Nlri, ap: bool, tail: Seq<u8>)
    requires
        v.wf(ap),
    ensures
        sp_ipv6_nlri(v.enc(ap) + tail, ap) == Ok::<_, BgpParseError>(
            (v.enc(ap).len() as int, v),
        ),
        v.enc(ap).len() > 0,
{
    let s = v.enc(ap) + tail;
    let pe = v.prefix.enc();
    lemma_be_enc_len(v.prefix.addr as nat / crate::wire::pow256(
        (16 - psize_spec(v.prefix.plen as nat)) as nat,
    ), psize_spec(v.prefix.plen as nat));
    lemma_psize_le_w(v.prefix.plen as nat, 16);
    lemma_prefix_round_trip(v.prefix.addr, v.prefix.plen, 16, tail);
    if ap {
        lemma_be_enc_len(v.id as nat, 4);
        lemma_pow256_consts();
        lemma_be_val_enc(v.id as nat, 4);
        assert(s.subrange(0, 4) =~= be_enc(v.id as nat, 4));
        assert(s.skip(4) =~= pe + tail);
    } else {
        assert(s =~= pe + tail);
    }
}

/// One VPNv4 NLRI entry: an optional path identifier, a three-byte label, an
/// eight-byte route distinguisher and an IPv4 prefix; the wire length field
/// counts the label and distinguisher as 88 bits.
#[derive(Clone, Copy, Debug, PartialEq, Eq, Structural)]
pub struct Vpnv4Nlri {
    pub label: Label,
    pub rd: RouteDistinguisher,
    pub nlri: Ipv4Nlri,
}

impl Vpnv4Nlri {
    pub open spec fn wf(self, ap: bool) -> bool {
        self.label.wf() && self.rd.wf() && self.nlri.wf(ap)
    }

    pub open spec fn enc(self, ap: bool) -> Seq<u8> {
        id_enc(self.nlri.id, ap) + seq![(self.nlri.prefix.plen + 88) as u8] + self.label.enc()
            + self.rd.enc() + be_enc(
            self.nlri.prefix.addr as nat / crate::wire::pow256(
                (4 - psize_spec(self.nlri.prefix.plen as nat)) as nat,
            ),
            psize_spec(self.nlri.prefix.plen as nat),
        )
    }

    /// Reads one VPNv4 NLRI entry.
    pub fn parse_nlri(input: &[u8], pos: usize, end: usize, ap: bool) -> (r: Result<
        (usize, Vpnv4Nlri),
        BgpParseError,
    >)
        requires
            pos <= end <= input.len(),
        ensures
            match r {
                Ok((n, v)) => pos < n <= end && sp_vpnv4_nlri(
                    input@.subrange(pos as int, end as int),
                    ap,
                ) == Ok::<_, BgpParseError>(((n - pos) as int, v)),
                Err(e) => sp_vpnv4_nlri(input@.subrange(pos as int, end as int), ap) == Err::<
                    (int, Vpnv4Nlri),
                    _,
                >(e),
            },
    {
        let ghost s = input@.subrange(pos as int, end as int);
        let mut cur: usize = pos;
        let mut id: u32 = 0;
        if ap {
            if end - pos < 4 {
                return Err(BgpParseError::Truncated { needed: 5 });
            }
            proof {
                assert(s.subrange(0, 4) =~= input@.subrange(pos as int, pos + 4));
                lemma_be_val_bound(input@.subrange(pos as int, pos + 4));
                lemma_pow256_consts();
            }
            id = read_be(input, pos, 4) as u32;
            cur = pos + 4;
        }
        let ghost off = (cur - pos) as int;
        if end - cur < 1 {
            return Err(BgpParseError::Truncated { needed: if ap { 5 } else { 1 } });
        }
        let plen_t = input[cur];
        proof {
            assert(s[off] == input@[cur as int]);
        }
        if plen_t < 88 || plen_t > 120 {
            return Err(BgpParseError::BadValue { typ: 0 });
        }
        let plen = plen_t - 88;
        let psz = nlri_psize(plen);
        if end - cur - 1 < 11 + psz {
            return Err(BgpParseError::Truncated { needed: 12 + psz });
        }
        proof {
            assert(s.subrange(off + 1, off + 4) =~= input@.subrange(cur + 1, cur + 4));
            assert(s.subrange(off + 4, off + 6) =~= input@.subrange(cur + 4, cur + 6));
            assert(s.subrange(off + 6, off + 12) =~= input@.subrange(cur + 6, cur + 12));
            assert(s.subrange(off + 12, off + 12 + psz) =~= input@.subrange(
                cur + 12,
                cur + 12 + psz,
            ));
            lemma_be_val_bound(input@.subrange(cur + 1, cur + 4));
            lemma_be_val_bound(input@.subrange(cur + 4, cur + 6));
            lemma_be_val_bound(input@.subrange(cur + 6, cur + 12));
            lemma_be_val_bound(input@.subrange(cur + 12, cur + 12 + psz));
            lemma_pow256_consts();
        }
        let n3 = read_be(input, cur + 1, 3) as u32;
        let label = Label { value: n3 / 16, exp: ((n3 / 2) % 8) as u8, bos: n3 % 2 == 1 };
        let typ = read_be(input, cur + 4, 2) as u16;
        let val = read_be(input, cur + 6, 6) as u64;
        let rd = RouteDistinguisher { typ, val };
        let pval = read_be(input, cur + 12, psz);
        let addr: u32 = if psz == 0 {
            proof {
                assert(s.subrange(off + 12, off + 12int).len() == 0);
                vstd::arithmetic::mul::lemma_mul_basics(crate::wire::pow256(
                    (4 - psize_spec(plen as nat)) as nat,
                ) as int);
            }
            0
        } else if psz == 4 {
            proof {
                vstd::arithmetic::mul::lemma_mul_basics(pval as int);
            }
            pval as u32
        } else {
            proof {
                crate::types::lemma_pow256_split(psz as nat, (4 - psz) as nat);
                crate::wire::lemma_pow256_pos((4 - psz) as nat);
                assert((pval as nat) * crate::wire::pow256((4 - psz) as nat) < crate::wire::pow256(
                    4,
                )) by (nonlinear_arith)
                    requires
                        (pval as nat) < crate::wire::pow256(psz as nat),
                        crate::wire::pow256(4) == crate::wire::pow256(psz as nat)
                            * crate::wire::pow256((4 - psz) as nat),
                        crate::wire::pow256((4 - psz) as nat) >= 1,
                ;
            }
            let p = crate::wire::pow256x(4 - psz);
            (pval as u32) * (p as u32)
        };
        let v = Vpnv4Nlri { label, rd, nlri: Ipv4Nlri { id, prefix: Ipv4Prefix { addr, plen } } };
        proof {
            assert(sp_vpnv4_nlri(s, ap) == Ok::<_, BgpParseError>((off + 12 + psz, v)));
        }
        Ok((cur + 12 + psz, v))
    }

    /// Appends the wire form.
    pub fn emit(self, out: &mut Vec<u8>, ap: bool)
        requires
            self.wf(ap),
        ensures
            final(out)@ == old(out)@ + self.enc(ap),
    {
        proof {
            lemma_pow256_consts();
            lemma_psize_le_w(self.nlri.prefix.plen as nat, 4);
        }
        if ap {
            write_be(out, self.nlri.id as u128, 4);
        }
        out.push(self.nlri.prefix.plen + 88);
        self.label.emit(out);
        self.rd.emit(out);
        let psz = nlri_psize(self.nlri.prefix.plen);
        if psz > 0 {
            let p = crate::wire::pow256x(4 - psz);
            proof {
                crate::types::lemma_pow256_split(psz as nat, (4 - psz) as nat);
                crate::wire::lemma_pow256_pos((4 - psz) as nat);
                assert((self.nlri.prefix.addr as nat) / crate::wire::pow256((4 - psz) as nat)
                    < crate::wire::pow256(psz as nat)) by (nonlinear_arith)
                    requires
                        (self.nlri.prefix.addr as nat) < crate::wire::pow256(psz as nat)
                            * crate::wire::pow256((4 - psz) as nat),
                        crate::wire::pow256((4 - psz) as nat) >= 1,
                ;
            }
            write_be(out, (self.nlri.prefix.addr as u128) / p, psz);
        } else {
            proof {
                assert((self.nlri.prefix.addr as nat) / crate::wire::pow256(4) == 0)
                    by (nonlinear_arith)
                    requires
                        (self.nlri.prefix.addr as nat) < crate::wire::pow256(4),
                        crate::wire::pow256(4) >= 1,
                ;
                assert(be_enc(0, 0) =~= Seq::<u8>::empty());
            }
        }
        proof {
            assert(final(out)@ =~= old(out)@ + self.enc(ap));
        }
    }
}

/// What one VPNv4 NLRI entry parses to under Add-Path mode `ap`.
pub open spec fn sp_vpnv4_nlri(s: Seq<u8>, ap: bool) -> Result<(int, Vpnv4Nlri), BgpParseError> {
    let off: int = if ap {
        4
    } else {
        0
    };
    if s.len() < off + 1 {
        Err(BgpParseError::Truncated { needed: (off + 1) as usize })
    } else {
        let id: u32 = if ap {
            be_val(s.subrange(0, 4)) as u32
        } else {
            0
        };
        let plen_t = s[off];
        if plen_t < 88 || plen_t > 120 {
            Err(BgpParseError::BadValue { typ: 0 })
        } else {
            let plen = (plen_t - 88) as u8;
            let psz = psize_spec(plen as nat);
            if s.len() < off + 12 + psz {
                Err(BgpParseError::Truncated { needed: (12 + psz) as usize })
            } else {
                let n3 = be_val(s.subrange(off + 1, off + 4));
                let label = Label {
                    value: (n3 / 16) as u32,
                    exp: ((n3 / 2) % 8) as u8,
                    bos: n3 % 2 == 1,
                };
                let rd = RouteDistinguisher {
                    typ: be_val(s.subrange(off + 4, off + 6)) as u16,
                    val: be_val(s.subrange(off + 6, off + 12)) as u64,
                };
                let addr = (be_val(s.subrange(off + 12, off + 12 + psz)) * crate::wire::pow256(
                    (4 - psz) as nat,
                )) as u32;
                Ok(
                    (
                        off + 12 + psz,
                        Vpnv4Nlri { label, rd, nlri: Ipv4Nlri { id, prefix: Ipv4Prefix { addr, plen } } },
                    ),
                )
            }
        }
    }
}

pub open spec fn sp_vpnv4_nlri_fn(ap: bool) -> spec_fn(Seq<u8>) -> Result<
    (int, Vpnv4Nlri),
    BgpParseError,
> {
    |t: Seq<u8>| sp_vpnv4_nlri(t, ap)
}

pub open spec fn enc_vpnv4_nlri_fn(ap: bool) -> spec_fn(Vpnv4Nlri) -> Seq<u8> {
    |v: Vpnv4Nlri| v.enc(ap)
}

/// What a run of VPNv4 NLRI entries parses to.
pub open spec fn sp_vpnv4_nlri_list(s: Seq<u8>, ap: bool) -> Result<Seq<Vpnv4Nlri>, BgpParseError> {
    sp_list(s, sp_vpnv4_nlri_fn(ap))
}

/// Emitting a VPNv4 NLRI entry and parsing it back under the same Add-Path
/// mode returns the entry.
pub proof fn lemma_vpnv4_nlri_round_trip(v: Vpnv4Nlri, ap: bool, tail: Seq<u8>)
    requires
        v.wf(ap),
    ensures
        sp_vpnv4_nlri(v.enc(ap) + tail, ap) == Ok::<_, BgpParseError>(
            (v.enc(ap).len() as int, v),
        ),
        v.enc(ap).len() > 0,
{
    let s = v.enc(ap) + tail;
    let off: int = if ap {
        4
    } else {
        0
    };
    let plen = v.nlri.prefix.plen;
    let psz = psize_spec(plen as nat);
    let pq = crate::wire::pow256((4 - psz) as nat);
    let hi = (v.nlri.prefix.addr as nat) / pq;
    lemma_pow256_consts();
    lemma_psize_le_w(plen as nat, 4);
    lemma_be_enc_len(v.nlri.id as nat, 4);
    lemma_be_enc_len(v.label.num(), 3);
    lemma_be_enc_len(v.rd.typ as nat, 2);
    lemma_be_enc_len(v.rd.val as nat, 6);
    lemma_be_enc_len(hi, psz);
    if ap {
        lemma_be_val_enc(v.nlri.id as nat, 4);
        assert(s.subrange(0, 4) =~= be_enc(v.nlri.id as nat, 4));
    }
    assert(s[off] == plen + 88);
    assert(s.subrange(off + 1, off + 4) =~= be_enc(v.label.num(), 3));
    assert(s.subrange(off + 4, off + 6) =~= be_enc(v.rd.typ as nat, 2));
    assert(s.subrange(off + 6, off + 12) =~= be_enc(v.rd.val as nat, 6));
    assert(s.subrange(off + 12, off + 12 + psz) =~= be_enc(hi, psz));
    // The label fields come back out of the 24-bit number.
    let n = v.label.num();
    lemma_be_val_enc(n, 3);
    let b: nat = if v.label.bos {
        1nat
    } else {
        0nat
    };
    vstd::arithmetic::div_mod::lemma_fundamental_div_mod_converse(
        n as int,
        16,
        v.label.value as int,
        (v.label.exp * 2 + b) as int,
    );
    vstd::arithmetic::div_mod::lemma_fundamental_div_mod_converse(
        n as int,
        2,
        (v.label.value * 8 + v.label.exp) as int,
        b as int,
    );
    vstd::arithmetic::div_mod::lemma_fundamental_div_mod_converse(
        (v.label.value * 8 + v.label.exp) as int,
        8,
        v.label.value as int,
        v.label.exp as int,
    );
    // The distinguisher and the address come back out of their bytes.
    lemma_be_val_enc(v.rd.typ as nat, 2);
    lemma_be_val_enc(v.rd.val as nat, 6);
    crate::types::lemma_pow256_split(psz, (4 - psz) as nat);
    crate::wire::lemma_pow256_pos((4 - psz) as nat);
    assert(hi < crate::wire::pow256(psz)) by (nonlinear_arith)
        requires
            (v.nlri.prefix.addr as nat) < crate::wire::pow256(psz) * pq,
            pq >= 1,
            hi == (v.nlri.prefix.addr as nat) / pq,
    ;
    lemma_be_val_enc(hi, psz);
    vstd::arithmetic::div_mod::lemma_fundamental_div_mod(v.nlri.prefix.addr as int, pq as int);
    assert(pq * hi == hi * pq) by (nonlinear_arith);
    assert(hi * pq == v.nlri.prefix.addr);
}

/// One route-target-constraint NLRI entry: an optional path identifier, the
/// origin AS number and a route-target extended community; the wire length
/// is always 96 bits.
#[derive(Clone, Copy, Debug, PartialEq, Eq, Structural)]
pub struct Rtcv4 {
    pub id: u32,
    pub asn: u32,
    pub rt: ExtCommunityValue,
}

impl Rtcv4 {
    pub open spec fn wf(self, ap: bool) -> bool {
        self.rt.wf() && id_wf(self.id, ap)
    }

    pub open spec fn enc(self, ap: bool) -> Seq<u8> {
        id_enc(self.id, ap) + seq![96u8] + be_enc(self.asn as nat, 4) + self.rt.enc()
    }

    /// Reads one route-target-constraint entry.
    pub fn parse_nlri(input: &[u8], pos: usize, end: usize, ap: bool) -> (r: Result<
        (usize, Rtcv4),
        BgpParseError,
    >)
        requires
            pos <= end <= input.len(),
        ensures
            match r {
                Ok((n, v)) => pos < n <= end && sp_rtcv4_nlri(
                    input@.subrange(pos as int, end as int),
                    ap,
                ) == Ok::<_, BgpParseError>(((n - pos) as int, v)),
                Err(e) => sp_rtcv4_nlri(input@.subrange(pos as int, end as int), ap) == Err::<
                    (int, Rtcv4),
                    _,
                >(e),
            },
    {
        let ghost s = input@.subrange(pos as int, end as int);
        let mut cur: usize = pos;
        let mut id: u32 = 0;
        if ap {
            if end - pos < 4 {
                return Err(BgpParseError::Truncated { needed: 5 });
            }
            proof {
                assert(s.subrange(0, 4) =~= input@.subrange(pos as int, pos + 4));
                lemma_be_val_bound(input@.subrange(pos as int, pos + 4));
                lemma_pow256_consts();
            }
            id = read_be(input, pos, 4) as u32;
            cur = pos + 4;
        }
        let ghost off = (cur - pos) as int;
        if end - cur < 1 {
            return Err(BgpParseError::Truncated { needed: if ap { 5 } else { 1 } });
        }
        let plen = input[cur];
        proof {
            assert(s[off] == input@[cur as int]);
        }
        if plen != 96 {
            return Err(BgpParseError::BadValue { typ: 0 });
        }
        if end - cur - 1 < 12 {
            return Err(BgpParseError::Truncated { needed: 13 });
        }
        proof {
            assert(s.subrange(off + 1, off + 5) =~= input@.subrange(cur + 1, cur + 5));
            assert(s[off + 5] == input@[cur + 5] && s[off + 6] == input@[cur + 6]);
            assert(s.subrange(off + 7, off + 13) =~= input@.subrange(cur + 7, cur + 13));
            lemma_be_val_bound(input@.subrange(cur + 1, cur + 5));
            lemma_be_val_bound(input@.subrange(cur + 7, cur + 13));
            lemma_pow256_consts();
        }
        let asn = read_be(input, cur + 1, 4) as u32;
        let high_type = input[cur + 5];
        let low_type = input[cur + 6];
        let val = read_be(input, cur + 7, 6) as u64;
        Ok((cur + 13, Rtcv4 { id, asn, rt: ExtCommunityValue { high_type, low_type, val } }))
    }

    /// Appends the wire form.
    pub fn emit(self, out: &mut Vec<u8>, ap: bool)
        requires
            self.wf(ap),
        ensures
            final(out)@ == old(out)@ + self.enc(ap),
    {
        proof {
            lemma_pow256_consts();
        }
        if ap {
            write_be(out, self.id as u128, 4);
        }
        out.push(96);
        write_be(out, self.asn as u128, 4);
        self.rt.encode(out);
        proof {
            assert(final(out)@ =~= old(out)@ + self.enc(ap));
        }
    }
}

/// What one route-target-constraint entry parses to under Add-Path mode `ap`.
pub open spec fn sp_rtcv4_nlri(s: Seq<u8>, ap: bool) -> Result<(int, Rtcv4), BgpParseError> {
    let off: int = if ap {
        4
    } else {
        0
    };
    if s.len() < off + 1 {
        Err(BgpParseError::Truncated { needed: (off + 1) as usize })
    } else {
        let id: u32 = if ap {
            be_val(s.subrange(0, 4)) as u32
        } else {
            0
        };
        if s[off] != 96 {
            Err(BgpParseError::BadValue { typ: 0 })
        } else if s.len() < off + 13 {
            Err(BgpParseError::Truncated { needed: 13 })
        } else {
            Ok(
                (
                    off + 13,
                    Rtcv4 {
                        id,
                        asn: be_val(s.subrange(off + 1, off + 5)) as u32,
                        rt: ExtCommunityValue {
                            high_type: s[off + 5],
                            low_type: s[off + 6],
                            val: be_val(s.subrange(off + 7, off + 13)) as u64,
                        },
                    },
                ),
            )
        }
    }
}

pub open spec fn sp_rtcv4_nlri_fn(ap: bool) -> spec_fn(Seq<u8>) -> Result<
    (int, Rtcv4),
    BgpParseError,
> {
    |t: Seq<u8>| sp_rtcv4_nlri(t, ap)
}

pub open spec fn enc_rtcv4_nlri_fn(ap: bool) -> spec_fn(Rtcv4) -> Seq<u8> {
    |v: Rtcv4| v.enc(ap)
}

/// What a run of route-target-constraint entries parses to.
pub open spec fn sp_rtcv4_nlri_list(s: Seq<u8>, ap: bool) -> Result<Seq<Rtcv4>, BgpParseError> {
    sp_list(s, sp_rtcv4_nlri_fn(ap))
}

/// Emitting a route-target-constraint entry and parsing it back under the
/// same Add-Path mode returns the entry.
pub proof fn lemma_rtcv4_nlri_round_trip(v: Rtcv4, ap: bool, tail: Seq<u8>)
    requires
        v.wf(ap),
    ensures
        sp_rtcv4_nlri(v.enc(ap) + tail, ap) == Ok::<_, BgpParseError>(
            (v.enc(ap).len() as int, v),
        ),
        v.enc(ap).len() > 0,
{
    let s = v.enc(ap) + tail;
    let off: int = if ap {
        4
    } else {
        0
    };
    lemma_pow256_consts();
    lemma_be_enc_len(v.id as nat, 4);
    lemma_be_enc_len(v.asn as nat, 4);
    lemma_be_enc_len(v.rt.val as nat, 6);
    if ap {
        lemma_be_val_enc(v.id as nat, 4);
        assert(s.subrange(0, 4) =~= be_enc(v.id as nat, 4));
    }
    assert(s[off] == 96);
    assert(s.subrange(off + 1, off + 5) =~= be_enc(v.asn as nat, 4));
    assert(s[off + 5] == v.rt.high_type && s[off + 6] == v.rt.low_type);
    assert(s.subrange(off + 7, off + 13) =~= be_enc(v.rt.val as nat, 6));
    lemma_be_val_enc(v.asn as nat, 4);
    lemma_be_val_enc(v.rt.val as nat, 6);
}


/// Parses a run of Ipv4Nlri entries covering `pos..end`.
pub fn parse_ipv4_nlri_list(input: &[u8], pos: usize, end: usize, ap: bool) -> (r: Result<
    Vec<Ipv4Nlri>,
    BgpParseError,
>)
    requires
        pos <= end <= input.len(),
    ensures
        match r {
            Ok(v) => sp_ipv4_nlri_list(input@.subrange(pos as int, end as int), ap) == Ok::<
                _,
                BgpParseError,
            >(v@),
            Err(e) => sp_ipv4_nlri_list(input@.subrange(pos as int, end as int), ap) == Err::<
                Seq<Ipv4Nlri>,
                _,
            >(e),
        },
{
    let ghost whole = input@.subrange(pos as int, end as int);
    let ghost f = sp_ipv4_nlri_fn(ap);
    let mut acc: Vec<Ipv4Nlri> = Vec::new();
    let mut cur: usize = pos;
    while cur < end
        invariant
            pos <= cur <= end <= input.len(),
            whole == input@.subrange(pos as int, end as int),
            f == sp_ipv4_nlri_fn(ap),
            sp_list(whole, f) == match sp_list(input@.subrange(cur as int, end as int), f) {
                Ok(rest) => Ok::<Seq<Ipv4Nlri>, BgpParseError>(acc@ + rest),
                Err(e) => Err(e),
            },
        decreases end - cur,
    {
        let ghost seg = input@.subrange(cur as int, end as int);
        match Ipv4Nlri::parse_nlri(input, cur, end, ap) {
            Err(e) => {
                return Err(e);
            },
            Ok((n, v)) => {
                proof {
                    assert(seg.skip((n - cur) as int) =~= input@.subrange(n as int, end as int));
                    crate::list::lemma_sp_list_shift(
                        whole,
                        seg,
                        input@.subrange(n as int, end as int),
                        f,
                        acc@,
                        (n - cur) as int,
                        v,
                    );
                }
                let ghost pre = acc@;
                acc.push(v);
                proof {
                    assert(acc@ =~= pre + seq![v]);
                }
                cur = n;
            },
        }
    }
    proof {
        assert(input@.subrange(cur as int, end as int).len() == 0);
        assert(acc@ + Seq::<Ipv4Nlri>::empty() =~= acc@);
    }
    Ok(acc)
}

/// Appends a run of Ipv4Nlri entries.
pub fn emit_ipv4_nlri_list(out: &mut Vec<u8>, list: &Vec<Ipv4Nlri>, ap: bool)
    requires
        forall|i: int| 0 <= i < list@.len() ==> (#[trigger] list@[i]).wf(ap),
    ensures
        final(out)@ == old(out)@ + enc_list(list@, enc_ipv4_nlri_fn(ap)),
{
    let mut i: usize = 0;
    proof {
        assert(list@.subrange(0, 0int) =~= Seq::<Ipv4Nlri>::empty());
    }
    while i < list.len()
        invariant
            i <= list.len(),
            forall|j: int| 0 <= j < list@.len() ==> (#[trigger] list@[j]).wf(ap),
            out@ == old(out)@ + enc_list(list@.subrange(0, i as int), enc_ipv4_nlri_fn(ap)),
        decreases list.len() - i,
    {
        let v = list[i];
        v.emit(out, ap);
        proof {
            lemma_enc_list_snoc(list@.subrange(0, i as int), list@[i as int], enc_ipv4_nlri_fn(ap));
            assert(list@.subrange(0, i + 1) =~= list@.subrange(0, i as int) + seq![list@[i as int]]);
        }
        i = i + 1;
    }
    proof {
        assert(list@.subrange(0, list@.len() as int) =~= list@);
    }
}

/// A list of well-formed Ipv4Nlri entries parses back from its encoding
/// under the same Add-Path mode.
pub proof fn lemma_ipv4_nlri_list_round_trip(vs: Seq<Ipv4Nlri>, ap: bool)
    requires
        forall|i: int| 0 <= i < vs.len() ==> (#[trigger] vs[i]).wf(ap),
    ensures
        sp_ipv4_nlri_list(enc_list(vs, enc_ipv4_nlri_fn(ap)), ap) == Ok::<_, BgpParseError>(vs),
{
    assert forall|i: int, tail: Seq<u8>| 0 <= i < vs.len() implies #[trigger] sp_ipv4_nlri_fn(ap)(
        enc_ipv4_nlri_fn(ap)(vs[i]) + tail,
    ) == Ok::<_, BgpParseError>((enc_ipv4_nlri_fn(ap)(vs[i]).len() as int, vs[i])) by {
        lemma_ipv4_nlri_round_trip(vs[i], ap, tail);
    }
    assert forall|i: int| 0 <= i < vs.len() implies #[trigger] enc_ipv4_nlri_fn(ap)(vs[i]).len() > 0 by {
        lemma_ipv4_nlri_round_trip(vs[i], ap, Seq::empty());
    }
    lemma_list_round_trip(vs, sp_ipv4_nlri_fn(ap), enc_ipv4_nlri_fn(ap));
}

/// Parses a run of Ipv6Nlri entries covering `pos..end`.
pub fn parse_ipv6_nlri_list(input: &[u8], pos: usize, end: usize, ap: bool) -> (r: Result<
    Vec<Ipv6Nlri>,
    BgpParseError,
>)
    requires
        pos <= end <= input.len(),
    ensures
        match r {
            Ok(v) => sp_ipv6_nlri_list(input@.subrange(pos as int, end as int), ap) == Ok::<
                _,
                BgpParseError,
            >(v@),
            Err(e) => sp_ipv6_nlri_list(input@.subrange(pos as int, end as int), ap) == Err::<
                Seq<Ipv6Nlri>,
                _,
            >(e),
        },
{
    let ghost whole = input@.subrange(pos as int, end as int);
    let ghost f = sp_ipv6_nlri_fn(ap);
    let mut acc: Vec<Ipv6Nlri> = Vec::new();
    let mut cur: usize = pos;
    while cur < end
        invariant
            pos <= cur <= end <= input.len(),
            whole == input@.subrange(pos as int, end as int),
            f == sp_ipv6_nlri_fn(ap),
            sp_list(whole, f) == match sp_list(input@.subrange(cur as int, end as int), f) {
                Ok(rest) => Ok::<Seq<Ipv6Nlri>, BgpParseError>(acc@ + rest),
                Err(e) => Err(e),
            },
        decreases end - cur,
    {
        let ghost seg = input@.subrange(cur as int, end as int);
        match Ipv6Nlri::parse_nlri(input, cur, end, ap) {
            Err(e) => {
                return Err(e);
            },
            Ok((n, v)) => {
                proof {
                    assert(seg.skip((n - cur) as int) =~= input@.subrange(n as int, end as int));
                    crate::list::lemma_sp_list_shift(
                        whole,
                        seg,
                        input@.subrange(n as int, end as int),
                        f,
                        acc@,
                        (n - cur) as int,
                        v,
                    );
                }
                let ghost pre = acc@;
                acc.push(v);
                proof {
                    assert(acc@ =~= pre + seq![v]);
                }
                cur = n;
            },
        }
    }
    proof {
        assert(input@.subrange(cur as int, end as int).len() == 0);
        assert(acc@ + Seq::<Ipv6Nlri>::empty() =~= acc@);
    }
    Ok(acc)
}

/// Appends a run of Ipv6Nlri entries.
pub fn emit_ipv6_nlri_list(out: &mut Vec<u8>, list: &Vec<Ipv6Nlri>, ap: bool)
    requires
        forall|i: int| 0 <= i < list@.len() ==> (#[trigger] list@[i]).wf(ap),
    ensures
        final(out)@ == old(out)@ + enc_list(list@, enc_ipv6_nlri_fn(ap)),
{
    let mut i: usize = 0;
    proof {
        assert(list@.subrange(0, 0int) =~= Seq::<Ipv6Nlri>::empty());
    }
    while i < list.len()
        invariant
            i <= list.len(),
            forall|j: int| 0 <= j < list@.len() ==> (#[trigger] list@[j]).wf(ap),
            out@ == old(out)@ + enc_list(list@.subrange(0, i as int), enc_ipv6_nlri_fn(ap)),
        decreases list.len() - i,
    {
        let v = list[i];
        v.emit(out, ap);
        proof {
            lemma_enc_list_snoc(list@.subrange(0, i as int), list@[i as int], enc_ipv6_nlri_fn(ap));
            assert(list@.subrange(0, i + 1) =~= list@.subrange(0, i as int) + seq![list@[i as int]]);
        }
        i = i + 1;
    }
    proof {
        assert(list@.subrange(0, list@.len() as int) =~= list@);
    }
}

/// A list of well-formed Ipv6Nlri entries parses back from its encoding
/// under the same Add-Path mode.
pub proof fn lemma_ipv6_nlri_list_round_trip(vs: Seq<Ipv6Nlri>, ap: bool)
    requires
        forall|i: int| 0 <= i < vs.len() ==> (#[trigger] vs[i]).wf(ap),
    ensures
        sp_ipv6_nlri_list(enc_list(vs, enc_ipv6_nlri_fn(ap)), ap) == Ok::<_, BgpParseError>(vs),
{
    assert forall|i: int, tail: Seq<u8>| 0 <= i < vs.len() implies #[trigger] sp_ipv6_nlri_fn(ap)(
        enc_ipv6_nlri_fn(ap)(vs[i]) + tail,
    ) == Ok::<_, BgpParseError>((enc_ipv6_nlri_fn(ap)(vs[i]).len() as int, vs[i])) by {
        lemma_ipv6_nlri_round_trip(vs[i], ap, tail);
    }
    assert forall|i: int| 0 <= i < vs.len() implies #[trigger] enc_ipv6_nlri_fn(ap)(vs[i]).len() > 0 by {
        lemma_ipv6_nlri_round_trip(vs[i], ap, Seq::empty());
    }
    lemma_list_round_trip(vs, sp_ipv6_nlri_fn(ap), enc_ipv6_nlri_fn(ap));
}

/// Parses a run of Vpnv4Nlri entries covering `pos..end`.
pub fn parse_vpnv4_nlri_list(input: &[u8], pos: usize, end: usize, ap: bool) -> (r: Result<
    Vec<Vpnv4Nlri>,
    BgpParseError,
>)
    requires
        pos <= end <= input.len(),
    ensures
        match r {
            Ok(v) => sp_vpnv4_nlri_list(input@.subrange(pos as int, end as int), ap) == Ok::<
                _,
                BgpParseError,
            >(v@),
            Err(e) => sp_vpnv4_nlri_list(input@.subrange(pos as int, end as int), ap) == Err::<
                Seq<Vpnv4Nlri>,
                _,
            >(e),
        },
{
    let ghost whole = input@.subrange(pos as int, end as int);
    let ghost f = sp_vpnv4_nlri_fn(ap);
    let mut acc: Vec<Vpnv4Nlri> = Vec::new();
    let mut cur: usize = pos;
    while cur < end
        invariant
            pos <= cur <= end <= input.len(),
            whole == input@.subrange(pos as int, end as int),
            f == sp_vpnv4_nlri_fn(ap),
            sp_list(whole, f) == match sp_list(input@.subrange(cur as int, end as int), f) {
                Ok(rest) => Ok::<Seq<Vpnv4Nlri>, BgpParseError>(acc@ + rest),
                Err(e) => Err(e),
            },
        decreases end - cur,
    {
        let ghost seg = input@.subrange(cur as int, end as int);
        match Vpnv4Nlri::parse_nlri(input, cur, end, ap) {
            Err(e) => {
                return Err(e);
            },
            Ok((n, v)) => {
                proof {
                    assert(seg.skip((n - cur) as int) =~= input@.subrange(n as int, end as int));
                    crate::list::lemma_sp_list_shift(
                        whole,
                        seg,
                        input@.subrange(n as int, end as int),
                        f,
                        acc@,
                        (n - cur) as int,
                        v,
                    );
                }
                let ghost pre = acc@;
                acc.push(v);
                proof {
                    assert(acc@ =~= pre + seq![v]);
                }
                cur = n;
            },
        }
    }
    proof {
        assert(input@.subrange(cur as int, end as int).len() == 0);
        assert(acc@ + Seq::<Vpnv4Nlri>::empty() =~= acc@);
    }
    Ok(acc)
}

/// Appends a run of Vpnv4Nlri entries.
pub fn emit_vpnv4_nlri_list(out: &mut Vec<u8>, list: &Vec<Vpnv4Nlri>, ap: bool)
    requires
        forall|i: int| 0 <= i < list@.len() ==> (#[trigger] list@[i]).wf(ap),
    ensures
        final(out)@ == old(out)@ + enc_list(list@, enc_vpnv4_nlri_fn(ap)),
{
    let mut i: usize = 0;
    proof {
        assert(list@.subrange(0, 0int) =~= Seq::<Vpnv4Nlri>::empty());
    }
    while i < list.len()
        invariant
            i <= list.len(),
            forall|j: int| 0 <= j < list@.len() ==> (#[trigger] list@[j]).wf(ap),
            out@ == old(out)@ + enc_list(list@.subrange(0, i as int), enc_vpnv4_nlri_fn(ap)),
        decreases list.len() - i,
    {
        let v = list[i];
        v.emit(out, ap);
        proof {
            lemma_enc_list_snoc(list@.subrange(0, i as int), list@[i as int], enc_vpnv4_nlri_fn(ap));
            assert(list@.subrange(0, i + 1) =~= list@.subrange(0, i as int) + seq![list@[i as int]]);
        }
        i = i + 1;
    }
    proof {
        assert(list@.subrange(0, list@.len() as int) =~= list@);
    }
}

/// A list of well-formed Vpnv4Nlri entries parses back from its encoding
/// under the same Add-Path mode.
pub proof fn lemma_vpnv4_nlri_list_round_trip(vs: Seq<Vpnv4Nlri>, ap: bool)
    requires
        forall|i: int| 0 <= i < vs.len() ==> (#[trigger] vs[i]).wf(ap),
    ensures
        sp_vpnv4_nlri_list(enc_list(vs, enc_vpnv4_nlri_fn(ap)), ap) == Ok::<_, BgpParseError>(vs),
{
    assert forall|i: int, tail: Seq<u8>| 0 <= i < vs.len() implies #[trigger] sp_vpnv4_nlri_fn(ap)(
        enc_vpnv4_nlri_fn(ap)(vs[i]) + tail,
    ) == Ok::<_, BgpParseError>((enc_vpnv4_nlri_fn(ap)(vs[i]).len() as int, vs[i])) by {
        lemma_vpnv4_nlri_round_trip(vs[i], ap, tail);
    }
    assert forall|i: int| 0 <= i < vs.len() implies #[trigger] enc_vpnv4_nlri_fn(ap)(vs[i]).len() > 0 by {
        lemma_vpnv4_nlri_round_trip(vs[i], ap, Seq::empty());
    }
    lemma_list_round_trip(vs, sp_vpnv4_nlri_fn(ap), enc_vpnv4_nlri_fn(ap));
}

/// Parses a run of Rtcv4 entries covering `pos..end`.
pub fn parse_rtcv4_nlri_list(input: &[u8], pos: usize, end: usize, ap: bool) -> (r: Result<
    Vec<Rtcv4>,
    BgpParseError,
>)
    requires
        pos <= end <= input.len(),
    ensures
        match r {
            Ok(v) => sp_rtcv4_nlri_list(input@.subrange(pos as int, end as int), ap) == Ok::<
                _,
                BgpParseError,
            >(v@),
            Err(e) => sp_rtcv4_nlri_list(input@.subrange(pos as int, end as int), ap) == Err::<
                Seq<Rtcv4>,
                _,
            >(e),
        },
{
    let ghost whole = input@.subrange(pos as int, end as int);
    let ghost f = sp_rtcv4_nlri_fn(ap);
    let mut acc: Vec<Rtcv4> = Vec::new();
    let mut cur: usize = pos;
    while cur < end
        invariant
            pos <= cur <= end <= input.len(),
            whole == input@.subrange(pos as int, end as int),
            f == sp_rtcv4_nlri_fn(ap),
            sp_list(whole, f) == match sp_list(input@.subrange(cur as int, end as int), f) {
                Ok(rest) => Ok::<Seq<Rtcv4>, BgpParseError>(acc@ + rest),
                Err(e) => Err(e),
            },
        decreases end - cur,
    {
        let ghost seg = input@.subrange(cur as int, end as int);
        match Rtcv4::parse_nlri(input, cur, end, ap) {
            Err(e) => {
                return Err(e);
            },
            Ok((n, v)) => {
                proof {
                    assert(seg.skip((n - cur) as int) =~= input@.subrange(n as int, end as int));
                    crate::list::lemma_sp_list_shift(
                        whole,
                        seg,
                        input@.subrange(n as int, end as int),
                        f,
                        acc@,
                        (n - cur) as int,
                        v,
                    );
                }
                let ghost pre = acc@;
                acc.push(v);
                proof {
                    assert(acc@ =~= pre + seq![v]);
                }
                cur = n;
            },
        }
    }
    proof {
        assert(input@.subrange(cur as int, end as int).len() == 0);
        assert(acc@ + Seq::<Rtcv4>::empty() =~= acc@);
    }
    Ok(acc)
}

/// Appends a run of Rtcv4 entries.
pub fn emit_rtcv4_nlri_list(out: &mut Vec<u8>, list: &Vec<Rtcv4>, ap: bool)
    requires
        forall|i: int| 0 <= i < list@.len() ==> (#[trigger] list@[i]).wf(ap),
    ensures
        final(out)@ == old(out)@ + enc_list(list@, enc_rtcv4_nlri_fn(ap)),
{
    let mut i: usize = 0;
    proof {
        assert(list@.subrange(0, 0int) =~= Seq::<Rtcv4>::empty());
    }
    while i < list.len()
        invariant
            i <= list.len(),
            forall|j: int| 0 <= j < list@.len() ==> (#[trigger] list@[j]).wf(ap),
            out@ == old(out)@ + enc_list(list@.subrange(0, i as int), enc_rtcv4_nlri_fn(ap)),
        decreases list.len() - i,
    {
        let v = list[i];
        v.emit(out, ap);
        proof {
            lemma_enc_list_snoc(list@.subrange(0, i as int), list@[i as int], enc_rtcv4_nlri_fn(ap));
            assert(list@.subrange(0, i + 1) =~= list@.subrange(0, i as int) + seq![list@[i as int]]);
        }
        i = i + 1;
    }
    proof {
        assert(list@.subrange(0, list@.len() as int) =~= list@);
    }
}

/// A list of well-formed Rtcv4 entries parses back from its encoding
/// under the same Add-Path mode.
pub proof fn lemma_rtcv4_nlri_list_round_trip(vs: Seq<Rtcv4>, ap: bool)
    requires
        forall|i: int| 0 <= i < vs.len() ==> (#[trigger] vs[i]).wf(ap),
    ensures
        sp_rtcv4_nlri_list(enc_list(vs, enc_rtcv4_nlri_fn(ap)), ap) == Ok::<_, BgpParseError>(vs),
{
    assert forall|i: int, tail: Seq<u8>| 0 <= i < vs.len() implies #[trigger] sp_rtcv4_nlri_fn(ap)(
        enc_rtcv4_nlri_fn(ap)(vs[i]) + tail,
    ) == Ok::<_, BgpParseError>((enc_rtcv4_nlri_fn(ap)(vs[i]).len() as int, vs[i])) by {
        lemma_rtcv4_nlri_round_trip(vs[i], ap, tail);
    }
    assert forall|i: int| 0 <= i < vs.len() implies #[trigger] enc_rtcv4_nlri_fn(ap)(vs[i]).len() > 0 by {
        lemma_rtcv4_nlri_round_trip(vs[i], ap, Seq::empty());
    }
    lemma_list_round_trip(vs, sp_rtcv4_nlri_fn(ap), enc_rtcv4_nlri_fn(ap));
}

} // verus!
