//! Leaf wire types: MPLS label stack entries, route distinguishers, and
//! length-compressed prefixes for the 4- and 16-byte address families.
use vstd::prelude::*;

use crate::error::BgpParseError;
use crate::wire::{
    be_enc, be_val, lemma_be_enc_len, lemma_be_val_bound, lemma_be_val_enc, lemma_pow256_mono,
    lemma_pow256_pos, pow256, pow256x, read_be, write_be,
};

verus! {

/// Bytes needed to carry `plen` prefix bits.
pub open spec fn psize_spec(plen: nat) -> nat {
    (plen + 7) / 8
}

/// Bytes needed to carry `plen` prefix bits.
pub fn nlri_psize(plen: u8) -> (r: usize)
    ensures
        r == psize_spec(plen as nat),
{
    (plen as usize + 7) / 8
}

/// A prefix of a `w`-byte address family is canonical when its length fits the
/// family width, the address fits `w` bytes, and the bytes the wire form does
/// not carry are zero.
pub open spec fn prefix_wf(addr: nat, plen: nat, w: nat) -> bool {
    &&& plen <= 8 * w
    &&& addr < pow256(w)
    &&& addr % pow256((w - psize_spec(plen)) as nat) == 0
}

/// The wire form of a prefix: one length byte, then only the bytes the length
/// covers, most significant first.
pub open spec fn prefix_enc(addr: nat, plen: nat, w: nat) -> Seq<u8> {
    seq![plen as u8] + be_enc(addr / pow256((w - psize_spec(plen)) as nat), psize_spec(plen))
}

/// What a length-compressed prefix of a `w`-byte family parses to: the address
/// is zero-extended to the full family width.
pub open spec fn sp_prefix(s: Seq<u8>, w: nat) -> Result<(int, (u128, u8)), BgpParseError> {
    if s.len() < 1 {
        Err(BgpParseError::Truncated { needed: 1 })
    } else {
        let plen = s[0];
        if plen as nat > 8 * w {
            Err(BgpParseError::BadValue { typ: 0 })
        } else {
            let psz = psize_spec(plen as nat);
            if s.len() < 1 + psz {
                Err(BgpParseError::Truncated { needed: (1 + psz) as usize })
            } else {
                Ok(
                    (
                        1 + psz as int,
                        (
                            (be_val(s.subrange(1, 1 + psz as int)) * pow256((w - psz) as nat)) as u128,
                            plen,
                        ),
                    ),
                )
            }
        }
    }
}

pub proof fn lemma_psize_le_w(plen: nat, w: nat)
    requires
        plen <= 8 * w,
    ensures
        psize_spec(plen) <= w,
{
    assert((8 * w + 7) / 8 == w) by (nonlinear_arith);
}

/// Reads one length-compressed prefix of a family whose addresses take `w` bytes.
#[verifier::rlimit(40)]
pub fn parse_prefix(input: &[u8], pos: usize, end: usize, w: usize) -> (r: Result<
    (usize, (u128, u8)),
    BgpParseError,
>)
    requires
        pos <= end <= input.len(),
        w == 4 || w == 16,
    ensures
        match r {
            Ok((n, v)) => pos <= n <= end && sp_prefix(
                input@.subrange(pos as int, end as int),
                w as nat,
            ) == Ok::<_, BgpParseError>(((n - pos) as int, v)),
            Err(e) => sp_prefix(input@.subrange(pos as int, end as int), w as nat) == Err::<
                (int, (u128, u8)),
                _,
            >(e),
        },
{
    let ghost s = input@.subrange(pos as int, end as int);
    if end - pos < 1 {
        return Err(BgpParseError::Truncated { needed: 1 });
    }
    let plen = input[pos];
    proof {
        assert(s[0] == input@[pos as int]);
    }
    if plen as usize > 8 * w {
        return Err(BgpParseError::BadValue { typ: 0 });
    }
    let psz = nlri_psize(plen);
    proof {
        lemma_psize_le_w(plen as nat, w as nat);
    }
    if end - pos - 1 < psz {
        return Err(BgpParseError::Truncated { needed: 1 + psz });
    }
    let val = read_be(input, pos + 1, psz);
    proof {
        assert(s.subrange(1, 1 + psz as int) =~= input@.subrange(pos + 1, pos + 1 + psz));
        lemma_be_val_bound(input@.subrange(pos + 1, pos + 1 + psz));
    }
    let addr: u128 = if psz == 0 {
        proof {
            assert(s.subrange(1, 1int).len() == 0);
            assert(val == 0);
            vstd::arithmetic::mul::lemma_mul_basics(pow256((w - psz) as nat) as int);
        }
        0
    } else if psz == w {
        proof {
            assert(pow256(0) == 1);
            vstd::arithmetic::mul::lemma_mul_basics(val as int);
        }
        val
    } else {
        proof {
            lemma_pow256_split(psz as nat, (w - psz) as nat);
            lemma_pow256_pos((w - psz) as nat);
            lemma_pow256_mono(w as nat, 16);
            crate::wire::lemma_pow256_consts();
            assert((val as nat) * pow256((w - psz) as nat) < pow256(w as nat)) by (nonlinear_arith)
                requires
                    (val as nat) < pow256(psz as nat),
                    pow256(w as nat) == pow256(psz as nat) * pow256((w - psz) as nat),
                    pow256((w - psz) as nat) >= 1,
            ;
        }
        let p = pow256x(w - psz);
        val * p
    };
    proof {
        assert(sp_prefix(s, w as nat) == Ok::<_, BgpParseError>((1 + psz as int, (addr, plen))));
    }
    Ok((pos + 1 + psz, (addr, plen)))
}

/// 256^(a+b) is the product of the two powers.
pub proof fn lemma_pow256_split(a: nat, b: nat)
    ensures
        pow256(a + b) == pow256(a) * pow256(b),
    decreases a,
{
    if a == 0 {
        assert(pow256(0) == 1);
        assert(pow256(0 + b) == 1 * pow256(b));
    } else {
        lemma_pow256_split((a - 1) as nat, b);
        assert(pow256(a + b) == 256 * pow256(((a - 1) + b) as nat));
        assert(256 * (pow256((a - 1) as nat) * pow256(b)) == (256 * pow256((a - 1) as nat))
            * pow256(b)) by (nonlinear_arith);
        assert(pow256(a) * pow256(b) == (256 * pow256((a - 1) as nat)) * pow256(b));
    }
}

/// Appends the wire form of a canonical prefix.
pub fn emit_prefix(out: &mut Vec<u8>, addr: u128, plen: u8, w: usize)
    requires
        w == 4 || w == 16,
        prefix_wf(addr as nat, plen as nat, w as nat),
    ensures
        final(out)@ == old(out)@ + prefix_enc(addr as nat, plen as nat, w as nat),
{
    out.push(plen);
    let psz = nlri_psize(plen);
    proof {
        lemma_psize_le_w(plen as nat, w as nat);
        lemma_pow256_split(psz as nat, (w - psz) as nat);
        lemma_pow256_pos((w - psz) as nat);
        lemma_pow256_mono((w - psz) as nat, 16);
        crate::wire::lemma_pow256_consts();
    }
    if psz == 0 {
        proof {
            assert((addr as nat) / pow256(w as nat) == 0) by (nonlinear_arith)
                requires
                    (addr as nat) < pow256(w as nat),
                    pow256(w as nat) >= 1,
            ;
            assert(final(out)@ =~= old(out)@ + prefix_enc(addr as nat, plen as nat, w as nat));
        }
    } else {
        let p = pow256x(w - psz);
        proof {
            assert((addr as nat) / pow256((w - psz) as nat) < pow256(psz as nat))
                by (nonlinear_arith)
                requires
                    (addr as nat) < pow256(psz as nat) * pow256((w - psz) as nat),
                    pow256((w - psz) as nat) >= 1,
            ;
        }
        write_be(out, addr / p, psz);
        proof {
            assert(final(out)@ =~= old(out)@ + prefix_enc(addr as nat, plen as nat, w as nat));
        }
    }
}

/// Emitting a canonical prefix and parsing it back, with anything after it,
/// returns exactly the prefix.
pub proof fn lemma_prefix_round_trip(addr: u128, plen: u8, w: nat, tail: Seq<u8>)
    requires
        w == 4 || w == 16,
        prefix_wf(addr as nat, plen as nat, w),
    ensures
        sp_prefix(prefix_enc(addr as nat, plen as nat, w) + tail, w) == Ok::<_, BgpParseError>(
            (1 + psize_spec(plen as nat) as int, (addr, plen)),
        ),
{
    let psz = psize_spec(plen as nat);
    lemma_psize_le_w(plen as nat, w);
    let pq = pow256((w - psz) as nat);
    let hi = (addr as nat) / pq;
    let e = prefix_enc(addr as nat, plen as nat, w);
    let s = e + tail;
    lemma_be_enc_len(hi, psz);
    assert(s[0] == plen);
    assert(s.len() >= 1 + psz);
    assert(s.subrange(1, 1 + psz as int) =~= be_enc(hi, psz));
    lemma_pow256_split(psz, (w - psz) as nat);
    lemma_pow256_pos((w - psz) as nat);
    assert(hi < pow256(psz)) by (nonlinear_arith)
        requires
            (addr as nat) < pow256(psz) * pq,
            pq >= 1,
            hi == (addr as nat) / pq,
    ;
    lemma_be_val_enc(hi, psz);
    vstd::arithmetic::div_mod::lemma_fundamental_div_mod(addr as int, pq as int);
    assert(pq * hi == hi * pq) by (nonlinear_arith);
    assert(hi * pq == addr);
}

/// An MPLS label stack entry as carried in a 3-byte NLRI label field:
/// a 20-bit label, a 3-bit traffic class, and the bottom-of-stack bit.
#[derive(Clone, Copy, Debug, PartialEq, Eq, Structural)]
pub struct Label {
    pub value: u32,
    pub exp: u8,
    pub bos: bool,
}

impl Label {
    pub open spec fn wf(self) -> bool {
        self.value < 0x10_0000 && self.exp < 8
    }

    /// The 24-bit number the three wire bytes carry.
    pub open spec fn num(self) -> nat {
        (self.value * 16 + self.exp * 2 + (if self.bos {
            1int
        } else {
            0int
        })) as nat
    }

    pub open spec fn enc(self) -> Seq<u8> {
        be_enc(self.num(), 3)
    }

    /// Appends the three label bytes.
    pub fn emit(self, out: &mut Vec<u8>)
        requires
            self.wf(),
        ensures
            final(out)@ == old(out)@ + self.enc(),
    {
        proof {
            crate::wire::lemma_pow256_consts();
        }
        let n: u32 = self.value * 16 + (self.exp as u32) * 2 + (if self.bos {
            1
        } else {
            0
        });
        write_be(out, n as u128, 3);
    }

    /// Reads a three-byte label entry.
    pub fn parse_be(input: &[u8], pos: usize, end: usize) -> (r: Result<
        (usize, Label),
        BgpParseError,
    >)
        requires
            pos <= end <= input.len(),
        ensures
            match r {
                Ok((n, v)) => pos <= n <= end && sp_label(input@.subrange(pos as int, end as int))
                    == Ok::<_, BgpParseError>(((n - pos) as int, v)),
                Err(e) => sp_label(input@.subrange(pos as int, end as int)) == Err::<
                    (int, Label),
                    _,
                >(e),
            },
    {
        if end - pos < 3 {
            return Err(BgpParseError::Truncated { needed: 3 });
        }
        let n = read_be(input, pos, 3) as u32;
        proof {
            assert(input@.subrange(pos as int, end as int).subrange(0, 3) =~= input@.subrange(
                pos as int,
                pos + 3,
            ));
            lemma_be_val_bound(input@.subrange(pos as int, pos + 3));
            crate::wire::lemma_pow256_consts();
        }
        Ok(
            (
                pos + 3,
                Label { value: n / 16, exp: ((n / 2) % 8) as u8, bos: n % 2 == 1 },
            ),
        )
    }
}

/// What a three-byte label field parses to.
pub open spec fn sp_label(s: Seq<u8>) -> Result<(int, Label), BgpParseError> {
    if s.len() < 3 {
        Err(BgpParseError::Truncated { needed: 3 })
    } else {
        let n = be_val(s.subrange(0, 3));
        Ok(
            (
                3,
                Label { value: (n / 16) as u32, exp: ((n / 2) % 8) as u8, bos: n % 2 == 1 },
            ),
        )
    }
}

/// Emitting a well-formed label and parsing it back returns the label.
pub proof fn lemma_label_round_trip(l: Label, tail: Seq<u8>)
    requires
        l.wf(),
    ensures
        sp_label(l.enc() + tail) == Ok::<_, BgpParseError>((3int, l)),
{
    let n = l.num();
    let s = l.enc() + tail;
    lemma_be_enc_len(n, 3);
    crate::wire::lemma_pow256_consts();
    lemma_be_val_enc(n, 3);
    assert(s.subrange(0, 3) =~= l.enc());
    let b: nat = if l.bos {
        1nat
    } else {
        0nat
    };
    let r: nat = (l.exp * 2 + b) as nat;
    vstd::arithmetic::div_mod::lemma_fundamental_div_mod_converse(
        n as int,
        16,
        l.value as int,
        r as int,
    );
    assert(n / 16 == l.value && n % 16 == r);
    vstd::arithmetic::div_mod::lemma_fundamental_div_mod_converse(
        n as int,
        2,
        (l.value * 8 + l.exp) as int,
        b as int,
    );
    assert(n / 2 == l.value * 8 + l.exp && n % 2 == b);
    vstd::arithmetic::div_mod::lemma_fundamental_div_mod_converse(
        (l.value * 8 + l.exp) as int,
        8,
        l.value as int,
        l.exp as int,
    );
    assert((n / 2) % 8 == l.exp);
}

/// An eight-byte route distinguisher: a two-byte type and six value bytes.
#[derive(Clone, Copy, Debug, PartialEq, Eq, Structural)]
pub struct RouteDistinguisher {
    pub typ: u16,
    pub val: u64,
}

impl RouteDistinguisher {
    pub open spec fn wf(self) -> bool {
        self.val < pow256(6)
    }

    pub open spec fn enc(self) -> Seq<u8> {
        be_enc(self.typ as nat, 2) + be_enc(self.val as nat, 6)
    }

    pub fn emit(self, out: &mut Vec<u8>)
        requires
            self.wf(),
        ensures
            final(out)@ == old(out)@ + self.enc(),
    {
        proof {
            crate::wire::lemma_pow256_consts();
        }
        write_be(out, self.typ as u128, 2);
        write_be(out, self.val as u128, 6);
        proof {
            assert(final(out)@ =~= old(out)@ + self.enc());
        }
    }

    pub fn parse_be(input: &[u8], pos: usize, end: usize) -> (r: Result<
        (usize, RouteDistinguisher),
        BgpParseError,
    >)
        requires
            pos <= end <= input.len(),
        ensures
            match r {
                Ok((n, v)) => pos <= n <= end && sp_rd(input@.subrange(pos as int, end as int))
                    == Ok::<_, BgpParseError>(((n - pos) as int, v)) && v.wf(),
                Err(e) => sp_rd(input@.subrange(pos as int, end as int)) == Err::<
                    (int, RouteDistinguisher),
                    _,
                >(e),
            },
    {
        if end - pos < 8 {
            return Err(BgpParseError::Truncated { needed: 8 });
        }
        let typ = read_be(input, pos, 2) as u16;
        let val = read_be(input, pos + 2, 6) as u64;
        proof {
            let s = input@.subrange(pos as int, end as int);
            assert(s.subrange(0, 2) =~= input@.subrange(pos as int, pos + 2));
            assert(s.subrange(2, 8) =~= input@.subrange(pos + 2, pos + 8));
            lemma_be_val_bound(input@.subrange(pos as int, pos + 2));
            lemma_be_val_bound(input@.subrange(pos + 2, pos + 8));
            crate::wire::lemma_pow256_consts();
        }
        Ok((pos + 8, RouteDistinguisher { typ, val }))
    }
}

/// What an eight-byte route-distinguisher field parses to.
pub open spec fn sp_rd(s: Seq<u8>) -> Result<(int, RouteDistinguisher), BgpParseError> {
    if s.len() < 8 {
        Err(BgpParseError::Truncated { needed: 8 })
    } else {
        Ok(
            (
                8,
                RouteDistinguisher {
                    typ: be_val(s.subrange(0, 2)) as u16,
                    val: be_val(s.subrange(2, 8)) as u64,
                },
            ),
        )
    }
}

/// Emitting a well-formed route distinguisher and parsing it back returns it.
pub proof fn lemma_rd_round_trip(rd: RouteDistinguisher, tail: Seq<u8>)
    requires
        rd.wf(),
    ensures
        sp_rd(rd.enc() + tail) == Ok::<_, BgpParseError>((8int, rd)),
{
    let s = rd.enc() + tail;
    lemma_be_enc_len(rd.typ as nat, 2);
    lemma_be_enc_len(rd.val as nat, 6);
    crate::wire::lemma_pow256_consts();
    lemma_be_val_enc(rd.typ as nat, 2);
    lemma_be_val_enc(rd.val as nat, 6);
    assert(s.subrange(0, 2) =~= be_enc(rd.typ as nat, 2));
    assert(s.subrange(2, 8) =~= be_enc(rd.val as nat, 6));
}

} // verus!
