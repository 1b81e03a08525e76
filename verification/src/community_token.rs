//! The token reader for IPv6 extended-community text: `rt` / `soo` keywords
//! and `[ipv6]:NN` or `ipv6:NN` values with a bracket-optional IPv6 literal.
use vstd::prelude::*;

use crate::text::is_dig;
use crate::wire::{lemma_pow256_consts, lemma_pow256_mono, lemma_pow256_pos, pow256, pow256x};

verus! {

/// One token of the community text.
#[derive(Clone, Copy, Debug, PartialEq, Eq, Structural)]
pub enum Token {
    Rd(u128, u16),
    Rt,
    Soo,
}

/// Why the reader rejected its input.
#[derive(Clone, Copy, Debug, PartialEq, Eq, Structural)]
pub enum TokenizerError {
    InvalidIpv6Value,
    UnknownKeyword,
    UnexpectedChar(char),
}

/// A hexadecimal digit byte.
pub open spec fn is_hexd(c: u8) -> bool {
    is_dig(c) || (97 <= c <= 102) || (65 <= c <= 70)
}

/// The value of a hexadecimal digit byte.
pub open spec fn hexv(c: u8) -> int {
    if is_dig(c) {
        c - 48
    } else if 97 <= c <= 102 {
        c - 87
    } else {
        c - 55
    }
}

/// An ASCII letter or digit.
pub open spec fn is_alnum(c: u8) -> bool {
    is_dig(c) || (97 <= c <= 122) || (65 <= c <= 90)
}

/// Where a value token ends: it runs over letters, digits, `]`, `:` and `@`.
pub open spec fn sp_tok_end(b: Seq<u8>, i: int) -> int
    decreases b.len() - i,
{
    if 0 <= i < b.len() && (is_alnum(b[i]) || b[i] == 93 || b[i] == 58 || b[i] == 64) {
        sp_tok_end(b, i + 1)
    } else {
        i
    }
}

/// Where a keyword token ends: it runs over letters.
pub open spec fn sp_alpha_end(b: Seq<u8>, i: int) -> int
    decreases b.len() - i,
{
    if 0 <= i < b.len() && ((97 <= b[i] <= 122) || (65 <= b[i] <= 90)) {
        sp_alpha_end(b, i + 1)
    } else {
        i
    }
}

/// One group of one to four hexadecimal digits, with its end.
pub open spec fn sp_hexrun(b: Seq<u8>, i: int, end: int, g: int, cnt: int) -> Result<
    (int, int),
    (),
>
    decreases end - i,
{
    if 0 <= i < end <= b.len() && is_hexd(b[i]) {
        if cnt >= 4 {
            Err(())
        } else {
            sp_hexrun(b, i + 1, end, g * 16 + hexv(b[i]), cnt + 1)
        }
    } else {
        if cnt == 0 {
            Err(())
        } else {
            Ok((i, g))
        }
    }
}

/// The address an IPv6 literal denotes, once its groups are gathered: the
/// groups before a `::` fill from the top, those after it from the bottom.
pub open spec fn sp_ipv6_finish(dc: bool, hi: int, nhi: int, lo: int, nlo: int) -> Result<
    u128,
    (),
> {
    if dc {
        if nhi + nlo > 7 {
            Err(())
        } else {
            Ok((hi * pow256(((8 - nhi) * 2) as nat) + lo) as u128)
        }
    } else {
        if nhi == 8 {
            Ok(hi as u128)
        } else {
            Err(())
        }
    }
}

/// The group scan of an IPv6 literal over `[i, end)`: `dc` says whether the
/// `::` compression was already seen, `hi`/`nhi` hold the groups before it
/// and `lo`/`nlo` those after it.
pub open spec fn sp_ipv6_groups(
    b: Seq<u8>,
    i: int,
    end: int,
    dc: bool,
    hi: int,
    nhi: int,
    lo: int,
    nlo: int,
) -> Result<u128, ()>
    decreases end - i,
{
    if i >= end {
        sp_ipv6_finish(dc, hi, nhi, lo, nlo)
    } else {
        match sp_hexrun(b, i, end, 0, 0) {
            Err(_) => Err(()),
            Ok((j, g)) => if nhi + nlo >= 8 {
                Err(())
            } else if j <= i {
                Err(())
            } else {
                let hi2: int = if !dc {
                    hi * 0x1_0000 + g
                } else {
                    hi
                };
                let nhi2: int = if !dc {
                    nhi + 1
                } else {
                    nhi
                };
                let lo2: int = if dc {
                    lo * 0x1_0000 + g
                } else {
                    lo
                };
                let nlo2: int = if dc {
                    nlo + 1
                } else {
                    nlo
                };
                if j >= end {
                    sp_ipv6_finish(dc, hi2, nhi2, lo2, nlo2)
                } else if b[j] != 58 {
                    Err(())
                } else if j + 1 < end && b[j + 1] == 58 {
                    if dc {
                        Err(())
                    } else {
                        sp_ipv6_groups(b, j + 2, end, true, hi2, nhi2, lo2, nlo2)
                    }
                } else if j + 1 >= end {
                    Err(())
                } else {
                    sp_ipv6_groups(b, j + 1, end, dc, hi2, nhi2, lo2, nlo2)
                }
            },
        }
    }
}

/// What an IPv6 literal over `[i, end)` denotes.
pub open spec fn sp_ipv6_addr(b: Seq<u8>, i: int, end: int) -> Result<u128, ()> {
    if end - i >= 2 && b[i] == 58 && b[i + 1] == 58 {
        sp_ipv6_groups(b, i + 2, end, true, 0, 0, 0, 0)
    } else {
        sp_ipv6_groups(b, i, end, false, 0, 0, 0, 0)
    }
}

/// The position of the last colon in `[lo, hi)`, if any.
pub open spec fn sp_last_colon(b: Seq<u8>, lo: int, hi: int) -> Result<int, ()>
    decreases hi - lo,
{
    if hi <= lo || !(0 <= lo && hi <= b.len()) {
        Err(())
    } else if b[hi - 1] == 58 {
        Ok(hi - 1)
    } else {
        sp_last_colon(b, lo, hi - 1)
    }
}

/// The start of the value digits: leading colons after the split are skipped.
pub open spec fn sp_skip_colons(b: Seq<u8>, i: int, end: int) -> int
    decreases end - i,
{
    if 0 <= i < end <= b.len() && b[i] == 58 {
        sp_skip_colons(b, i + 1, end)
    } else {
        i
    }
}

/// The decimal value over exactly `[i, end)`: at least one digit, nothing
/// else, and no more than 65535.
pub open spec fn sp_u16dec(b: Seq<u8>, i: int, end: int, n: int, any: bool) -> Result<u16, ()>
    decreases end - i,
{
    if 0 <= i < end <= b.len() && is_dig(b[i]) {
        if n > 6553 {
            Err(())
        } else {
            sp_u16dec(b, i + 1, end, n * 10 + (b[i] - 48), true)
        }
    } else if i >= end && any && n <= 0xffff {
        Ok(n as u16)
    } else {
        Err(())
    }
}

/// What one bracket-optional `address:value` token over `[lo, hi)` denotes:
/// the part before the last colon is the IPv6 literal, with one leading `[`
/// and one trailing `]` stripped when present, and the part after it is the
/// decimal value.
pub open spec fn sp_ipv6_value(b: Seq<u8>, lo: int, hi: int) -> Result<(u128, u16), ()> {
    match sp_last_colon(b, lo, hi) {
        Err(_) => Err(()),
        Ok(c) => {
            let alo: int = if c > lo && b[lo] == 91 {
                lo + 1
            } else {
                lo
            };
            let ahi: int = if c > alo && b[c - 1] == 93 {
                c - 1
            } else {
                c
            };
            if ahi <= alo {
                Err(())
            } else {
                match sp_ipv6_addr(b, alo, ahi) {
                    Err(_) => Err(()),
                    Ok(addr) => {
                        let v0 = sp_skip_colons(b, c, hi);
                        match sp_u16dec(b, v0, hi, 0, false) {
                            Err(_) => Err(()),
                            Ok(val) => Ok((addr, val)),
                        }
                    },
                }
            }
        },
    }
}

/// What the whole community text reads as: whitespace separates tokens, `rt`
/// and `soo` are the keywords, and a token opening with a digit, a lowercase
/// hexadecimal letter or `[` is an `address:value` pair.
pub open spec fn sp_tokens(b: Seq<u8>, i: int) -> Result<Seq<Token>, TokenizerError>
    decreases b.len() - i,
{
    if !(0 <= i < b.len()) {
        Ok(Seq::empty())
    } else if b[i] == 32 || b[i] == 9 {
        sp_tokens(b, i + 1)
    } else if is_dig(b[i]) || (97 <= b[i] <= 102) || b[i] == 91 {
        let te = sp_tok_end(b, i + 1);
        if !(i < te <= b.len()) {
            Err(TokenizerError::InvalidIpv6Value)
        } else {
            match sp_ipv6_value(b, i, te) {
                Err(_) => Err(TokenizerError::InvalidIpv6Value),
                Ok((a, v)) => match sp_tokens(b, te) {
                    Err(e) => Err(e),
                    Ok(rest) => Ok(seq![Token::Rd(a, v)] + rest),
                },
            }
        }
    } else if (97 <= b[i] <= 122) || (65 <= b[i] <= 90) {
        let ke = sp_alpha_end(b, i + 1);
        if !(i < ke <= b.len()) {
            Err(TokenizerError::UnknownKeyword)
        } else if ke - i == 2 && b[i] == 114 && b[i + 1] == 116 {
            match sp_tokens(b, ke) {
                Err(e) => Err(e),
                Ok(rest) => Ok(seq![Token::Rt] + rest),
            }
        } else if ke - i == 3 && b[i] == 115 && b[i + 1] == 111 && b[i + 2] == 111 {
            match sp_tokens(b, ke) {
                Err(e) => Err(e),
                Ok(rest) => Ok(seq![Token::Soo] + rest),
            }
        } else {
            Err(TokenizerError::UnknownKeyword)
        }
    } else {
        Err(TokenizerError::UnexpectedChar(b[i] as char))
    }
}

fn tok_end(b: &[u8], i: usize) -> (r: usize)
    requires
        i <= b.len(),
    ensures
        r == sp_tok_end(b@, i as int),
        i <= r <= b.len(),
    decreases b.len() - i,
{
    if i < b.len() && (48 <= b[i] && b[i] <= 57 || 97 <= b[i] && b[i] <= 122 || 65 <= b[i] && b[i]
        <= 90 || b[i] == 93 || b[i] == 58 || b[i] == 64) {
        tok_end(b, i + 1)
    } else {
        i
    }
}

fn alpha_end(b: &[u8], i: usize) -> (r: usize)
    requires
        i <= b.len(),
    ensures
        r == sp_alpha_end(b@, i as int),
        i <= r <= b.len(),
    decreases b.len() - i,
{
    if i < b.len() && (97 <= b[i] && b[i] <= 122 || 65 <= b[i] && b[i] <= 90) {
        alpha_end(b, i + 1)
    } else {
        i
    }
}

fn hexrun(b: &[u8], i: usize, end: usize, g: u32, cnt: u8) -> (r: Result<(usize, u32), ()>)
    requires
        i <= end <= b.len(),
        cnt <= 4,
        cnt == 0 ==> g == 0,
        cnt == 1 ==> g < 0x10,
        cnt == 2 ==> g < 0x100,
        cnt == 3 ==> g < 0x1000,
        cnt == 4 ==> g < 0x1_0000,
    ensures
        match r {
            Ok((j, g2)) => sp_hexrun(b@, i as int, end as int, g as int, cnt as int) == Ok::<_, ()>(
                (j as int, g2 as int),
            ) && i <= j <= end && g2 < 0x1_0000,
            Err(_) => sp_hexrun(b@, i as int, end as int, g as int, cnt as int) == Err::<
                (int, int),
                (),
            >(()),
        },
    decreases end - i,
{
    if i < end && (48 <= b[i] && b[i] <= 57 || 97 <= b[i] && b[i] <= 102 || 65 <= b[i] && b[i]
        <= 70) {
        if cnt >= 4 {
            Err(())
        } else {
            let d: u32 = if 48 <= b[i] && b[i] <= 57 {
                (b[i] - 48) as u32
            } else if 97 <= b[i] && b[i] <= 102 {
                (b[i] - 87) as u32
            } else {
                (b[i] - 55) as u32
            };
            hexrun(b, i + 1, end, g * 16 + d, cnt + 1)
        }
    } else {
        if cnt == 0 {
            Err(())
        } else {
            Ok((i, g))
        }
    }
}

/// Combines the gathered groups into the address.
fn ipv6_finish(dc: bool, hi: u128, nhi: u8, lo: u128, nlo: u8) -> (r: Result<u128, ()>)
    requires
        nhi <= 8,
        nlo <= 8,
        hi < pow256((nhi * 2) as nat),
        lo < pow256((nlo * 2) as nat),
    ensures
        match r {
            Ok(a) => sp_ipv6_finish(dc, hi as int, nhi as int, lo as int, nlo as int) == Ok::<
                _,
                (),
            >(a),
            Err(_) => sp_ipv6_finish(dc, hi as int, nhi as int, lo as int, nlo as int) == Err::<
                u128,
                (),
            >(()),
        },
{
    if dc {
        if nhi + nlo > 7 {
            Err(())
        } else {
            proof {
                lemma_pow256_consts();
                crate::types::lemma_pow256_split((nhi * 2) as nat, ((8 - nhi) * 2) as nat);
                lemma_pow256_pos(((8 - nhi) * 2) as nat);
                lemma_pow256_mono((nlo * 2) as nat, ((7 - nhi) * 2) as nat);
                lemma_pow256_mono(((7 - nhi) * 2) as nat, ((8 - nhi) * 2) as nat);
                assert((hi as int) * pow256(((8 - nhi) * 2) as nat) + pow256(
                    ((8 - nhi) * 2) as nat,
                ) <= pow256(16)) by (nonlinear_arith)
                    requires
                        (hi as int) < pow256((nhi * 2) as nat),
                        pow256(16) == pow256((nhi * 2) as nat) * pow256(((8 - nhi) * 2) as nat),
                        pow256(((8 - nhi) * 2) as nat) >= 1,
                ;
            }
            if nhi == 0 {
                proof {
                    assert(pow256(0) == 1);
                    assert(hi == 0);
                    vstd::arithmetic::mul::lemma_mul_basics(pow256(16) as int);
                }
                Ok(lo)
            } else {
                let p = pow256x((8 - nhi as usize) * 2);
                Ok(hi * p + lo)
            }
        }
    } else {
        if nhi == 8 {
            Ok(hi)
        } else {
            Err(())
        }
    }
}

#[verifier::rlimit(90)]
fn ipv6_groups(b: &[u8], i: usize, end: usize, dc: bool, hi: u128, nhi: u8, lo: u128, nlo: u8) -> (r:
    Result<u128, ()>)
    requires
        i <= end <= b.len(),
        nhi <= 8,
        nlo <= 8,
        nhi + nlo <= 8,
        hi < pow256((nhi * 2) as nat),
        lo < pow256((nlo * 2) as nat),
    ensures
        match r {
            Ok(a) => sp_ipv6_groups(
                b@,
                i as int,
                end as int,
                dc,
                hi as int,
                nhi as int,
                lo as int,
                nlo as int,
            ) == Ok::<_, ()>(a),
            Err(_) => sp_ipv6_groups(
                b@,
                i as int,
                end as int,
                dc,
                hi as int,
                nhi as int,
                lo as int,
                nlo as int,
            ) == Err::<u128, ()>(()),
        },
    decreases end - i,
{
    if i >= end {
        return ipv6_finish(dc, hi, nhi, lo, nlo);
    }
    let (j, g) = match hexrun(b, i, end, 0, 0) {
        Err(_) => {
            return Err(());
        },
        Ok(jg) => jg,
    };
    if nhi as usize + nlo as usize >= 8 {
        return Err(());
    }
    if j <= i {
        return Err(());
    }
    proof {
        lemma_pow256_consts();
        assert((hi as int) * 0x1_0000 + g < pow256(((nhi + 1) * 2) as nat)) by (nonlinear_arith)
            requires
                (hi as int) < pow256((nhi * 2) as nat),
                pow256(((nhi + 1) * 2) as nat) == pow256((nhi * 2) as nat) * 0x1_0000,
                0 <= g < 0x1_0000,
        ;
        assert((lo as int) * 0x1_0000 + g < pow256(((nlo + 1) * 2) as nat)) by (nonlinear_arith)
            requires
                (lo as int) < pow256((nlo * 2) as nat),
                pow256(((nlo + 1) * 2) as nat) == pow256((nlo * 2) as nat) * 0x1_0000,
                0 <= g < 0x1_0000,
        ;
        lemma_pow256_mono((nhi * 2) as nat, 16);
        lemma_pow256_mono((nlo * 2) as nat, 16);
        crate::types::lemma_pow256_split((nhi * 2) as nat, 2);
        crate::types::lemma_pow256_split((nlo * 2) as nat, 2);
    }
    let hi2: u128 = if !dc {
        hi * 0x1_0000 + g as u128
    } else {
        hi
    };
    let nhi2: u8 = if !dc {
        nhi + 1
    } else {
        nhi
    };
    let lo2: u128 = if dc {
        lo * 0x1_0000 + g as u128
    } else {
        lo
    };
    let nlo2: u8 = if dc {
        nlo + 1
    } else {
        nlo
    };
    if j >= end {
        ipv6_finish(dc, hi2, nhi2, lo2, nlo2)
    } else if b[j] != 58 {
        Err(())
    } else if j + 1 < end && b[j + 1] == 58 {
        if dc {
            Err(())
        } else {
            ipv6_groups(b, j + 2, end, true, hi2, nhi2, lo2, nlo2)
        }
    } else if j + 1 >= end {
        Err(())
    } else {
        ipv6_groups(b, j + 1, end, dc, hi2, nhi2, lo2, nlo2)
    }
}

fn ipv6_addr(b: &[u8], i: usize, end: usize) -> (r: Result<u128, ()>)
    requires
        i <= end <= b.len(),
    ensures
        match r {
            Ok(a) => sp_ipv6_addr(b@, i as int, end as int) == Ok::<_, ()>(a),
            Err(_) => sp_ipv6_addr(b@, i as int, end as int) == Err::<u128, ()>(()),
        },
{
    proof {
        assert(pow256(0) == 1);
    }
    if end - i >= 2 && b[i] == 58 && b[i + 1] == 58 {
        ipv6_groups(b, i + 2, end, true, 0, 0, 0, 0)
    } else {
        ipv6_groups(b, i, end, false, 0, 0, 0, 0)
    }
}

fn last_colon(b: &[u8], lo: usize, hi: usize) -> (r: Result<usize, ()>)
    requires
        lo <= hi <= b.len(),
    ensures
        match r {
            Ok(c) => sp_last_colon(b@, lo as int, hi as int) == Ok::<_, ()>(c as int) && lo <= c
                < hi,
            Err(_) => sp_last_colon(b@, lo as int, hi as int) == Err::<int, ()>(()),
        },
    decreases hi - lo,
{
    if hi <= lo {
        Err(())
    } else if b[hi - 1] == 58 {
        Ok(hi - 1)
    } else {
        last_colon(b, lo, hi - 1)
    }
}

fn skip_colons(b: &[u8], i: usize, end: usize) -> (r: usize)
    requires
        i <= end <= b.len(),
    ensures
        r == sp_skip_colons(b@, i as int, end as int),
        i <= r <= end,
    decreases end - i,
{
    if i < end && b[i] == 58 {
        skip_colons(b, i + 1, end)
    } else {
        i
    }
}

fn u16dec(b: &[u8], i: usize, end: usize, n: u32, any: bool) -> (r: Result<u16, ()>)
    requires
        i <= end <= b.len(),
        n <= 65539,
    ensures
        match r {
            Ok(v) => sp_u16dec(b@, i as int, end as int, n as int, any) == Ok::<_, ()>(v),
            Err(_) => sp_u16dec(b@, i as int, end as int, n as int, any) == Err::<u16, ()>(()),
        },
    decreases end - i,
{
    if i < end && 48 <= b[i] && b[i] <= 57 {
        if n > 6553 {
            Err(())
        } else {
            u16dec(b, i + 1, end, n * 10 + (b[i] - 48) as u32, true)
        }
    } else if i >= end && any && n <= 0xffff {
        Ok(n as u16)
    } else {
        Err(())
    }
}

fn ipv6_value(b: &[u8], lo: usize, hi: usize) -> (r: Result<(u128, u16), ()>)
    requires
        lo <= hi <= b.len(),
    ensures
        match r {
            Ok(av) => sp_ipv6_value(b@, lo as int, hi as int) == Ok::<_, ()>(
                (av.0, av.1),
            ),
            Err(_) => sp_ipv6_value(b@, lo as int, hi as int) == Err::<(u128, u16), ()>(()),
        },
{
    let c = match last_colon(b, lo, hi) {
        Err(_) => {
            return Err(());
        },
        Ok(c) => c,
    };
    let alo: usize = if c > lo && b[lo] == 91 {
        lo + 1
    } else {
        lo
    };
    let ahi: usize = if c > alo && b[c - 1] == 93 {
        c - 1
    } else {
        c
    };
    if ahi <= alo {
        return Err(());
    }
    let addr = match ipv6_addr(b, alo, ahi) {
        Err(_) => {
            return Err(());
        },
        Ok(a) => a,
    };
    let v0 = skip_colons(b, c, hi);
    match u16dec(b, v0, hi, 0, false) {
        Err(_) => Err(()),
        Ok(val) => Ok((addr, val)),
    }
}

fn tokens_rec(b: &[u8], i: usize) -> (r: Result<Vec<Token>, TokenizerError>)
    requires
        i <= b.len(),
    ensures
        match r {
            Ok(v) => sp_tokens(b@, i as int) == Ok::<_, TokenizerError>(v@),
            Err(e) => sp_tokens(b@, i as int) == Err::<Seq<Token>, _>(e),
        },
    decreases b.len() - i,
{
    if i >= b.len() {
        let r: Vec<Token> = Vec::new();
        proof {
            assert(r@ =~= Seq::<Token>::empty());
        }
        return Ok(r);
    }
    let c = b[i];
    if c == 32 || c == 9 {
        tokens_rec(b, i + 1)
    } else if 48 <= c && c <= 57 || 97 <= c && c <= 102 || c == 91 {
        let te = tok_end(b, i + 1);
        match ipv6_value(b, i, te) {
            Err(_) => Err(TokenizerError::InvalidIpv6Value),
            Ok((a, v)) => match tokens_rec(b, te) {
                Err(e) => Err(e),
                Ok(mut rest) => {
                    let ghost pre = rest@;
                    rest.insert(0, Token::Rd(a, v));
                    proof {
                        assert(rest@ =~= seq![Token::Rd(a, v)] + pre);
                    }
                    Ok(rest)
                },
            },
        }
    } else if 97 <= c && c <= 122 || 65 <= c && c <= 90 {
        let ke = alpha_end(b, i + 1);
        if ke - i == 2 && b[i] == 114 && b[i + 1] == 116 {
            match tokens_rec(b, ke) {
                Err(e) => Err(e),
                Ok(mut rest) => {
                    let ghost pre = rest@;
                    rest.insert(0, Token::Rt);
                    proof {
                        assert(rest@ =~= seq![Token::Rt] + pre);
                    }
                    Ok(rest)
                },
            }
        } else if ke - i == 3 && b[i] == 115 && b[i + 1] == 111 && b[i + 2] == 111 {
            match tokens_rec(b, ke) {
                Err(e) => Err(e),
                Ok(mut rest) => {
                    let ghost pre = rest@;
                    rest.insert(0, Token::Soo);
                    proof {
                        assert(rest@ =~= seq![Token::Soo] + pre);
                    }
                    Ok(rest)
                },
            }
        } else {
            Err(TokenizerError::UnknownKeyword)
        }
    } else {
        Err(TokenizerError::UnexpectedChar(c as char))
    }
}

/// Reads IPv6 extended-community text into tokens: the result is exactly the
/// spec-level reading of the text, and an error, with its reason, comes
/// exactly when the text fits no form.
pub fn tokenizer(input: String) -> (r: Result<Vec<Token>, TokenizerError>)
    ensures
        match r {
            Ok(v) => sp_tokens(vstd::utf8::encode_utf8(input@), 0) == Ok::<_, TokenizerError>(
                v@,
            ),
            Err(e) => sp_tokens(vstd::utf8::encode_utf8(input@), 0) == Err::<Seq<Token>, _>(e),
        },
{
    let b = input.as_str().as_bytes();
    proof {
        assert(b@ == vstd::utf8::encode_utf8(input@));
    }
    tokens_rec(b, 0)
}

} // verus!
