//! The textual forms: decimal and dotted AS numbers, AS-path rendering and
//! parsing, and the reversible community text grammar.
use vstd::prelude::*;

use crate::aspath::{As4Path, As4Segment, AS_CONFED_SEQ, AS_CONFED_SET, AS_SEQ, AS_SET};
use vstd::string::StringSliceAdditionalSpecFns;
use crate::attr::Origin;
use crate::community::{ExtCommunity, ExtCommunityValue};

verus! {

/// The character of one decimal digit.
pub open spec fn digit_char(d: nat) -> char {
    if d == 0 {
        '0'
    } else if d == 1 {
        '1'
    } else if d == 2 {
        '2'
    } else if d == 3 {
        '3'
    } else if d == 4 {
        '4'
    } else if d == 5 {
        '5'
    } else if d == 6 {
        '6'
    } else if d == 7 {
        '7'
    } else if d == 8 {
        '8'
    } else {
        '9'
    }
}

/// The decimal rendering of a number, most significant digit first.
pub open spec fn dec_str(n: nat) -> Seq<char>
    decreases n,
{
    if n < 10 {
        seq![digit_char(n)]
    } else {
        dec_str(n / 10) + seq![digit_char(n % 10)]
    }
}

/// Appends one decimal digit character.
fn push_digit(out: &mut String, d: u64)
    requires
        d < 10,
    ensures
        final(out)@ == old(out)@ + seq![digit_char(d as nat)],
{
    proof {
        reveal_strlit("0");
        reveal_strlit("1");
        reveal_strlit("2");
        reveal_strlit("3");
        reveal_strlit("4");
        reveal_strlit("5");
        reveal_strlit("6");
        reveal_strlit("7");
        reveal_strlit("8");
        reveal_strlit("9");
    }
    if d == 0 {
        out.append("0");
    } else if d == 1 {
        out.append("1");
    } else if d == 2 {
        out.append("2");
    } else if d == 3 {
        out.append("3");
    } else if d == 4 {
        out.append("4");
    } else if d == 5 {
        out.append("5");
    } else if d == 6 {
        out.append("6");
    } else if d == 7 {
        out.append("7");
    } else if d == 8 {
        out.append("8");
    } else {
        out.append("9");
    }
    proof {
        assert(final(out)@ =~= old(out)@ + seq![digit_char(d as nat)]);
    }
}

/// Appends the decimal rendering of a number.
pub fn push_dec(out: &mut String, v: u64)
    ensures
        final(out)@ == old(out)@ + dec_str(v as nat),
    decreases v,
{
    if v < 10 {
        push_digit(out, v);
    } else {
        push_dec(out, v / 10);
        push_digit(out, v % 10);
        proof {
            assert(final(out)@ =~= old(out)@ + dec_str(v as nat));
        }
    }
}

/// The textual AS number: plain decimal below 65536, dotted `hi.lo` above.
pub open spec fn asn_str(val: u32) -> Seq<char> {
    if val > 65535 {
        dec_str((val as nat) / 0x1_0000) + seq!['.'] + dec_str((val as nat) % 0x1_0000)
    } else {
        dec_str(val as nat)
    }
}

/// Renders an AS number: four-octet numbers are written dotted, `hi.lo`.
pub fn asn_to_string(val: u32) -> (r: String)
    ensures
        r@ == asn_str(val),
{
    let mut out = String::new();
    if val > 65535 {
        push_dec(&mut out, (val / 0x1_0000) as u64);
        proof {
            reveal_strlit(".");
        }
        out.append(".");
        push_dec(&mut out, (val % 0x1_0000) as u64);
        proof {
            assert(out@ =~= asn_str(val));
        }
    } else {
        push_dec(&mut out, val as u64);
    }
    out
}

/// The dotted rendering of a four-byte address held in the low bits of `v`.
pub open spec fn ipv4_str(v: nat) -> Seq<char> {
    dec_str(v / 0x100_0000 % 256) + seq!['.'] + dec_str(v / 0x1_0000 % 256) + seq!['.'] + dec_str(
        v / 0x100 % 256,
    ) + seq!['.'] + dec_str(v % 256)
}

/// Appends the dotted form of an IPv4 address.
pub fn push_ipv4(out: &mut String, v: u32)
    ensures
        final(out)@ == old(out)@ + ipv4_str(v as nat),
{
    proof {
        reveal_strlit(".");
    }
    push_dec(out, (v as u64) / 0x100_0000 % 256);
    out.append(".");
    push_dec(out, (v as u64) / 0x1_0000 % 256);
    out.append(".");
    push_dec(out, (v as u64) / 0x100 % 256);
    out.append(".");
    push_dec(out, (v as u64) % 256);
    proof {
        assert(final(out)@ =~= old(out)@ + ipv4_str(v as nat));
    }
}

impl Origin {
    /// The one-letter origin code: `i` for IGP, `e` for EGP, `?` otherwise.
    pub fn short_str(&self) -> (r: &'static str)
        ensures
            self.origin == 0 ==> r@ == "i"@,
            self.origin == 1 ==> r@ == "e"@,
            self.origin >= 2 ==> r@ == "?"@,
    {
        if self.origin == 0 {
            "i"
        } else if self.origin == 1 {
            "e"
        } else {
            "?"
        }
    }
}

/// The keyword of an extended-community sub-type: `rt` for route targets,
/// `soo` for route origins, `opaque` for the opaque sub-type.
pub fn sub_type_str(sub_type: u8) -> (r: &'static str)
    ensures
        sub_type == 0x02 ==> r@ == "rt"@,
        sub_type == 0x03 ==> r@ == "soo"@,
        sub_type == 0x0c ==> r@ == "opaque"@,
        sub_type != 0x02 && sub_type != 0x03 && sub_type != 0x0c ==> r@ == "unknown"@,
{
    if sub_type == 0x02 {
        "rt"
    } else if sub_type == 0x03 {
        "soo"
    } else if sub_type == 0x0c {
        "opaque"
    } else {
        "unknown"
    }
}

/// The keyword characters of an extended-community sub-type.
pub open spec fn sub_type_kw(t: u8) -> Seq<char> {
    if t == 0x02 {
        seq!['r', 't']
    } else if t == 0x03 {
        seq!['s', 'o', 'o']
    } else if t == 0x0c {
        seq!['o', 'p', 'a', 'q', 'u', 'e']
    } else {
        seq!['u', 'n', 'k', 'n', 'o', 'w', 'n']
    }
}

/// The text of one extended community: the sub-type keyword, a space, then
/// `AA:NN` for the two-octet-AS form, `VXLAN` for the opaque VXLAN sentinel,
/// or `A.B.C.D:NN` otherwise.
pub open spec fn ext_community_value_str(v: crate::community::ExtCommunityValue) -> Seq<char> {
    sub_type_kw(v.low_type) + seq![' '] + (if v.high_type == 0x00 {
        dec_str((v.val as nat) / 0x1_0000_0000) + seq![':'] + dec_str((v.val as nat) % 0x1_0000_0000)
    } else if v.high_type == 0x03 && v.val % 0x1_0000 == 8 {
        seq!['V', 'X', 'L', 'A', 'N']
    } else {
        ipv4_str((v.val as nat) / 0x1_0000) + seq![':'] + dec_str((v.val as nat) % 0x1_0000)
    })
}

/// The text of a community list, space separated.
pub open spec fn ext_community_str(vs: Seq<crate::community::ExtCommunityValue>) -> Seq<char>
    decreases vs.len(),
{
    if vs.len() == 0 {
        Seq::empty()
    } else if vs.len() == 1 {
        ext_community_value_str(vs[0])
    } else {
        ext_community_str(vs.drop_last()) + seq![' '] + ext_community_value_str(vs.last())
    }
}

impl ExtCommunityValue {
    /// Renders one extended community in its canonical text.
    pub fn to_str(&self) -> (r: String)
        requires
            self.wf(),
        ensures
            r@ == ext_community_value_str(*self),
    {
        let mut out = String::new();
        out.append(sub_type_str(self.low_type));
        proof {
            reveal_strlit("rt");
            reveal_strlit("soo");
            reveal_strlit("opaque");
            reveal_strlit("unknown");
            reveal_strlit(" ");
            reveal_strlit(":");
            reveal_strlit("VXLAN");
            assert(out@ =~= sub_type_kw(self.low_type));
        }
        out.append(" ");
        proof {
            crate::wire::lemma_pow256_consts();
        }
        if self.high_type == 0x00 {
            let asn = (self.val / 0x1_0000_0000) as u64;
            let low = (self.val % 0x1_0000_0000) as u64;
            push_dec(&mut out, asn);
            out.append(":");
            push_dec(&mut out, low);
        } else if self.high_type == 0x03 && self.val % 0x1_0000 == 8 {
            out.append("VXLAN");
        } else {
            let ip = (self.val / 0x1_0000) as u32;
            let low = (self.val % 0x1_0000) as u64;
            push_ipv4(&mut out, ip);
            out.append(":");
            push_dec(&mut out, low);
        }
        proof {
            assert(out@ =~= ext_community_value_str(*self));
        }
        out
    }
}

/// A byte of decimal-digit text.
pub open spec fn is_dig(c: u8) -> bool {
    48 <= c <= 57
}

/// The scan of one decimal-or-dotted run of community text, carrying the
/// accumulated part `a`, the shifted address bytes `ip`, the part count and
/// whether a dot was seen; it stops at the first byte outside the run.
pub open spec fn sp_ect_run(b: Seq<u8>, i: int, a: int, ip: int, parts: int, dotted: bool) -> Result<
    (int, int, int, int, bool),
    (),
>
    decreases b.len() - i,
{
    if !(0 <= i < b.len()) || !(is_dig(b[i]) || b[i] == 46) {
        Ok((i, a, ip, parts, dotted))
    } else if b[i] == 46 {
        if a > 255 || parts >= 4 {
            Err(())
        } else {
            sp_ect_run(b, i + 1, 0, (ip % 0x100_0000) * 256 + a, parts + 1, true)
        }
    } else {
        if a >= 0x1000_0000 {
            Err(())
        } else {
            sp_ect_run(b, i + 1, a * 10 + (b[i] - 48), ip, parts, dotted)
        }
    }
}

/// The scan of the decimal value after the colon.
pub open spec fn sp_ect_num(b: Seq<u8>, i: int, n: int) -> Result<(int, int), ()>
    decreases b.len() - i,
{
    if !(0 <= i < b.len()) || !is_dig(b[i]) {
        Ok((i, n))
    } else if n >= 0x1000_0000 {
        Err(())
    } else {
        sp_ect_num(b, i + 1, n * 10 + (b[i] - 48))
    }
}

/// What community text parses to, reading the bytes from `i` in keyword state
/// `state` (0 before any keyword, 2 after `rt`, 3 after `soo`) with the
/// values gathered so far in `acc`: whitespace is skipped, each value must
/// follow a keyword, and text fitting no form is an error.
pub open spec fn sp_ext_community_text(
    b: Seq<u8>,
    i: int,
    state: u8,
    acc: Seq<crate::community::ExtCommunityValue>,
) -> Result<Seq<crate::community::ExtCommunityValue>, ()>
    decreases b.len() - i,
{
    if !(0 <= i < b.len()) {
        Ok(acc)
    } else if b[i] == 32 || b[i] == 9 {
        sp_ext_community_text(b, i + 1, state, acc)
    } else if b[i] == 114 {
        if b.len() - i > 1 && b[i + 1] == 116 {
            sp_ext_community_text(b, i + 2, 2, acc)
        } else {
            Err(())
        }
    } else if b[i] == 115 {
        if b.len() - i > 2 && b[i + 1] == 111 && b[i + 2] == 111 {
            sp_ext_community_text(b, i + 3, 3, acc)
        } else {
            Err(())
        }
    } else if is_dig(b[i]) {
        if state != 2 && state != 3 {
            Err(())
        } else {
            match sp_ect_run(b, i, 0, 0, 1, false) {
                Err(_) => Err(()),
                Ok((j, a, ip, parts, dotted)) => if !(0 <= j < b.len()) || b[j] != 58 {
                    Err(())
                } else {
                    match sp_ect_num(b, j + 1, 0) {
                        Err(_) => Err(()),
                        Ok((k, n)) => if k == j + 1 {
                            Err(())
                        } else if k <= i || k > b.len() {
                            Err(())
                        } else {
                            let low_type: u8 = if state == 2 {
                                0x02
                            } else {
                                0x03
                            };
                            if dotted {
                                if parts != 4 || a > 255 || n > 0xffff {
                                    Err(())
                                } else {
                                    sp_ext_community_text(
                                        b,
                                        k,
                                        state,
                                        acc.push(
                                            crate::community::ExtCommunityValue {
                                                high_type: 0x01,
                                                low_type,
                                                val: (((ip % 0x100_0000) * 256 + a) * 0x1_0000
                                                    + n) as u64,
                                            },
                                        ),
                                    )
                                }
                            } else {
                                if a > 0xffff || n > 0xffff_ffff {
                                    Err(())
                                } else {
                                    sp_ext_community_text(
                                        b,
                                        k,
                                        state,
                                        acc.push(
                                            crate::community::ExtCommunityValue {
                                                high_type: 0x00,
                                                low_type,
                                                val: (a * 0x1_0000_0000 + n) as u64,
                                            },
                                        ),
                                    )
                                }
                            }
                        },
                    }
                },
            }
        }
    } else {
        Err(())
    }
}

impl ExtCommunity {
    /// Renders the whole list, space separated.
    pub fn to_str(&self) -> (r: String)
        requires
            self.wf(),
        ensures
            r@ == ext_community_str(self.0@),
    {
        let mut out = String::new();
        let mut i: usize = 0;
        proof {
            assert(out@ =~= ext_community_str(self.0@.take(0int)));
        }
        while i < self.0.len()
            invariant
                self.wf(),
                i <= self.0.len(),
                out@ == ext_community_str(self.0@.take(i as int)),
            decreases self.0.len() - i,
        {
            if i > 0 {
                proof {
                    reveal_strlit(" ");
                }
                out.append(" ");
            }
            proof {
                assert(self.0@[i as int].wf());
            }
            let t = self.0[i].to_str();
            out.append(t.as_str());
            proof {
                assert(self.0@.take(i + 1).drop_last() =~= self.0@.take(i as int));
                assert(self.0@.take(i + 1).last() == self.0@[i as int]);
                assert(out@ =~= ext_community_str(self.0@.take(i + 1)));
            }
            i = i + 1;
        }
        proof {
            assert(self.0@.take(self.0@.len() as int) =~= self.0@);
        }
        out
    }

    /// Parses the community text grammar of `rt` / `soo` keywords and
    /// `AA:NN` or `A.B.C.D:NN` values: the result is exactly the spec-level
    /// reading of the text, and an error comes exactly when the text fits no
    /// form.
    #[verifier::rlimit(90)]
    pub fn from_str(s: &str) -> (r: Result<ExtCommunity, ()>)
        ensures
            match r {
                Ok(c) => sp_ext_community_text(s.spec_bytes(), 0, 0, Seq::empty()) == Ok::<_, ()>(
                    c.0@,
                ) && c.wf(),
                Err(_) => sp_ext_community_text(s.spec_bytes(), 0, 0, Seq::empty()) == Err::<
                    Seq<crate::community::ExtCommunityValue>,
                    (),
                >(()),
            },
    {
        let b = s.as_bytes();
        let mut vals: Vec<crate::community::ExtCommunityValue> = Vec::new();
        let mut i: usize = 0;
        // 0 = no keyword seen yet, 2 = route target, 3 = route origin.
        let mut state: u8 = 0;
        proof {
            assert(vals@ =~= Seq::<crate::community::ExtCommunityValue>::empty());
        }
        while i < b.len()
            invariant
                i <= b.len(),
                b@ == s.spec_bytes(),
                forall|m: int| 0 <= m < vals@.len() ==> (#[trigger] vals@[m]).wf(),
                sp_ext_community_text(b@, 0, 0, Seq::empty()) == sp_ext_community_text(
                    b@,
                    i as int,
                    state,
                    vals@,
                ),
            decreases b.len() - i,
        {
            let c = b[i];
            if c == 32 || c == 9 {
                i = i + 1;
            } else if c == 114 {
                // `rt`
                if b.len() - i > 1 && b[i + 1] == 116 {
                    state = 2;
                    i = i + 2;
                } else {
                    return Err(());
                }
            } else if c == 115 {
                // `soo`
                if b.len() - i > 2 && b[i + 1] == 111 && b[i + 2] == 111 {
                    state = 3;
                    i = i + 3;
                } else {
                    return Err(());
                }
            } else if 48 <= c && c <= 57 {
                if state != 2 && state != 3 {
                    return Err(());
                }
                // A decimal run, optionally dotted, then `:`, then a decimal run.
                let ghost i0 = i as int;
                let ghost vals0 = vals@;
                let ghost state0 = state;
                let mut a: u64 = 0;
                let mut dotted = false;
                let mut ip: u64 = 0;
                let mut parts: u8 = 1;
                while i < b.len() && ((48 <= b[i] && b[i] <= 57) || b[i] == 46)
                    invariant
                        i0 <= i <= b.len(),
                        b@ == s.spec_bytes(),
                        0 <= i0 < b@.len(),
                        48 <= b@[i0] <= 57,
                        state == state0,
                        state == 2 || state == 3,
                        vals@ == vals0,
                        sp_ext_community_text(b@, 0, 0, Seq::empty()) == sp_ext_community_text(
                            b@,
                            i0,
                            state,
                            vals@,
                        ),
                        a < 0x1_0000_0000,
                        ip < 0x1_0000_0000,
                        1 <= parts <= 4,
                        sp_ect_run(b@, i0, 0, 0, 1, false) == sp_ect_run(
                            b@,
                            i as int,
                            a as int,
                            ip as int,
                            parts as int,
                            dotted,
                        ),
                    decreases b.len() - i,
                {
                    if b[i] == 46 {
                        // A dot: shift the byte just read into the address.
                        if a > 255 || parts >= 4 {
                            return Err(());
                        }
                        ip = (ip % 0x100_0000) * 256 + a;
                        a = 0;
                        dotted = true;
                        parts = parts + 1;
                    } else {
                        if a >= 0x1000_0000 {
                            return Err(());
                        }
                        a = a * 10 + ((b[i] - 48) as u64);
                    }
                    i = i + 1;
                }
                proof {
                    assert(sp_ect_run(b@, i0, 0, 0, 1, false) == Ok::<_, ()>(
                        (i as int, a as int, ip as int, parts as int, dotted),
                    ));
                }
                if i >= b.len() || b[i] != 58 {
                    return Err(());
                }
                proof {
                    assert(b@[i as int] == 58);
                }
                i = i + 1;
                let j1 = i;
                let ghost gj1 = i as int;
                let mut n: u64 = 0;
                while i < b.len() && 48 <= b[i] && b[i] <= 57
                    invariant
                        i0 < gj1 <= i <= b.len(),
                        gj1 == j1 as int,
                        b@ == s.spec_bytes(),
                        0 <= i0 < b@.len(),
                        48 <= b@[i0] <= 57,
                        state == state0,
                        state == 2 || state == 3,
                        vals@ == vals0,
                        forall|m: int| 0 <= m < vals@.len() ==> (#[trigger] vals@[m]).wf(),
                        sp_ext_community_text(b@, 0, 0, Seq::empty()) == sp_ext_community_text(
                            b@,
                            i0,
                            state,
                            vals@,
                        ),
                        a < 0x1_0000_0000,
                        ip < 0x1_0000_0000,
                        1 <= parts <= 4,
                        b@[gj1 - 1] == 58,
                        sp_ect_run(b@, i0, 0, 0, 1, false) == Ok::<_, ()>(
                            ((gj1 - 1) as int, a as int, ip as int, parts as int, dotted),
                        ),
                        n < 0x1_0000_0000,
                        sp_ect_num(b@, gj1, 0) == sp_ect_num(b@, i as int, n as int),
                    decreases b.len() - i,
                {
                    if n >= 0x1000_0000 {
                        return Err(());
                    }
                    n = n * 10 + ((b[i] - 48) as u64);
                    i = i + 1;
                }
                proof {
                    assert(sp_ect_num(b@, gj1, 0) == Ok::<_, ()>((i as int, n as int)));
                }
                if i == j1 {
                    return Err(());
                }
                let low_type: u8 = if state == 2 {
                    0x02
                } else {
                    0x03
                };
                proof {
                    crate::wire::lemma_pow256_consts();
                }
                let v: crate::community::ExtCommunityValue = if dotted {
                    // An IPv4-address form: four dotted parts, then a 16-bit value.
                    if parts != 4 || a > 255 || n > 0xffff {
                        return Err(());
                    }
                    let addr = (ip % 0x100_0000) * 256 + a;
                    crate::community::ExtCommunityValue {
                        high_type: 0x01,
                        low_type,
                        val: addr * 0x1_0000 + n,
                    }
                } else {
                    // A two-octet-AS form: a 16-bit AS, then a 32-bit value.
                    if a > 0xffff || n > 0xffff_ffff {
                        return Err(());
                    }
                    crate::community::ExtCommunityValue {
                        high_type: 0x00,
                        low_type,
                        val: a * 0x1_0000_0000 + n,
                    }
                };
                let ghost pre = vals@;
                vals.push(v);
                proof {
                    assert(vals@ =~= pre.push(v));
                    assert(sp_ext_community_text(b@, 0, 0, Seq::empty())
                        == sp_ext_community_text(b@, i as int, state, vals@));
                }
            } else {
                return Err(());
            }
        }
        proof {
            assert(sp_ext_community_text(b@, i as int, state, vals@) == Ok::<_, ()>(vals@));
        }
        Ok(ExtCommunity(vals))
    }
}

/// The space-joined text of a run of AS numbers.
pub open spec fn asn_list_str(asns: Seq<u32>) -> Seq<char>
    decreases asns.len(),
{
    if asns.len() == 0 {
        Seq::empty()
    } else if asns.len() == 1 {
        asn_str(asns[0])
    } else {
        asn_list_str(asns.drop_last()) + seq![' '] + asn_str(asns.last())
    }
}

/// The text of one AS-path segment: the numbers, wrapped in braces for a set,
/// parentheses for a confederation sequence, brackets for a confederation set.
pub open spec fn as4_segment_str(g: crate::aspath::As4SegV) -> Seq<char> {
    if g.typ == AS_SET {
        seq!['{'] + asn_list_str(g.asns) + seq!['}']
    } else if g.typ == AS_CONFED_SEQ {
        seq!['('] + asn_list_str(g.asns) + seq![')']
    } else if g.typ == AS_CONFED_SET {
        seq!['['] + asn_list_str(g.asns) + seq![']']
    } else {
        asn_list_str(g.asns)
    }
}

/// The space-joined text of a whole AS path.
pub open spec fn as4_path_str(segs: Seq<crate::aspath::As4SegV>) -> Seq<char>
    decreases segs.len(),
{
    if segs.len() == 0 {
        Seq::empty()
    } else if segs.len() == 1 {
        as4_segment_str(segs[0])
    } else {
        as4_path_str(segs.drop_last()) + seq![' '] + as4_segment_str(segs.last())
    }
}

impl As4Segment {
    /// Renders one segment in its canonical text.
    pub fn to_str(&self) -> (r: String)
        ensures
            r@ == as4_segment_str(self@),
    {
        let mut body = String::new();
        let mut i: usize = 0;
        proof {
            assert(body@ =~= asn_list_str(self.asn@.take(0int)));
        }
        while i < self.asn.len()
            invariant
                i <= self.asn.len(),
                body@ == asn_list_str(self.asn@.take(i as int)),
            decreases self.asn.len() - i,
        {
            if i > 0 {
                proof {
                    reveal_strlit(" ");
                }
                body.append(" ");
            }
            let t = asn_to_string(self.asn[i]);
            body.append(t.as_str());
            proof {
                assert(self.asn@.take(i + 1).drop_last() =~= self.asn@.take(i as int));
                assert(self.asn@.take(i + 1).last() == self.asn@[i as int]);
                assert(body@ =~= asn_list_str(self.asn@.take(i + 1)));
            }
            i = i + 1;
        }
        proof {
            assert(self.asn@.take(self.asn@.len() as int) =~= self.asn@);
        }
        proof {
            reveal_strlit("{");
            reveal_strlit("}");
            reveal_strlit("(");
            reveal_strlit(")");
            reveal_strlit("[");
            reveal_strlit("]");
        }
        let mut out = String::new();
        if self.typ == AS_SET {
            out.append("{");
            out.append(body.as_str());
            out.append("}");
        } else if self.typ == AS_CONFED_SEQ {
            out.append("(");
            out.append(body.as_str());
            out.append(")");
        } else if self.typ == AS_CONFED_SET {
            out.append("[");
            out.append(body.as_str());
            out.append("]");
        } else {
            out.append(body.as_str());
        }
        proof {
            assert(out@ =~= as4_segment_str(self@));
        }
        out
    }
}

/// The scan of one decimal-or-dotted AS number, carrying the low part `a`,
/// the part before the dot `hi` and whether a dot was seen.
pub open spec fn sp_asnum_run(b: Seq<u8>, i: int, a: int, hi: int, dotted: bool) -> Result<
    (int, int, int, bool),
    (),
>
    decreases b.len() - i,
{
    if !(0 <= i < b.len()) || !(is_dig(b[i]) || b[i] == 46) {
        Ok((i, a, hi, dotted))
    } else if b[i] == 46 {
        if dotted || a > 0xffff {
            Err(())
        } else {
            sp_asnum_run(b, i + 1, 0, a, true)
        }
    } else {
        if a > 0x1999_9999 {
            Err(())
        } else if a * 10 + (b[i] - 48) > 0xffff_ffff {
            Err(())
        } else {
            sp_asnum_run(b, i + 1, a * 10 + (b[i] - 48), hi, dotted)
        }
    }
}

/// The open segment, with `seg_type` and the gathered numbers, closed onto
/// the path when non-empty.
pub open spec fn close_seg(
    seg_type: u8,
    seg: Seq<u32>,
    acc: Seq<crate::aspath::As4SegV>,
) -> Seq<crate::aspath::As4SegV> {
    if seg.len() > 0 {
        acc.push(crate::aspath::As4SegV { typ: seg_type, asns: seg })
    } else {
        acc
    }
}

/// What AS-path text parses to, reading from `i` with the open segment type,
/// its gathered numbers, and the closed segments so far: numbers are decimal
/// or dotted, whitespace separates them, and the six delimiters open and
/// close set, confederation-sequence and confederation-set segments from a
/// plain sequence; anything else is an error.
pub open spec fn sp_as_path_text(
    b: Seq<u8>,
    i: int,
    seg_type: u8,
    seg: Seq<u32>,
    acc: Seq<crate::aspath::As4SegV>,
) -> Result<Seq<crate::aspath::As4SegV>, ()>
    decreases b.len() - i,
{
    if !(0 <= i < b.len()) {
        Ok(close_seg(seg_type, seg, acc))
    } else if b[i] == 32 || b[i] == 9 {
        sp_as_path_text(b, i + 1, seg_type, seg, acc)
    } else if is_dig(b[i]) {
        match sp_asnum_run(b, i, 0, 0, false) {
            Err(_) => Err(()),
            Ok((j, a, hi, dotted)) => if dotted && a > 0xffff {
                Err(())
            } else if j <= i || j > b.len() {
                Err(())
            } else {
                let asn: int = if dotted {
                    hi * 0x1_0000 + a
                } else {
                    a
                };
                sp_as_path_text(b, j, seg_type, seg.push(asn as u32), acc)
            },
        }
    } else if b[i] == 123 {
        if seg_type != AS_SEQ {
            Err(())
        } else {
            sp_as_path_text(b, i + 1, AS_SET, Seq::empty(), close_seg(seg_type, seg, acc))
        }
    } else if b[i] == 125 {
        if seg_type != AS_SET {
            Err(())
        } else {
            sp_as_path_text(b, i + 1, AS_SEQ, Seq::empty(), close_seg(seg_type, seg, acc))
        }
    } else if b[i] == 40 {
        if seg_type != AS_SEQ {
            Err(())
        } else {
            sp_as_path_text(b, i + 1, AS_CONFED_SEQ, Seq::empty(), close_seg(seg_type, seg, acc))
        }
    } else if b[i] == 41 {
        if seg_type != AS_CONFED_SEQ {
            Err(())
        } else {
            sp_as_path_text(b, i + 1, AS_SEQ, Seq::empty(), close_seg(seg_type, seg, acc))
        }
    } else if b[i] == 91 {
        if seg_type != AS_SEQ {
            Err(())
        } else {
            sp_as_path_text(b, i + 1, AS_CONFED_SET, Seq::empty(), close_seg(seg_type, seg, acc))
        }
    } else if b[i] == 93 {
        if seg_type != AS_CONFED_SET {
            Err(())
        } else {
            sp_as_path_text(b, i + 1, AS_SEQ, Seq::empty(), close_seg(seg_type, seg, acc))
        }
    } else {
        Err(())
    }
}

impl As4Path {
    /// Renders the whole path, segments space separated.
    pub fn to_str(&self) -> (r: String)
        ensures
            r@ == as4_path_str(crate::aspath::as4_views(self.segs@)),
    {
        let mut out = String::new();
        let mut i: usize = 0;
        proof {
            assert(crate::aspath::as4_views(self.segs@.take(0int)) =~= crate::aspath::as4_views(
                self.segs@,
            ).take(0int));
            assert(out@ =~= as4_path_str(crate::aspath::as4_views(self.segs@).take(0int)));
        }
        while i < self.segs.len()
            invariant
                i <= self.segs.len(),
                out@ == as4_path_str(crate::aspath::as4_views(self.segs@).take(i as int)),
            decreases self.segs.len() - i,
        {
            if i > 0 {
                proof {
                    reveal_strlit(" ");
                }
                out.append(" ");
            }
            let t = self.segs[i].to_str();
            out.append(t.as_str());
            proof {
                let vs = crate::aspath::as4_views(self.segs@);
                assert(vs.take(i + 1).drop_last() =~= vs.take(i as int));
                assert(vs.take(i + 1).last() == vs[i as int]);
                assert(vs[i as int] == self.segs@[i as int]@);
                assert(out@ =~= as4_path_str(vs.take(i + 1)));
            }
            i = i + 1;
        }
        proof {
            let vs = crate::aspath::as4_views(self.segs@);
            assert(vs.take(vs.len() as int) =~= vs);
        }
        out
    }

    /// Parses the AS-path text grammar: the result is exactly the spec-level
    /// reading of the text, and an error comes exactly when the text fits no
    /// form.
    #[verifier::rlimit(90)]
    pub fn from_str(s: &str) -> (r: Result<As4Path, ()>)
        ensures
            match r {
                Ok(p) => sp_as_path_text(s.spec_bytes(), 0, AS_SEQ, Seq::empty(), Seq::empty())
                    == Ok::<_, ()>(crate::aspath::as4_views(p.segs@)),
                Err(_) => sp_as_path_text(s.spec_bytes(), 0, AS_SEQ, Seq::empty(), Seq::empty())
                    == Err::<Seq<crate::aspath::As4SegV>, ()>(()),
            },
    {
        let b = s.as_bytes();
        let mut path = As4Path::new();
        let mut seg_type: u8 = AS_SEQ;
        let mut seg: Vec<u32> = Vec::new();
        let mut i: usize = 0;
        proof {
            assert(seg@ =~= Seq::<u32>::empty());
            assert(crate::aspath::as4_views(path.segs@) =~= Seq::<crate::aspath::As4SegV>::empty());
        }
        while i < b.len()
            invariant
                i <= b.len(),
                b@ == s.spec_bytes(),
                sp_as_path_text(b@, 0, AS_SEQ, Seq::empty(), Seq::empty()) == sp_as_path_text(
                    b@,
                    i as int,
                    seg_type,
                    seg@,
                    crate::aspath::as4_views(path.segs@),
                ),
            decreases b.len() - i,
        {
            let c = b[i];
            if c == 32 || c == 9 {
                i = i + 1;
            } else if 48 <= c && c <= 57 {
                // A decimal AS number, optionally dotted `hi.lo`.
                let ghost i0 = i as int;
                let ghost seg0 = seg@;
                let ghost segt0 = seg_type;
                let ghost path0 = crate::aspath::as4_views(path.segs@);
                let mut a: u64 = 0;
                let mut hi: u64 = 0;
                let mut dotted = false;
                while i < b.len() && ((48 <= b[i] && b[i] <= 57) || b[i] == 46)
                    invariant
                        i0 <= i <= b.len(),
                        0 <= i0 < b@.len(),
                        48 <= b@[i0] <= 57,
                        b@ == s.spec_bytes(),
                        seg@ == seg0,
                        seg_type == segt0,
                        crate::aspath::as4_views(path.segs@) == path0,
                        sp_as_path_text(b@, 0, AS_SEQ, Seq::empty(), Seq::empty())
                            == sp_as_path_text(b@, i0, seg_type, seg@, path0),
                        a <= 0xffff_ffff,
                        hi <= 0xffff,
                        sp_asnum_run(b@, i0, 0, 0, false) == sp_asnum_run(
                            b@,
                            i as int,
                            a as int,
                            hi as int,
                            dotted,
                        ),
                    decreases b.len() - i,
                {
                    if b[i] == 46 {
                        if dotted || a > 0xffff {
                            return Err(());
                        }
                        hi = a;
                        a = 0;
                        dotted = true;
                    } else {
                        if a > 0x1999_9999 {
                            return Err(());
                        }
                        a = a * 10 + ((b[i] - 48) as u64);
                        if a > 0xffff_ffff {
                            return Err(());
                        }
                    }
                    i = i + 1;
                }
                proof {
                    assert(sp_asnum_run(b@, i0, 0, 0, false) == Ok::<_, ()>(
                        (i as int, a as int, hi as int, dotted),
                    ));
                    assert(i > i0);
                }
                let asn: u64 = if dotted {
                    if a > 0xffff {
                        return Err(());
                    }
                    hi * 0x1_0000 + a
                } else {
                    a
                };
                let ghost pre = seg@;
                seg.push(asn as u32);
                proof {
                    assert(seg@ =~= pre.push(asn as u32));
                }
            } else if c == 123 {
                // `{` opens a set.
                if seg_type != AS_SEQ {
                    return Err(());
                }
                close_open_segment(&mut path, &mut seg, seg_type);
                seg_type = AS_SET;
                i = i + 1;
            } else if c == 125 {
                // `}` closes a set.
                if seg_type != AS_SET {
                    return Err(());
                }
                close_open_segment(&mut path, &mut seg, seg_type);
                seg_type = AS_SEQ;
                i = i + 1;
            } else if c == 40 {
                // `(` opens a confederation sequence.
                if seg_type != AS_SEQ {
                    return Err(());
                }
                close_open_segment(&mut path, &mut seg, seg_type);
                seg_type = AS_CONFED_SEQ;
                i = i + 1;
            } else if c == 41 {
                // `)` closes a confederation sequence.
                if seg_type != AS_CONFED_SEQ {
                    return Err(());
                }
                close_open_segment(&mut path, &mut seg, seg_type);
                seg_type = AS_SEQ;
                i = i + 1;
            } else if c == 91 {
                // `[` opens a confederation set.
                if seg_type != AS_SEQ {
                    return Err(());
                }
                close_open_segment(&mut path, &mut seg, seg_type);
                seg_type = AS_CONFED_SET;
                i = i + 1;
            } else if c == 93 {
                // `]` closes a confederation set.
                if seg_type != AS_CONFED_SET {
                    return Err(());
                }
                close_open_segment(&mut path, &mut seg, seg_type);
                seg_type = AS_SEQ;
                i = i + 1;
            } else {
                return Err(());
            }
        }
        close_open_segment(&mut path, &mut seg, seg_type);
        proof {
            assert(sp_as_path_text(
                b@,
                i as int,
                seg_type,
                Seq::<u32>::empty(),
                crate::aspath::as4_views(path.segs@),
            ) == Ok::<_, ()>(crate::aspath::as4_views(path.segs@)));
        }
        Ok(path)
    }
}

/// Moves the gathered numbers onto the path as one segment, when there are
/// any; the number vector is left empty either way.
fn close_open_segment(path: &mut As4Path, seg: &mut Vec<u32>, seg_type: u8)
    ensures
        crate::aspath::as4_views(final(path).segs@) == close_seg(
            seg_type,
            old(seg)@,
            crate::aspath::as4_views(old(path).segs@),
        ),
        final(seg)@ =~= Seq::<u32>::empty(),
{
    if seg.len() > 0 {
        let mut taken: Vec<u32> = Vec::new();
        core::mem::swap(seg, &mut taken);
        let ghost pre = path.segs@;
        path.segs.push(As4Segment { typ: seg_type, asn: taken });
        proof {
            assert(crate::aspath::as4_views(path.segs@) =~= crate::aspath::as4_views(pre).push(
                (crate::aspath::As4SegV { typ: seg_type, asns: old(seg)@ }),
            ));
        }
    }
}

} // verus!
