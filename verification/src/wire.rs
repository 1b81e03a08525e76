//! Big-endian wire primitives: the byte-level readers and writers that every
//! other codec layer is built on, together with their algebraic laws.
use vstd::prelude::*;

verus! {

/// 256 raised to `e`: the number of values a big-endian field of `e` bytes can hold.
pub open spec fn pow256(e: nat) -> nat
    decreases e,
{
    if e == 0 {
        1
    } else {
        256 * pow256((e - 1) as nat)
    }
}

/// The unsigned value of a byte sequence read big-endian.
pub open spec fn be_val(s: Seq<u8>) -> nat
    decreases s.len(),
{
    if s.len() == 0 {
        0
    } else {
        be_val(s.drop_last()) * 256 + (s.last() as nat)
    }
}

/// The `w`-byte big-endian encoding of `v` (mod 256^w).
pub open spec fn be_enc(v: nat, w: nat) -> Seq<u8>
    decreases w,
{
    if w == 0 {
        Seq::empty()
    } else {
        be_enc(v / 256, (w - 1) as nat).push((v % 256) as u8)
    }
}

pub proof fn lemma_pow256_pos(e: nat)
    ensures
        pow256(e) >= 1,
    decreases e,
{
    if e > 0 {
        lemma_pow256_pos((e - 1) as nat);
    }
}

pub proof fn lemma_pow256_mono(a: nat, b: nat)
    requires
        a <= b,
    ensures
        pow256(a) <= pow256(b),
    decreases b,
{
    if a < b {
        lemma_pow256_mono(a, (b - 1) as nat);
        lemma_pow256_pos((b - 1) as nat);
    }
}

/// A byte sequence of length `w` denotes a value below 256^w.
pub proof fn lemma_be_val_bound(s: Seq<u8>)
    ensures
        be_val(s) < pow256(s.len()),
    decreases s.len(),
{
    if s.len() > 0 {
        lemma_be_val_bound(s.drop_last());
    }
}

pub proof fn lemma_be_enc_len(v: nat, w: nat)
    ensures
        be_enc(v, w).len() == w,
    decreases w,
{
    if w > 0 {
        lemma_be_enc_len(v / 256, (w - 1) as nat);
    }
}

/// Appending one byte shifts the value by one byte.
pub proof fn lemma_be_val_push(s: Seq<u8>, b: u8)
    ensures
        be_val(s.push(b)) == be_val(s) * 256 + b,
{
    assert(s.push(b).drop_last() =~= s);
    assert(s.push(b).last() == b);
}

/// Encoding then decoding returns the value, for values that fit in `w` bytes.
pub proof fn lemma_be_val_enc(v: nat, w: nat)
    requires
        v < pow256(w),
    ensures
        be_val(be_enc(v, w)) == v,
    decreases w,
{
    if w == 0 {
    } else {
        let hi = v / 256;
        let lo = v % 256;
        assert(hi < pow256((w - 1) as nat)) by (nonlinear_arith)
            requires
                v < pow256(w),
                pow256(w) == 256 * pow256((w - 1) as nat),
                hi == v / 256,
        ;
        lemma_be_val_enc(hi, (w - 1) as nat);
        lemma_be_val_push(be_enc(hi, (w - 1) as nat), (lo) as u8);
        assert(hi * 256 + lo == v) by (nonlinear_arith)
            requires
                hi == v / 256,
                lo == v % 256,
        ;
    }
}

/// Decoding then encoding returns the bytes.
pub proof fn lemma_be_enc_val(s: Seq<u8>)
    ensures
        be_enc(be_val(s), s.len()) == s,
    decreases s.len(),
{
    if s.len() == 0 {
        assert(be_enc(be_val(s), s.len()) =~= s);
    } else {
        let p = s.drop_last();
        let b = s.last();
        lemma_be_enc_val(p);
        let v = be_val(s);
        assert(v == be_val(p) * 256 + b);
        assert(v / 256 == be_val(p) && v % 256 == b) by (nonlinear_arith)
            requires
                v == be_val(p) * 256 + b,
                0 <= b < 256,
        ;
        assert(be_enc(v, s.len()) =~= s);
    }
}

/// Reads `w` bytes big-endian at `pos`.
pub fn read_be(input: &[u8], pos: usize, w: usize) -> (r: u128)
    requires
        w <= 16,
        pos + w <= input.len(),
    ensures
        r == be_val(input@.subrange(pos as int, pos + w)),
    decreases w,
{
    proof {
        lemma_be_val_bound(input@.subrange(pos as int, pos + w));
        lemma_pow256_mono(w as nat, 16);
        reveal_with_fuel(pow256, 17);
        assert(pow256(16) == 0x1_0000_0000_0000_0000_0000_0000_0000_0000);
    }
    if w == 0 {
        proof {
            assert(input@.subrange(pos as int, pos as int).len() == 0);
        }
        0
    } else {
        let hi = read_be(input, pos, w - 1);
        let b = input[pos + w - 1];
        proof {
            let s = input@.subrange(pos as int, pos + w);
            assert(s.drop_last() =~= input@.subrange(pos as int, pos + (w - 1)));
            assert(s.last() == b);
            lemma_be_val_bound(s.drop_last());
            lemma_pow256_mono((w - 1) as nat, 15);
            reveal_with_fuel(pow256, 17);
            assert(pow256(15) == 0x1_000000_000000_000000_000000_000000);
        }
        hi * 256 + (b as u128)
    }
}

/// Appends the `w`-byte big-endian encoding of `v`.
pub fn write_be(out: &mut Vec<u8>, v: u128, w: usize)
    requires
        w <= 16,
        v < pow256(w as nat),
    ensures
        final(out)@ == old(out)@ + be_enc(v as nat, w as nat),
    decreases w,
{
    if w == 0 {
        proof {
            assert(out@ =~= old(out)@ + be_enc(v as nat, 0));
        }
    } else {
        proof {
            assert(pow256(w as nat) == 256 * pow256((w - 1) as nat));
            assert(v / 256 < pow256((w - 1) as nat)) by (nonlinear_arith)
                requires
                    v < 256 * pow256((w - 1) as nat),
            ;
        }
        write_be(out, v / 256, w - 1);
        out.push((v % 256) as u8);
        proof {
            assert(out@ =~= old(out)@ + be_enc(v as nat, w as nat));
        }
    }
}

/// Copies `n` bytes starting at `pos` into a fresh vector.
pub fn read_bytes(input: &[u8], pos: usize, n: usize) -> (r: Vec<u8>)
    requires
        pos + n <= input.len(),
    ensures
        r@ == input@.subrange(pos as int, pos + n),
{
    let mut r: Vec<u8> = Vec::new();
    let mut i: usize = 0;
    while i < n
        invariant
            i <= n,
            pos + n <= input.len(),
            r@ == input@.subrange(pos as int, pos + i),
        decreases n - i,
    {
        r.push(input[pos + i]);
        proof {
            assert(r@ =~= input@.subrange(pos as int, pos + i + 1));
        }
        i = i + 1;
    }
    r
}

/// Appends every byte of `src`.
pub fn write_bytes(out: &mut Vec<u8>, src: &[u8])
    ensures
        final(out)@ == old(out)@ + src@,
{
    let mut i: usize = 0;
    while i < src.len()
        invariant
            i <= src.len(),
            out@ == old(out)@ + src@.subrange(0, i as int),
        decreases src.len() - i,
    {
        out.push(src[i]);
        proof {
            assert(out@ =~= old(out)@ + src@.subrange(0, i + 1));
        }
        i = i + 1;
    }
    proof {
        assert(out@ =~= old(out)@ + src@);
    }
}

/// Overwrites `out[pos..pos+w]` with the big-endian encoding of `v`:
/// the emitters use it to back-patch length fields.
pub fn patch_be(out: &mut Vec<u8>, pos: usize, v: u128, w: usize)
    requires
        w <= 16,
        v < pow256(w as nat),
        pos + w <= old(out).len(),
    ensures
        final(out)@ == old(out)@.subrange(0, pos as int) + be_enc(v as nat, w as nat)
            + old(out)@.subrange(pos + w, old(out)@.len() as int),
        final(out)@.len() == old(out)@.len(),
{
    let ghost enc = be_enc(v as nat, w as nat);
    proof {
        lemma_be_enc_len(v as nat, w as nat);
    }
    let mut i: usize = 0;
    let mut rest: u128 = v;
    proof {
        assert(pow256(0) == 1);
        assert((v as nat) / 1 == v as nat);
    }
    // Work from the least-significant byte backwards.
    while i < w
        invariant
            i <= w,
            w <= 16,
            pos + w <= old(out).len(),
            out@.len() == old(out)@.len(),
            enc == be_enc(v as nat, w as nat),
            enc.len() == w,
            rest == (v as nat) / pow256(i as nat),
            forall|j: int| 0 <= j < old(out)@.len() && !(pos + w - i <= j < pos + w) ==> out@[j] == old(out)@[j],
            forall|j: int| w - i <= j < w ==> out@[pos + j] == enc[j],
        decreases w - i,
    {
        proof {
            lemma_be_enc_byte(v as nat, w as nat, i as nat);
        }
        out.set(pos + w - 1 - i, (rest % 256) as u8);
        proof {
            lemma_pow256_pos(i as nat);
            assert(rest / 256 == (v as nat) / pow256((i + 1) as nat)) by (nonlinear_arith)
                requires
                    rest == (v as nat) / pow256(i as nat),
                    pow256((i + 1) as nat) == 256 * pow256(i as nat),
                    pow256(i as nat) >= 1,
            ;
        }
        rest = rest / 256;
        i = i + 1;
    }
    proof {
        assert(out@ =~= old(out)@.subrange(0, pos as int) + enc + old(out)@.subrange(
            pos + w,
            old(out)@.len() as int,
        ));
    }
}

/// The powers of 256 the codec works with, as literals.
pub proof fn lemma_pow256_consts()
    ensures
        pow256(0) == 1,
        pow256(1) == 0x100,
        pow256(2) == 0x1_0000,
        pow256(3) == 0x100_0000,
        pow256(4) == 0x1_0000_0000,
        pow256(6) == 0x1_0000_0000_0000,
        pow256(8) == 0x1_0000_0000_0000_0000,
        pow256(9) == 0x100_0000_0000_0000_0000,
        pow256(12) == 0x1_0000_0000_0000_0000_0000_0000,
        pow256(15) == 0x1_000000_000000_000000_000000_000000,
        pow256(16) == 0x1_0000_0000_0000_0000_0000_0000_0000_0000,
{
    reveal_with_fuel(pow256, 17);
}

/// A big-endian encoding splits into the encodings of its high and low parts.
pub proof fn lemma_be_enc_split(v: nat, w: nat, k: nat)
    requires
        k <= w,
    ensures
        be_enc(v, w) == be_enc(v / pow256(k), (w - k) as nat) + be_enc(v % pow256(k), k),
    decreases k,
{
    if k == 0 {
        assert(pow256(0) == 1);
        assert(v / 1 == v && v % 1 == 0);
        assert(be_enc(v, w) =~= be_enc(v, w) + be_enc(0, 0));
    } else {
        let pk = pow256(k);
        let pk1 = pow256((k - 1) as nat);
        lemma_pow256_pos((k - 1) as nat);
        lemma_be_enc_split(v / 256, (w - 1) as nat, (k - 1) as nat);
        assert((v / 256) / pk1 == v / pk) by (nonlinear_arith)
            requires
                pk == 256 * pk1,
                pk1 >= 1,
        ;
        vstd::arithmetic::div_mod::lemma_breakdown(v as int, 256, pk1 as int);
        assert(v % pk == 256 * ((v / 256) % pk1) + v % 256);
        let lo = v % pk;
        vstd::arithmetic::div_mod::lemma_mod_bound((v / 256) as int, pk1 as int);
        vstd::arithmetic::div_mod::lemma_fundamental_div_mod_converse(
            lo as int,
            256,
            ((v / 256) % pk1) as int,
            (v % 256) as int,
        );
        assert(lo / 256 == (v / 256) % pk1 && lo % 256 == v % 256);
        assert(be_enc(v, w) =~= be_enc(v / pk, (w - k) as nat) + be_enc(lo, k));
    }
}

/// 256^e as a machine value.
pub fn pow256x(e: usize) -> (r: u128)
    requires
        e <= 15,
    ensures
        r == pow256(e as nat),
    decreases e,
{
    proof {
        reveal_with_fuel(pow256, 17);
        assert(pow256(15) == 0x1_000000_000000_000000_000000_000000);
        lemma_pow256_mono(e as nat, 15);
    }
    if e == 0 {
        1
    } else {
        256 * pow256x(e - 1)
    }
}

/// The byte of `be_enc(v, w)` at distance `i` from the end holds digit `v / 256^i mod 256`.
pub proof fn lemma_be_enc_byte(v: nat, w: nat, i: nat)
    requires
        i < w,
    ensures
        be_enc(v, w)[w - 1 - i] == ((v / pow256(i)) % 256) as u8,
    decreases w,
{
    lemma_be_enc_len(v, w);
    if i == 0 {
        assert(pow256(0) == 1);
        assert(v / 1 == v);
    } else {
        lemma_be_enc_byte(v / 256, (w - 1) as nat, (i - 1) as nat);
        lemma_be_enc_len(v / 256, (w - 1) as nat);
        assert(be_enc(v, w)[w - 1 - i] == be_enc(v / 256, (w - 1) as nat)[(w - 1) - 1 - (i - 1)]);
        lemma_pow256_pos((i - 1) as nat);
        assert((v / 256) / pow256((i - 1) as nat) == v / pow256(i)) by (nonlinear_arith)
            requires
                pow256(i) == 256 * pow256((i - 1) as nat),
                pow256((i - 1) as nat) >= 1,
        ;
    }
}

} // verus!
