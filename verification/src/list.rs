//! Repetition: the specification of "parse elements until the slice is
//! exhausted", shared by every NLRI, community and capability list.
use vstd::prelude::*;

use crate::error::BgpParseError;

verus! {

/// Parses `s` as a run of elements, each read by `f`, that must cover the
/// whole slice. `f` yields the consumed length and the element.
pub open spec fn sp_list<T>(
    s: Seq<u8>,
    f: spec_fn(Seq<u8>) -> Result<(int, T), BgpParseError>,
) -> Result<Seq<T>, BgpParseError>
    decreases s.len(),
{
    if s.len() == 0 {
        Ok(Seq::empty())
    } else {
        match f(s) {
            Err(e) => Err(e),
            Ok((n, v)) => if n <= 0 || n > s.len() {
                Err(BgpParseError::Malformed)
            } else {
                match sp_list(s.skip(n), f) {
                    Err(e) => Err(e),
                    Ok(rest) => Ok(seq![v] + rest),
                }
            },
        }
    }
}

/// The concatenation of the encodings of the elements of `vs`.
pub open spec fn enc_list<T>(vs: Seq<T>, g: spec_fn(T) -> Seq<u8>) -> Seq<u8>
    decreases vs.len(),
{
    if vs.len() == 0 {
        Seq::empty()
    } else {
        g(vs[0]) + enc_list(vs.skip(1), g)
    }
}

/// If every element of `vs` parses back from its own encoding whatever
/// follows it, the concatenated encoding parses back to `vs`.
pub proof fn lemma_list_round_trip<T>(
    vs: Seq<T>,
    f: spec_fn(Seq<u8>) -> Result<(int, T), BgpParseError>,
    g: spec_fn(T) -> Seq<u8>,
)
    requires
        forall|i: int, tail: Seq<u8>|
            0 <= i < vs.len() ==> #[trigger] f(g(vs[i]) + tail) == Ok::<_, BgpParseError>(
                (g(vs[i]).len() as int, vs[i]),
            ),
        forall|i: int| 0 <= i < vs.len() ==> #[trigger] g(vs[i]).len() > 0,
    ensures
        sp_list(enc_list(vs, g), f) == Ok::<_, BgpParseError>(vs),
    decreases vs.len(),
{
    if vs.len() == 0 {
        assert(vs =~= Seq::<T>::empty());
        assert(enc_list(vs, g) =~= Seq::<u8>::empty());
    } else {
        let head = g(vs[0]);
        let tail = enc_list(vs.skip(1), g);
        let s = enc_list(vs, g);
        assert(s == head + tail);
        assert(f(head + tail) == Ok::<_, BgpParseError>((head.len() as int, vs[0])));
        assert(s.len() >= head.len());
        assert(s.skip(head.len() as int) =~= tail);
        assert(forall|i: int, t: Seq<u8>|
            0 <= i < vs.skip(1).len() ==> #[trigger] f(g(vs.skip(1)[i]) + t) == Ok::<
                _,
                BgpParseError,
            >((g(vs.skip(1)[i]).len() as int, vs.skip(1)[i])) && g(vs.skip(1)[i]).len() > 0) by {
            assert(forall|i: int| 0 <= i < vs.skip(1).len() ==> vs.skip(1)[i] == vs[i + 1]);
        }
        lemma_list_round_trip(vs.skip(1), f, g);
        lemma_sp_list_step(s, f, head.len() as int, vs[0]);
        assert(sp_list(s.skip(head.len() as int), f) == Ok::<_, BgpParseError>(vs.skip(1)));
        assert(sp_list(s, f) == Ok::<_, BgpParseError>(seq![vs[0]] + vs.skip(1)));
        assert(seq![vs[0]] + vs.skip(1) =~= vs);
    }
}

/// Appending one element extends the concatenated encoding at the end.
pub proof fn lemma_enc_list_snoc<T>(vs: Seq<T>, v: T, g: spec_fn(T) -> Seq<u8>)
    ensures
        enc_list(vs + seq![v], g) == enc_list(vs, g) + g(v),
    decreases vs.len(),
{
    if vs.len() == 0 {
        assert((vs + seq![v])[0] == v);
        assert((vs + seq![v]).skip(1) =~= Seq::<T>::empty());
        assert(enc_list(Seq::<T>::empty(), g) =~= Seq::<u8>::empty());
        assert(enc_list(vs + seq![v], g) == g(v) + Seq::<u8>::empty());
        assert(enc_list(vs, g) + g(v) =~= g(v) + Seq::<u8>::empty());
    } else {
        assert((vs + seq![v])[0] == vs[0]);
        assert((vs + seq![v]).skip(1) =~= vs.skip(1) + seq![v]);
        lemma_enc_list_snoc(vs.skip(1), v, g);
        assert(enc_list(vs + seq![v], g) == g(vs[0]) + (enc_list(vs.skip(1), g) + g(v)));
        assert(enc_list(vs, g) == g(vs[0]) + enc_list(vs.skip(1), g));
        assert(g(vs[0]) + (enc_list(vs.skip(1), g) + g(v)) =~= (g(vs[0]) + enc_list(vs.skip(1), g))
            + g(v));
    }
}

/// The invariant step of every list-parsing loop: consuming one element moves
/// it from the unparsed suffix onto the accumulator.
pub proof fn lemma_sp_list_shift<T>(
    whole: Seq<u8>,
    seg: Seq<u8>,
    nxt: Seq<u8>,
    f: spec_fn(Seq<u8>) -> Result<(int, T), BgpParseError>,
    pre: Seq<T>,
    n: int,
    v: T,
)
    requires
        sp_list(whole, f) == match sp_list(seg, f) {
            Err(e) => Err::<Seq<T>, _>(e),
            Ok(rest) => Ok(pre + rest),
        },
        seg.len() > 0,
        f(seg) == Ok::<_, BgpParseError>((n, v)),
        0 < n <= seg.len(),
        nxt == seg.skip(n),
    ensures
        sp_list(whole, f) == match sp_list(nxt, f) {
            Err(e) => Err::<Seq<T>, _>(e),
            Ok(rest) => Ok((pre + seq![v]) + rest),
        },
{
    lemma_sp_list_step(seg, f, n, v);
    if let Ok(rest) = sp_list(nxt, f) {
        assert(pre + (seq![v] + rest) =~= (pre + seq![v]) + rest);
    }
}

/// One unfolding of `sp_list` after a successful element parse.
pub proof fn lemma_sp_list_step<T>(
    s: Seq<u8>,
    f: spec_fn(Seq<u8>) -> Result<(int, T), BgpParseError>,
    n: int,
    v: T,
)
    requires
        s.len() > 0,
        f(s) == Ok::<_, BgpParseError>((n, v)),
        0 < n <= s.len(),
    ensures
        sp_list(s, f) == match sp_list(s.skip(n), f) {
            Err(e) => Err::<Seq<T>, _>(e),
            Ok(rest) => Ok(seq![v] + rest),
        },
{
}


/// When every element encodes to exactly `w` bytes, the concatenation has
/// predictable length and piecewise content.
pub proof fn lemma_enc_list_fixed<T>(vs: Seq<T>, g: spec_fn(T) -> Seq<u8>, w: int)
    requires
        w > 0,
        forall|i: int| 0 <= i < vs.len() ==> (#[trigger] g(vs[i])).len() == w,
    ensures
        enc_list(vs, g).len() == w * vs.len(),
        forall|i: int|
            0 <= i < vs.len() ==> #[trigger] enc_list(vs, g).subrange(w * i, w * i + w) == g(vs[i]),
    decreases vs.len(),
{
    if vs.len() == 0 {
        assert(w * 0 == 0);
    } else {
        assert(forall|i: int| 0 <= i < vs.skip(1).len() ==> vs.skip(1)[i] == vs[i + 1]);
        lemma_enc_list_fixed(vs.skip(1), g, w);
        let e = enc_list(vs, g);
        let rest = enc_list(vs.skip(1), g);
        assert(e == g(vs[0]) + rest);
        assert(rest.len() == w * (vs.len() - 1));
        assert(w * vs.len() == w + w * (vs.len() - 1)) by (nonlinear_arith);
        assert forall|i: int| 0 <= i < vs.len() implies #[trigger] e.subrange(w * i, w * i + w)
            == g(vs[i]) by {
            if i == 0 {
                assert(e.subrange(0, w) =~= g(vs[0]));
            } else {
                assert(w * (i - 1) >= 0) by (nonlinear_arith)
                    requires
                        w > 0,
                        i >= 1,
                ;
                assert(w * i == w + w * (i - 1)) by (nonlinear_arith);
                assert(w * i + w <= w * vs.len()) by (nonlinear_arith)
                    requires
                        w > 0,
                        i < vs.len(),
                ;
                assert(w * (i - 1) + w <= w * (vs.len() - 1)) by (nonlinear_arith)
                    requires
                        w > 0,
                        i <= vs.len() - 1,
                ;
                assert(rest.subrange(w * (i - 1), w * (i - 1) + w) == g(vs.skip(1)[i - 1]));
                assert(e.subrange(w * i, w * i + w) =~= rest.subrange(w * (i - 1), w * (i - 1) + w));
            }
        }
    }
}


/// A verified elementwise copy of a vector of plain values.
pub fn dup<T: Copy>(v: &Vec<T>) -> (r: Vec<T>)
    ensures
        r@ == v@,
{
    let mut r: Vec<T> = Vec::new();
    let mut i: usize = 0;
    while i < v.len()
        invariant
            i <= v.len(),
            r@ =~= v@.subrange(0, i as int),
        decreases v.len() - i,
    {
        r.push(v[i]);
        proof {
            assert(r@ =~= v@.subrange(0, i + 1));
        }
        i = i + 1;
    }
    proof {
        assert(v@.subrange(0, v@.len() as int) =~= v@);
    }
    r
}

} // verus!
