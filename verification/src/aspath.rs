//! AS_PATH segments in the two-byte and four-byte AS number widths.
use vstd::prelude::*;

use crate::error::BgpParseError;
use crate::list::{enc_list, lemma_enc_list_snoc, lemma_list_round_trip, sp_list};
use crate::wire::{
    be_enc, be_val, lemma_be_enc_len, lemma_be_val_bound, lemma_be_val_enc, lemma_pow256_consts,
    read_be, write_be,
};

verus! {

pub const AS_SET: u8 = 1;

pub const AS_SEQ: u8 = 2;

pub const AS_CONFED_SEQ: u8 = 3;

pub const AS_CONFED_SET: u8 = 4;

/// The two-byte sentinel carried in place of a four-byte AS number.
pub const AS_TRANS: u16 = 23456;

/// One AS_PATH segment of two-byte AS numbers.
#[derive(Clone, Debug)]
pub struct As2Segment {
    pub typ: u8,
    pub asn: Vec<u16>,
}

/// One AS_PATH segment of four-byte AS numbers.
#[derive(Clone, Debug)]
pub struct As4Segment {
    pub typ: u8,
    pub asn: Vec<u32>,
}

/// The mathematical shape of a two-byte segment.
#[verifier::ext_equal]
pub ghost struct As2SegV {
    pub typ: u8,
    pub asns: Seq<u16>,
}

/// The mathematical shape of a four-byte segment.
#[verifier::ext_equal]
pub ghost struct As4SegV {
    pub typ: u8,
    pub asns: Seq<u32>,
}

impl View for As2Segment {
    type V = As2SegV;

    open spec fn view(&self) -> As2SegV {
        As2SegV { typ: self.typ, asns: self.asn@ }
    }
}

impl View for As4Segment {
    type V = As4SegV;

    open spec fn view(&self) -> As4SegV {
        As4SegV { typ: self.typ, asns: self.asn@ }
    }
}

impl As2SegV {
    pub open spec fn wf(self) -> bool {
        1 <= self.typ <= 4 && self.asns.len() <= 255
    }

    pub open spec fn enc(self) -> Seq<u8> {
        seq![self.typ, self.asns.len() as u8] + enc_list(self.asns, enc_u16val_fn())
    }
}

impl As4SegV {
    pub open spec fn wf(self) -> bool {
        1 <= self.typ <= 4 && self.asns.len() <= 255
    }

    pub open spec fn enc(self) -> Seq<u8> {
        seq![self.typ, self.asns.len() as u8] + enc_list(self.asns, enc_u32asn_fn())
    }
}

pub open spec fn enc_u16val_fn() -> spec_fn(u16) -> Seq<u8> {
    |v: u16| be_enc(v as nat, 2)
}

pub open spec fn enc_u32asn_fn() -> spec_fn(u32) -> Seq<u8> {
    |v: u32| be_enc(v as nat, 4)
}

/// The concatenated numbers of a fixed-count run; `w` is the number width.
pub open spec fn seg_count_bytes(count: int, w: int) -> int {
    2 + count * w
}

/// What one two-byte segment parses to.
pub open spec fn sp_as2_segment(s: Seq<u8>) -> Result<(int, As2SegV), BgpParseError> {
    if s.len() < 2 {
        Err(BgpParseError::Truncated { needed: 2 })
    } else if !(1 <= s[0] <= 4) {
        Err(BgpParseError::BadValue { typ: 2 })
    } else {
        let count = s[1] as int;
        if s.len() < 2 + count * 2 {
            Err(BgpParseError::Truncated { needed: (2 + count * 2) as usize })
        } else {
            Ok(
                (
                    2 + count * 2,
                    As2SegV {
                        typ: s[0],
                        asns: Seq::new(count as nat, |i: int| be_val(
                            s.subrange(2 + i * 2, 4 + i * 2),
                        ) as u16),
                    },
                ),
            )
        }
    }
}

/// What one four-byte segment parses to.
pub open spec fn sp_as4_segment(s: Seq<u8>) -> Result<(int, As4SegV), BgpParseError> {
    if s.len() < 2 {
        Err(BgpParseError::Truncated { needed: 2 })
    } else if !(1 <= s[0] <= 4) {
        Err(BgpParseError::BadValue { typ: 2 })
    } else {
        let count = s[1] as int;
        if s.len() < 2 + count * 4 {
            Err(BgpParseError::Truncated { needed: (2 + count * 4) as usize })
        } else {
            Ok(
                (
                    2 + count * 4,
                    As4SegV {
                        typ: s[0],
                        asns: Seq::new(count as nat, |i: int| be_val(
                            s.subrange(2 + i * 4, 6 + i * 4),
                        ) as u32),
                    },
                ),
            )
        }
    }
}

impl As2Segment {
    /// Reads one two-byte segment.
    #[verifier::rlimit(90)]
    pub fn parse_be(input: &[u8], pos: usize, end: usize) -> (r: Result<
        (usize, As2Segment),
        BgpParseError,
    >)
        requires
            pos <= end <= input.len(),
        ensures
            match r {
                Ok((n, v)) => pos < n <= end && sp_as2_segment(
                    input@.subrange(pos as int, end as int),
                ) == Ok::<_, BgpParseError>(((n - pos) as int, v@)),
                Err(e) => sp_as2_segment(input@.subrange(pos as int, end as int)) == Err::<
                    (int, As2SegV),
                    _,
                >(e),
            },
    {
        let ghost s = input@.subrange(pos as int, end as int);
        if end - pos < 2 {
            return Err(BgpParseError::Truncated { needed: 2 });
        }
        let typ = input[pos];
        let count = input[pos + 1] as usize;
        proof {
            assert(s[0] == input@[pos as int] && s[1] == input@[pos + 1]);
        }
        if !(1 <= typ && typ <= 4) {
            return Err(BgpParseError::BadValue { typ: 2 });
        }
        if (end - pos - 2) / 2 < count {
            return Err(BgpParseError::Truncated { needed: 2 + count * 2 });
        }
        let mut asn: Vec<u16> = Vec::new();
        let mut i: usize = 0;
        while i < count
            invariant
                i <= count,
                pos + 2 + count * 2 <= end <= input.len(),
                s == input@.subrange(pos as int, end as int),
                asn@.len() == i,
                forall|j: int|
                    0 <= j < i ==> asn@[j] == be_val(s.subrange(2 + j * 2, 4 + j * 2)) as u16,
            decreases count - i,
        {
            proof {
                assert(s.subrange(2 + i * 2, 4 + i * 2) =~= input@.subrange(
                    pos + 2 + i * 2,
                    pos + 4 + i * 2,
                ));
                lemma_be_val_bound(input@.subrange(pos + 2 + i * 2, pos + 4 + i * 2));
                lemma_pow256_consts();
            }
            let v = read_be(input, pos + 2 + i * 2, 2) as u16;
            asn.push(v);
            i = i + 1;
        }
        let seg = As2Segment { typ, asn };
        proof {
            assert(seg@.asns =~= Seq::new(count as nat, |j: int| be_val(
                s.subrange(2 + j * 2, 4 + j * 2),
            ) as u16));
        }
        Ok((pos + 2 + count * 2, seg))
    }

    /// Appends the wire form.
    pub fn emit(&self, out: &mut Vec<u8>)
        requires
            self@.wf(),
        ensures
            final(out)@ == old(out)@ + self@.enc(),
    {
        out.push(self.typ);
        out.push(self.asn.len() as u8);
        let mut i: usize = 0;
        proof {
            assert(self.asn@.subrange(0, 0int) =~= Seq::<u16>::empty());
            lemma_pow256_consts();
        }
        while i < self.asn.len()
            invariant
                i <= self.asn.len(),
                crate::wire::pow256(2) == 0x1_0000,
                out@ == old(out)@ + seq![self.typ, self.asn@.len() as u8] + enc_list(
                    self.asn@.subrange(0, i as int),
                    enc_u16val_fn(),
                ),
            decreases self.asn.len() - i,
        {
            write_be(out, self.asn[i] as u128, 2);
            proof {
                lemma_enc_list_snoc(
                    self.asn@.subrange(0, i as int),
                    self.asn@[i as int],
                    enc_u16val_fn(),
                );
                assert(self.asn@.subrange(0, i + 1) =~= self.asn@.subrange(0, i as int) + seq![
                    self.asn@[i as int],
                ]);
            }
            i = i + 1;
        }
        proof {
            assert(self.asn@.subrange(0, self.asn@.len() as int) =~= self.asn@);
            assert(final(out)@ =~= old(out)@ + self@.enc());
        }
    }
}

impl As4Segment {
    pub fn new(typ: u8) -> (r: As4Segment)
        ensures
            r@.typ == typ,
            r@.asns =~= Seq::<u32>::empty(),
    {
        As4Segment { typ, asn: Vec::new() }
    }

    /// Reads one four-byte segment.
    #[verifier::rlimit(90)]
    pub fn parse_be(input: &[u8], pos: usize, end: usize) -> (r: Result<
        (usize, As4Segment),
        BgpParseError,
    >)
        requires
            pos <= end <= input.len(),
        ensures
            match r {
                Ok((n, v)) => pos < n <= end && sp_as4_segment(
                    input@.subrange(pos as int, end as int),
                ) == Ok::<_, BgpParseError>(((n - pos) as int, v@)),
                Err(e) => sp_as4_segment(input@.subrange(pos as int, end as int)) == Err::<
                    (int, As4SegV),
                    _,
                >(e),
            },
    {
        let ghost s = input@.subrange(pos as int, end as int);
        if end - pos < 2 {
            return Err(BgpParseError::Truncated { needed: 2 });
        }
        let typ = input[pos];
        let count = input[pos + 1] as usize;
        proof {
            assert(s[0] == input@[pos as int] && s[1] == input@[pos + 1]);
        }
        if !(1 <= typ && typ <= 4) {
            return Err(BgpParseError::BadValue { typ: 2 });
        }
        if (end - pos - 2) / 4 < count {
            return Err(BgpParseError::Truncated { needed: 2 + count * 4 });
        }
        let mut asn: Vec<u32> = Vec::new();
        let mut i: usize = 0;
        while i < count
            invariant
                i <= count,
                pos + 2 + count * 4 <= end <= input.len(),
                s == input@.subrange(pos as int, end as int),
                asn@.len() == i,
                forall|j: int|
                    0 <= j < i ==> asn@[j] == be_val(s.subrange(2 + j * 4, 6 + j * 4)) as u32,
            decreases count - i,
        {
            proof {
                assert(s.subrange(2 + i * 4, 6 + i * 4) =~= input@.subrange(
                    pos + 2 + i * 4,
                    pos + 6 + i * 4,
                ));
                lemma_be_val_bound(input@.subrange(pos + 2 + i * 4, pos + 6 + i * 4));
                lemma_pow256_consts();
            }
            let v = read_be(input, pos + 2 + i * 4, 4) as u32;
            asn.push(v);
            i = i + 1;
        }
        let seg = As4Segment { typ, asn };
        proof {
            assert(seg@.asns =~= Seq::new(count as nat, |j: int| be_val(
                s.subrange(2 + j * 4, 6 + j * 4),
            ) as u32));
        }
        Ok((pos + 2 + count * 4, seg))
    }

    /// Appends the wire form.
    pub fn emit(&self, out: &mut Vec<u8>)
        requires
            self@.wf(),
        ensures
            final(out)@ == old(out)@ + self@.enc(),
    {
        out.push(self.typ);
        out.push(self.asn.len() as u8);
        let mut i: usize = 0;
        proof {
            assert(self.asn@.subrange(0, 0int) =~= Seq::<u32>::empty());
            lemma_pow256_consts();
        }
        while i < self.asn.len()
            invariant
                i <= self.asn.len(),
                crate::wire::pow256(4) == 0x1_0000_0000,
                out@ == old(out)@ + seq![self.typ, self.asn@.len() as u8] + enc_list(
                    self.asn@.subrange(0, i as int),
                    enc_u32asn_fn(),
                ),
            decreases self.asn.len() - i,
        {
            write_be(out, self.asn[i] as u128, 4);
            proof {
                lemma_enc_list_snoc(
                    self.asn@.subrange(0, i as int),
                    self.asn@[i as int],
                    enc_u32asn_fn(),
                );
                assert(self.asn@.subrange(0, i + 1) =~= self.asn@.subrange(0, i as int) + seq![
                    self.asn@[i as int],
                ]);
            }
            i = i + 1;
        }
        proof {
            assert(self.asn@.subrange(0, self.asn@.len() as int) =~= self.asn@);
            assert(final(out)@ =~= old(out)@ + self@.enc());
        }
    }
}

/// An AS_PATH of two-byte segments.
#[derive(Clone, Debug)]
pub struct As2Path {
    pub segs: Vec<As2Segment>,
}

/// An AS_PATH of four-byte segments.
#[derive(Clone, Debug)]
pub struct As4Path {
    pub segs: Vec<As4Segment>,
}

pub open spec fn as2_views(s: Seq<As2Segment>) -> Seq<As2SegV> {
    s.map_values(|v: As2Segment| v@)
}

pub open spec fn as4_views(s: Seq<As4Segment>) -> Seq<As4SegV> {
    s.map_values(|v: As4Segment| v@)
}

pub open spec fn sp_as2_segment_fn() -> spec_fn(Seq<u8>) -> Result<(int, As2SegV), BgpParseError> {
    |t: Seq<u8>| sp_as2_segment(t)
}

pub open spec fn enc_as2_segment_fn() -> spec_fn(As2SegV) -> Seq<u8> {
    |v: As2SegV| v.enc()
}

pub open spec fn sp_as4_segment_fn() -> spec_fn(Seq<u8>) -> Result<(int, As4SegV), BgpParseError> {
    |t: Seq<u8>| sp_as4_segment(t)
}

pub open spec fn enc_as4_segment_fn() -> spec_fn(As4SegV) -> Seq<u8> {
    |v: As4SegV| v.enc()
}

/// What an AS_PATH payload of two-byte segments parses to.
pub open spec fn sp_as2_path(s: Seq<u8>) -> Result<Seq<As2SegV>, BgpParseError> {
    sp_list(s, sp_as2_segment_fn())
}

/// What an AS_PATH payload of four-byte segments parses to.
pub open spec fn sp_as4_path(s: Seq<u8>) -> Result<Seq<As4SegV>, BgpParseError> {
    sp_list(s, sp_as4_segment_fn())
}


/// Emitting a well-formed two-byte segment and parsing it back returns it.
pub proof fn lemma_as2_segment_round_trip(v: As2SegV, tail: Seq<u8>)
    requires
        v.wf(),
    ensures
        sp_as2_segment(v.enc() + tail) == Ok::<_, BgpParseError>((v.enc().len() as int, v)),
        v.enc().len() == 2 + 2 * v.asns.len(),
{
    let s = v.enc() + tail;
    lemma_pow256_consts();
    assert forall|i: int| 0 <= i < v.asns.len() implies (#[trigger] enc_u16val_fn()(
        v.asns[i],
    )).len() == 2 by {
        lemma_be_enc_len(v.asns[i] as nat, 2);
    }
    crate::list::lemma_enc_list_fixed(v.asns, enc_u16val_fn(), 2);
    let el = enc_list(v.asns, enc_u16val_fn());
    assert(s[0] == v.typ && s[1] == v.asns.len() as u8);
    let count = v.asns.len() as int;
    assert(s.len() >= 2 + count * 2);
    let asns2 = Seq::new(count as nat, |i: int| be_val(s.subrange(2 + i * 2, 4 + i * 2)) as u16);
    assert forall|i: int| 0 <= i < count implies asns2[i] == v.asns[i] by {
        assert(s.subrange(2 + i * 2, 4 + i * 2) =~= el.subrange(2 * i, 2 * i + 2));
        assert(el.subrange(2 * i, 2 * i + 2) == enc_u16val_fn()(v.asns[i]));
        lemma_be_val_enc(v.asns[i] as nat, 2);
    }
    assert(asns2 =~= v.asns);
}

/// Emitting a well-formed four-byte segment and parsing it back returns it.
pub proof fn lemma_as4_segment_round_trip(v: As4SegV, tail: Seq<u8>)
    requires
        v.wf(),
    ensures
        sp_as4_segment(v.enc() + tail) == Ok::<_, BgpParseError>((v.enc().len() as int, v)),
        v.enc().len() == 2 + 4 * v.asns.len(),
{
    let s = v.enc() + tail;
    lemma_pow256_consts();
    assert forall|i: int| 0 <= i < v.asns.len() implies (#[trigger] enc_u32asn_fn()(
        v.asns[i],
    )).len() == 4 by {
        lemma_be_enc_len(v.asns[i] as nat, 4);
    }
    crate::list::lemma_enc_list_fixed(v.asns, enc_u32asn_fn(), 4);
    let el = enc_list(v.asns, enc_u32asn_fn());
    assert(s[0] == v.typ && s[1] == v.asns.len() as u8);
    let count = v.asns.len() as int;
    assert(s.len() >= 2 + count * 4);
    let asns2 = Seq::new(count as nat, |i: int| be_val(s.subrange(2 + i * 4, 6 + i * 4)) as u32);
    assert forall|i: int| 0 <= i < count implies asns2[i] == v.asns[i] by {
        assert(s.subrange(2 + i * 4, 6 + i * 4) =~= el.subrange(4 * i, 4 * i + 4));
        assert(el.subrange(4 * i, 4 * i + 4) == enc_u32asn_fn()(v.asns[i]));
        lemma_be_val_enc(v.asns[i] as nat, 4);
    }
    assert(asns2 =~= v.asns);
}

/// A list of well-formed two-byte segments parses back from its encoding.
pub proof fn lemma_as2_path_round_trip(vs: Seq<As2SegV>)
    requires
        forall|i: int| 0 <= i < vs.len() ==> (#[trigger] vs[i]).wf(),
    ensures
        sp_as2_path(enc_list(vs, enc_as2_segment_fn())) == Ok::<_, BgpParseError>(vs),
{
    assert forall|i: int, tail: Seq<u8>| 0 <= i < vs.len() implies #[trigger] sp_as2_segment_fn()(
        enc_as2_segment_fn()(vs[i]) + tail,
    ) == Ok::<_, BgpParseError>((enc_as2_segment_fn()(vs[i]).len() as int, vs[i])) by {
        lemma_as2_segment_round_trip(vs[i], tail);
    }
    assert forall|i: int| 0 <= i < vs.len() implies #[trigger] enc_as2_segment_fn()(
        vs[i],
    ).len() > 0 by {
        lemma_as2_segment_round_trip(vs[i], Seq::empty());
    }
    lemma_list_round_trip(vs, sp_as2_segment_fn(), enc_as2_segment_fn());
}

/// A list of well-formed four-byte segments parses back from its encoding.
pub proof fn lemma_as4_path_round_trip(vs: Seq<As4SegV>)
    requires
        forall|i: int| 0 <= i < vs.len() ==> (#[trigger] vs[i]).wf(),
    ensures
        sp_as4_path(enc_list(vs, enc_as4_segment_fn())) == Ok::<_, BgpParseError>(vs),
{
    assert forall|i: int, tail: Seq<u8>| 0 <= i < vs.len() implies #[trigger] sp_as4_segment_fn()(
        enc_as4_segment_fn()(vs[i]) + tail,
    ) == Ok::<_, BgpParseError>((enc_as4_segment_fn()(vs[i]).len() as int, vs[i])) by {
        lemma_as4_segment_round_trip(vs[i], tail);
    }
    assert forall|i: int| 0 <= i < vs.len() implies #[trigger] enc_as4_segment_fn()(
        vs[i],
    ).len() > 0 by {
        lemma_as4_segment_round_trip(vs[i], Seq::empty());
    }
    lemma_list_round_trip(vs, sp_as4_segment_fn(), enc_as4_segment_fn());
}

impl As2Path {
    /// Reads a run of two-byte segments covering `pos..end`.
    pub fn parse_be(input: &[u8], pos: usize, end: usize) -> (r: Result<As2Path, BgpParseError>)
        requires
            pos <= end <= input.len(),
        ensures
            match r {
                Ok(v) => sp_as2_path(input@.subrange(pos as int, end as int)) == Ok::<
                    _,
                    BgpParseError,
                >(as2_views(v.segs@)),
                Err(e) => sp_as2_path(input@.subrange(pos as int, end as int)) == Err::<
                    Seq<As2SegV>,
                    _,
                >(e),
            },
    {
        let ghost whole = input@.subrange(pos as int, end as int);
        let ghost f = sp_as2_segment_fn();
        let mut acc: Vec<As2Segment> = Vec::new();
        let mut cur: usize = pos;
        proof {
            assert(as2_views(acc@) =~= Seq::<As2SegV>::empty());
        }
        while cur < end
            invariant
                pos <= cur <= end <= input.len(),
                whole == input@.subrange(pos as int, end as int),
                f == sp_as2_segment_fn(),
                sp_list(whole, f) == match sp_list(input@.subrange(cur as int, end as int), f) {
                    Ok(rest) => Ok::<Seq<As2SegV>, BgpParseError>(as2_views(acc@) + rest),
                    Err(e) => Err(e),
                },
            decreases end - cur,
        {
            let ghost seg = input@.subrange(cur as int, end as int);
            match As2Segment::parse_be(input, cur, end) {
                Err(e) => {
                    return Err(e);
                },
                Ok((n, v)) => {
                    proof {
                        assert(seg.skip((n - cur) as int) =~= input@.subrange(
                            n as int,
                            end as int,
                        ));
                        crate::list::lemma_sp_list_shift(
                            whole,
                            seg,
                            input@.subrange(n as int, end as int),
                            f,
                            as2_views(acc@),
                            (n - cur) as int,
                            v@,
                        );
                    }
                    let ghost pre = acc@;
                    acc.push(v);
                    proof {
                        assert(as2_views(acc@) =~= as2_views(pre) + seq![
                            acc@[pre.len() as int]@,
                        ]);
                    }
                    cur = n;
                },
            }
        }
        proof {
            assert(input@.subrange(cur as int, end as int).len() == 0);
            assert(as2_views(acc@) + Seq::<As2SegV>::empty() =~= as2_views(acc@));
        }
        Ok(As2Path { segs: acc })
    }

    /// Appends every segment's wire form.
    pub fn emit(&self, out: &mut Vec<u8>)
        requires
            forall|i: int| 0 <= i < self.segs@.len() ==> (#[trigger] self.segs@[i]@).wf(),
        ensures
            final(out)@ == old(out)@ + enc_list(as2_views(self.segs@), enc_as2_segment_fn()),
    {
        let mut i: usize = 0;
        proof {
            assert(as2_views(self.segs@.subrange(0, 0int)) =~= Seq::<As2SegV>::empty());
        }
        while i < self.segs.len()
            invariant
                i <= self.segs.len(),
                forall|j: int| 0 <= j < self.segs@.len() ==> (#[trigger] self.segs@[j]@).wf(),
                out@ == old(out)@ + enc_list(
                    as2_views(self.segs@.subrange(0, i as int)),
                    enc_as2_segment_fn(),
                ),
            decreases self.segs.len() - i,
        {
            let v = &self.segs[i];
            v.emit(out);
            proof {
                lemma_enc_list_snoc(
                    as2_views(self.segs@.subrange(0, i as int)),
                    self.segs@[i as int]@,
                    enc_as2_segment_fn(),
                );
                assert(as2_views(self.segs@.subrange(0, i + 1)) =~= as2_views(
                    self.segs@.subrange(0, i as int),
                ) + seq![self.segs@[i as int]@]);
            }
            i = i + 1;
        }
        proof {
            assert(self.segs@.subrange(0, self.segs@.len() as int) =~= self.segs@);
        }
    }
}

impl As4Path {
    pub fn new() -> (r: As4Path)
        ensures
            r.segs@ =~= Seq::<As4Segment>::empty(),
    {
        As4Path { segs: Vec::new() }
    }

    /// Reads a run of four-byte segments covering `pos..end`.
    pub fn parse_be(input: &[u8], pos: usize, end: usize) -> (r: Result<As4Path, BgpParseError>)
        requires
            pos <= end <= input.len(),
        ensures
            match r {
                Ok(v) => sp_as4_path(input@.subrange(pos as int, end as int)) == Ok::<
                    _,
                    BgpParseError,
                >(as4_views(v.segs@)),
                Err(e) => sp_as4_path(input@.subrange(pos as int, end as int)) == Err::<
                    Seq<As4SegV>,
                    _,
                >(e),
            },
    {
        let ghost whole = input@.subrange(pos as int, end as int);
        let ghost f = sp_as4_segment_fn();
        let mut acc: Vec<As4Segment> = Vec::new();
        let mut cur: usize = pos;
        proof {
            assert(as4_views(acc@) =~= Seq::<As4SegV>::empty());
        }
        while cur < end
            invariant
                pos <= cur <= end <= input.len(),
                whole == input@.subrange(pos as int, end as int),
                f == sp_as4_segment_fn(),
                sp_list(whole, f) == match sp_list(input@.subrange(cur as int, end as int), f) {
                    Ok(rest) => Ok::<Seq<As4SegV>, BgpParseError>(as4_views(acc@) + rest),
                    Err(e) => Err(e),
                },
            decreases end - cur,
        {
            let ghost seg = input@.subrange(cur as int, end as int);
            match As4Segment::parse_be(input, cur, end) {
                Err(e) => {
                    return Err(e);
                },
                Ok((n, v)) => {
                    proof {
                        assert(seg.skip((n - cur) as int) =~= input@.subrange(
                            n as int,
                            end as int,
                        ));
                        crate::list::lemma_sp_list_shift(
                            whole,
                            seg,
                            input@.subrange(n as int, end as int),
                            f,
                            as4_views(acc@),
                            (n - cur) as int,
                            v@,
                        );
                    }
                    let ghost pre = acc@;
                    acc.push(v);
                    proof {
                        assert(as4_views(acc@) =~= as4_views(pre) + seq![
                            acc@[pre.len() as int]@,
                        ]);
                    }
                    cur = n;
                },
            }
        }
        proof {
            assert(input@.subrange(cur as int, end as int).len() == 0);
            assert(as4_views(acc@) + Seq::<As4SegV>::empty() =~= as4_views(acc@));
        }
        Ok(As4Path { segs: acc })
    }

    /// Appends every segment's wire form.
    pub fn emit(&self, out: &mut Vec<u8>)
        requires
            forall|i: int| 0 <= i < self.segs@.len() ==> (#[trigger] self.segs@[i]@).wf(),
        ensures
            final(out)@ == old(out)@ + enc_list(as4_views(self.segs@), enc_as4_segment_fn()),
    {
        let mut i: usize = 0;
        proof {
            assert(as4_views(self.segs@.subrange(0, 0int)) =~= Seq::<As4SegV>::empty());
        }
        while i < self.segs.len()
            invariant
                i <= self.segs.len(),
                forall|j: int| 0 <= j < self.segs@.len() ==> (#[trigger] self.segs@[j]@).wf(),
                out@ == old(out)@ + enc_list(
                    as4_views(self.segs@.subrange(0, i as int)),
                    enc_as4_segment_fn(),
                ),
            decreases self.segs.len() - i,
        {
            let v = &self.segs[i];
            v.emit(out);
            proof {
                lemma_enc_list_snoc(
                    as4_views(self.segs@.subrange(0, i as int)),
                    self.segs@[i as int]@,
                    enc_as4_segment_fn(),
                );
                assert(as4_views(self.segs@.subrange(0, i + 1)) =~= as4_views(
                    self.segs@.subrange(0, i as int),
                ) + seq![self.segs@[i as int]@]);
            }
            i = i + 1;
        }
        proof {
            assert(self.segs@.subrange(0, self.segs@.len() as int) =~= self.segs@);
        }
    }

    /// Prepends the first segment of `other`: onto the front of the leading
    /// sequence segment when there is one, as a new leading segment otherwise.
    pub fn prepend(&self, other: &As4Path) -> (r: As4Path)
        requires
            other.segs@.len() > 0,
        ensures
            self.segs@.len() > 0 && self.segs@[0]@.typ == AS_SEQ ==> as4_views(r.segs@)
                =~~= as4_views(self.segs@).update(
                0,
                (As4SegV { typ: AS_SEQ, asns: other.segs@[0]@.asns + self.segs@[0]@.asns }),
            ),
            !(self.segs@.len() > 0 && self.segs@[0]@.typ == AS_SEQ) ==> as4_views(r.segs@)
                =~~= seq![other.segs@[0]@] + as4_views(self.segs@),
    {
        let mut segs: Vec<As4Segment> = Vec::new();
        if self.segs.len() > 0 && self.segs[0].typ == AS_SEQ {
            let mut head: Vec<u32> = crate::list::dup(&other.segs[0].asn);
            let mut own_tail: Vec<u32> = crate::list::dup(&self.segs[0].asn);
            head.append(&mut own_tail);
            segs.push(As4Segment { typ: AS_SEQ, asn: head });
            let mut k: usize = 1;
            while k < self.segs.len()
                invariant
                    1 <= k,
                    k <= self.segs.len() || self.segs.len() == 0,
                    self.segs@.len() > 0,
                    segs@.len() == k,
                    segs@[0]@ == (As4SegV {
                        typ: AS_SEQ,
                        asns: other.segs@[0].asn@ + self.segs@[0].asn@,
                    }),
                    forall|m: int| 1 <= m < k ==> #[trigger] segs@[m]@ == self.segs@[m]@,
                decreases self.segs.len() - k,
            {
                let seg = &self.segs[k];
                segs.push(As4Segment { typ: seg.typ, asn: crate::list::dup(&seg.asn) });
                k = k + 1;
            }
            let r = As4Path { segs };
            proof {
                let rhs = as4_views(self.segs@).update(
                    0,
                    (As4SegV { typ: AS_SEQ, asns: other.segs@[0]@.asns + self.segs@[0]@.asns }),
                );
                assert forall|m: int| 0 <= m < as4_views(r.segs@).len() implies as4_views(
                    r.segs@,
                )[m] == rhs[m] by {
                    assert(as4_views(r.segs@)[m] == r.segs@[m]@);
                    if m > 0 {
                        assert(as4_views(self.segs@)[m] == self.segs@[m]@);
                        assert(r.segs@[m]@ == self.segs@[m]@);
                    }
                }
                assert(as4_views(r.segs@) =~= rhs);
            }
            r
        } else {
            let first = &other.segs[0];
            segs.push(As4Segment { typ: first.typ, asn: crate::list::dup(&first.asn) });
            let mut k: usize = 0;
            while k < self.segs.len()
                invariant
                    k <= self.segs.len(),
                    segs@.len() == k + 1,
                    segs@[0]@ == other.segs@[0]@,
                    forall|m: int| 1 <= m < k + 1 ==> #[trigger] segs@[m]@ == self.segs@[m - 1]@,
                decreases self.segs.len() - k,
            {
                let seg = &self.segs[k];
                segs.push(As4Segment { typ: seg.typ, asn: crate::list::dup(&seg.asn) });
                k = k + 1;
            }
            let r = As4Path { segs };
            proof {
                let rhs = seq![other.segs@[0]@] + as4_views(self.segs@);
                assert forall|m: int| 0 <= m < as4_views(r.segs@).len() implies as4_views(
                    r.segs@,
                )[m] == rhs[m] by {
                    assert(as4_views(r.segs@)[m] == r.segs@[m]@);
                    if m > 0 {
                        assert(as4_views(self.segs@)[m - 1] == self.segs@[m - 1]@);
                        assert(r.segs@[m]@ == self.segs@[m - 1]@);
                    }
                }
                assert(as4_views(r.segs@) =~= rhs);
            }
            r
        }
    }
}


/// The two-byte image of a four-byte path whose numbers all fit sixteen bits.
pub open spec fn as2_of_as4(segs: Seq<As4SegV>) -> Seq<As2SegV> {
    segs.map_values(
        |g: As4SegV| As2SegV { typ: g.typ, asns: g.asns.map_values(|a: u32| a as u16) },
    )
}

/// Four-octet-AS equivalence: when every AS number of a well-formed path fits
/// sixteen bits, the path round-trips under the four-byte interpretation, its
/// two-byte image round-trips under the two-byte interpretation, and the two
/// carry exactly the same segment types and AS numbers.
pub proof fn lemma_as4_equivalence(segs: Seq<As4SegV>)
    requires
        forall|i: int| 0 <= i < segs.len() ==> (#[trigger] segs[i]).wf(),
        forall|i: int, j: int|
            0 <= i < segs.len() && 0 <= j < segs[i].asns.len() ==> #[trigger] segs[i].asns[j]
                < 0x1_0000,
    ensures
        sp_as4_path(enc_list(segs, enc_as4_segment_fn())) == Ok::<_, BgpParseError>(segs),
        sp_as2_path(enc_list(as2_of_as4(segs), enc_as2_segment_fn())) == Ok::<_, BgpParseError>(
            as2_of_as4(segs),
        ),
        as2_of_as4(segs).len() == segs.len(),
        forall|i: int|
            0 <= i < segs.len() ==> (#[trigger] as2_of_as4(segs)[i]).typ == segs[i].typ
                && as2_of_as4(segs)[i].asns.len() == segs[i].asns.len(),
        forall|i: int, j: int|
            0 <= i < segs.len() && 0 <= j < segs[i].asns.len() ==> #[trigger] as2_of_as4(
                segs,
            )[i].asns[j] == segs[i].asns[j],
{
    lemma_as4_path_round_trip(segs);
    let s2 = as2_of_as4(segs);
    assert forall|i: int| 0 <= i < s2.len() implies (#[trigger] s2[i]).wf() by {
        assert(s2[i].typ == segs[i].typ);
        assert(s2[i].asns.len() == segs[i].asns.len());
        assert(segs[i].wf());
    }
    lemma_as2_path_round_trip(s2);
    assert forall|i: int, j: int| 0 <= i < segs.len() && 0 <= j < segs[i].asns.len()
        implies #[trigger] as2_of_as4(segs)[i].asns[j] == segs[i].asns[j] by {
        assert(segs[i].asns[j] < 0x1_0000);
        assert(s2[i].asns[j] == segs[i].asns[j] as u16);
    }
}

} // verus!
