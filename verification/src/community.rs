//! Community attribute values: regular (4 bytes), extended (8 bytes),
//! extended IPv6 (20 bytes) and large (12 bytes), with their list codecs.
use vstd::prelude::*;

use crate::error::BgpParseError;
use crate::list::{enc_list, lemma_enc_list_snoc, lemma_list_round_trip, sp_list};
use crate::wire::{
    be_enc, be_val, lemma_be_enc_len, lemma_be_val_bound, lemma_be_val_enc, lemma_pow256_consts,
    pow256, read_be, write_be,
};

verus! {

// ---------------------------------------------------------------- regular

/// What a four-byte community value parses to.
pub open spec fn sp_u32val(s: Seq<u8>) -> Result<(int, u32), BgpParseError> {
    if s.len() < 4 {
        Err(BgpParseError::Truncated { needed: 4 })
    } else {
        Ok((4, be_val(s.subrange(0, 4)) as u32))
    }
}

/// The element parser of four-byte records, as one shared value.
pub open spec fn sp_u32val_fn() -> spec_fn(Seq<u8>) -> Result<(int, u32), BgpParseError> {
    |t: Seq<u8>| sp_u32val(t)
}

/// The encoder of four-byte records, as one shared value.
pub open spec fn enc_u32val_fn() -> spec_fn(u32) -> Seq<u8> {
    |v: u32| be_enc(v as nat, 4)
}

/// What a run of four-byte records parses to.
pub open spec fn sp_u32_list(s: Seq<u8>) -> Result<Seq<u32>, BgpParseError> {
    sp_list(s, sp_u32val_fn())
}

/// Reads one four-byte big-endian record.
pub fn parse_u32val(input: &[u8], pos: usize, end: usize) -> (r: Result<
    (usize, u32),
    BgpParseError,
>)
    requires
        pos <= end <= input.len(),
    ensures
        match r {
            Ok((n, v)) => pos < n <= end && sp_u32val(input@.subrange(pos as int, end as int))
                == Ok::<_, BgpParseError>(((n - pos) as int, v)),
            Err(e) => sp_u32val(input@.subrange(pos as int, end as int)) == Err::<(int, u32), _>(e),
        },
{
    if end - pos < 4 {
        return Err(BgpParseError::Truncated { needed: 4 });
    }
    let v = read_be(input, pos, 4);
    proof {
        assert(input@.subrange(pos as int, end as int).subrange(0, 4) =~= input@.subrange(
            pos as int,
            pos + 4,
        ));
        lemma_be_val_bound(input@.subrange(pos as int, pos + 4));
        lemma_pow256_consts();
    }
    Ok((pos + 4, v as u32))
}

/// Parses a run of four-byte records that must cover `pos..end` exactly.
pub fn parse_u32_list(input: &[u8], pos: usize, end: usize) -> (r: Result<Vec<u32>, BgpParseError>)
    requires
        pos <= end <= input.len(),
    ensures
        match r {
            Ok(v) => sp_u32_list(input@.subrange(pos as int, end as int)) == Ok::<
                _,
                BgpParseError,
            >(v@),
            Err(e) => sp_u32_list(input@.subrange(pos as int, end as int)) == Err::<Seq<u32>, _>(e),
        },
{
    let ghost whole = input@.subrange(pos as int, end as int);
    let ghost f = sp_u32val_fn();
    let mut acc: Vec<u32> = Vec::new();
    let mut cur: usize = pos;
    while cur < end
        invariant
            pos <= cur <= end <= input.len(),
            whole == input@.subrange(pos as int, end as int),
            f == sp_u32val_fn(),
            sp_list(whole, f) == match sp_list(input@.subrange(cur as int, end as int), f) {
                Ok(rest) => Ok::<Seq<u32>, BgpParseError>(acc@ + rest),
                Err(e) => Err(e),
            },
        decreases end - cur,
    {
        let ghost seg = input@.subrange(cur as int, end as int);
        match parse_u32val(input, cur, end) {
            Err(e) => {
                return Err(e);
            },
            Ok((n, v)) => {
                proof {
                    assert(seg.skip((n - cur) as int) =~= input@.subrange(n as int, end as int));
                    crate::list::lemma_sp_list_shift(
                        whole,
                        seg,
                        input@.subrange(n as int, end as int),
                        f,
                        acc@,
                        (n - cur) as int,
                        v,
                    );
                }
                let ghost pre = acc@;
                acc.push(v);
                proof {
                    assert(acc@ =~= pre + seq![v]);
                }
                cur = n;
            },
        }
    }
    proof {
        assert(input@.subrange(cur as int, end as int).len() == 0);
        assert(acc@ + Seq::<u32>::empty() =~= acc@);
    }
    Ok(acc)
}

/// Appends a run of four-byte records.
pub fn emit_u32_list(out: &mut Vec<u8>, list: &Vec<u32>)
    ensures
        final(out)@ == old(out)@ + enc_list(list@, enc_u32val_fn()),
{
    let mut i: usize = 0;
    proof {
        assert(list@.subrange(0, 0int) =~= Seq::<u32>::empty());
        lemma_pow256_consts();
    }
    while i < list.len()
        invariant
            i <= list.len(),
            crate::wire::pow256(4) == 0x1_0000_0000,
            out@ == old(out)@ + enc_list(list@.subrange(0, i as int), enc_u32val_fn()),
        decreases list.len() - i,
    {
        write_be(out, list[i] as u128, 4);
        proof {
            lemma_enc_list_snoc(list@.subrange(0, i as int), list@[i as int], enc_u32val_fn());
            assert(list@.subrange(0, i + 1) =~= list@.subrange(0, i as int) + seq![list@[i as int]]);
        }
        i = i + 1;
    }
    proof {
        assert(list@.subrange(0, list@.len() as int) =~= list@);
    }
}

/// A run of well-formed four-byte records parses back from its encoding.
pub proof fn lemma_u32_list_round_trip(vs: Seq<u32>)
    ensures
        sp_u32_list(enc_list(vs, enc_u32val_fn())) == Ok::<_, BgpParseError>(vs),
{
    lemma_pow256_consts();
    assert forall|i: int, tail: Seq<u8>| 0 <= i < vs.len() implies #[trigger] sp_u32val_fn()(
        enc_u32val_fn()(vs[i]) + tail,
    ) == Ok::<_, BgpParseError>((enc_u32val_fn()(vs[i]).len() as int, vs[i])) by {
        let e = enc_u32val_fn()(vs[i]);
        lemma_be_enc_len(vs[i] as nat, 4);
        lemma_be_val_enc(vs[i] as nat, 4);
        assert((e + tail).subrange(0, 4) =~= e);
    }
    assert forall|i: int| 0 <= i < vs.len() implies #[trigger] enc_u32val_fn()(vs[i]).len() > 0 by {
        lemma_be_enc_len(vs[i] as nat, 4);
    }
    lemma_list_round_trip(vs, sp_u32val_fn(), enc_u32val_fn());
}

// ---------------------------------------------------------------- regular wrapper

/// The COMMUNITIES attribute: four-byte values in wire order.
#[derive(Clone, Debug)]
pub struct Community(pub Vec<u32>);

// ---------------------------------------------------------------- extended

/// One eight-byte extended community: high type, low type and six value bytes.
#[derive(Clone, Copy, Debug, PartialEq, Eq, Structural)]
pub struct ExtCommunityValue {
    pub high_type: u8,
    pub low_type: u8,
    pub val: u64,
}

impl ExtCommunityValue {
    pub open spec fn wf(self) -> bool {
        self.val < pow256(6)
    }

    pub open spec fn enc(self) -> Seq<u8> {
        seq![self.high_type, self.low_type] + be_enc(self.val as nat, 6)
    }

    /// Appends the eight wire bytes.
    pub fn encode(&self, out: &mut Vec<u8>)
        requires
            self.wf(),
        ensures
            final(out)@ == old(out)@ + self.enc(),
    {
        out.push(self.high_type);
        out.push(self.low_type);
        write_be(out, self.val as u128, 6);
        proof {
            assert(final(out)@ =~= old(out)@ + self.enc());
        }
    }

    /// Reads one eight-byte extended community.
    pub fn parse_be(input: &[u8], pos: usize, end: usize) -> (r: Result<
        (usize, ExtCommunityValue),
        BgpParseError,
    >)
        requires
            pos <= end <= input.len(),
        ensures
            match r {
                Ok((n, v)) => pos < n <= end && sp_ext_community_value(
                    input@.subrange(pos as int, end as int),
                ) == Ok::<_, BgpParseError>(((n - pos) as int, v)) && v.wf(),
                Err(e) => sp_ext_community_value(input@.subrange(pos as int, end as int)) == Err::<
                    (int, ExtCommunityValue),
                    _,
                >(e),
            },
    {
        if end - pos < 8 {
            return Err(BgpParseError::Truncated { needed: 8 });
        }
        let high_type = input[pos];
        let low_type = input[pos + 1];
        let val = read_be(input, pos + 2, 6) as u64;
        proof {
            let s = input@.subrange(pos as int, end as int);
            assert(s[0] == input@[pos as int] && s[1] == input@[pos + 1]);
            assert(s.subrange(2, 8) =~= input@.subrange(pos + 2, pos + 8));
            lemma_be_val_bound(input@.subrange(pos + 2, pos + 8));
            lemma_pow256_consts();
        }
        Ok((pos + 8, ExtCommunityValue { high_type, low_type, val }))
    }
}

/// What one eight-byte extended community parses to.
pub open spec fn sp_ext_community_value(s: Seq<u8>) -> Result<
    (int, ExtCommunityValue),
    BgpParseError,
> {
    if s.len() < 8 {
        Err(BgpParseError::Truncated { needed: 8 })
    } else {
        Ok(
            (
                8,
                ExtCommunityValue {
                    high_type: s[0],
                    low_type: s[1],
                    val: be_val(s.subrange(2, 8)) as u64,
                },
            ),
        )
    }
}

pub open spec fn sp_ext_community_value_fn() -> spec_fn(Seq<u8>) -> Result<
    (int, ExtCommunityValue),
    BgpParseError,
> {
    |t: Seq<u8>| sp_ext_community_value(t)
}

pub open spec fn enc_ext_community_value_fn() -> spec_fn(ExtCommunityValue) -> Seq<u8> {
    |v: ExtCommunityValue| v.enc()
}

/// What the EXT_COMMUNITIES payload parses to.
pub open spec fn sp_ext_community_list(s: Seq<u8>) -> Result<Seq<ExtCommunityValue>, BgpParseError> {
    sp_list(s, sp_ext_community_value_fn())
}

/// Emitting a well-formed extended community and parsing it back returns it.
pub proof fn lemma_ext_community_value_round_trip(v: ExtCommunityValue, tail: Seq<u8>)
    requires
        v.wf(),
    ensures
        sp_ext_community_value(v.enc() + tail) == Ok::<_, BgpParseError>((8int, v)),
{
    let s = v.enc() + tail;
    lemma_be_enc_len(v.val as nat, 6);
    lemma_be_val_enc(v.val as nat, 6);
    assert(s[0] == v.high_type && s[1] == v.low_type);
    assert(s.subrange(2, 8) =~= be_enc(v.val as nat, 6));
}

/// The EXT_COMMUNITIES attribute: eight-byte values in wire order.
#[derive(Clone, Debug)]
pub struct ExtCommunity(pub Vec<ExtCommunityValue>);

impl ExtCommunity {
    pub open spec fn wf(self) -> bool {
        forall|i: int| 0 <= i < self.0@.len() ==> #[trigger] self.0@[i].wf()
    }

    pub open spec fn enc(self) -> Seq<u8> {
        enc_list(self.0@, enc_ext_community_value_fn())
    }

    /// Parses a run of eight-byte extended communities covering `pos..end`.
    pub fn parse_list(input: &[u8], pos: usize, end: usize) -> (r: Result<
        ExtCommunity,
        BgpParseError,
    >)
        requires
            pos <= end <= input.len(),
        ensures
            match r {
                Ok(v) => sp_ext_community_list(input@.subrange(pos as int, end as int)) == Ok::<
                    _,
                    BgpParseError,
                >(v.0@) && v.wf(),
                Err(e) => sp_ext_community_list(input@.subrange(pos as int, end as int)) == Err::<
                    Seq<ExtCommunityValue>,
                    _,
                >(e),
            },
    {
        let ghost whole = input@.subrange(pos as int, end as int);
        let ghost f = sp_ext_community_value_fn();
        let mut acc: Vec<ExtCommunityValue> = Vec::new();
        let mut cur: usize = pos;
        while cur < end
            invariant
                pos <= cur <= end <= input.len(),
                whole == input@.subrange(pos as int, end as int),
                f == sp_ext_community_value_fn(),
                forall|i: int| 0 <= i < acc@.len() ==> #[trigger] acc@[i].wf(),
                sp_list(whole, f) == match sp_list(input@.subrange(cur as int, end as int), f) {
                    Ok(rest) => Ok::<Seq<ExtCommunityValue>, BgpParseError>(acc@ + rest),
                    Err(e) => Err(e),
                },
            decreases end - cur,
        {
            let ghost seg = input@.subrange(cur as int, end as int);
            match ExtCommunityValue::parse_be(input, cur, end) {
                Err(e) => {
                    return Err(e);
                },
                Ok((n, v)) => {
                    proof {
                        assert(seg.skip((n - cur) as int) =~= input@.subrange(
                            n as int,
                            end as int,
                        ));
                        crate::list::lemma_sp_list_shift(
                            whole,
                            seg,
                            input@.subrange(n as int, end as int),
                            f,
                            acc@,
                            (n - cur) as int,
                            v,
                        );
                    }
                    let ghost pre = acc@;
                    acc.push(v);
                    proof {
                        assert(acc@ =~= pre + seq![v]);
                    }
                    cur = n;
                },
            }
        }
        proof {
            assert(input@.subrange(cur as int, end as int).len() == 0);
            assert(acc@ + Seq::<ExtCommunityValue>::empty() =~= acc@);
        }
        Ok(ExtCommunity(acc))
    }

    /// Appends every value's wire bytes.
    pub fn emit(&self, out: &mut Vec<u8>)
        requires
            self.wf(),
        ensures
            final(out)@ == old(out)@ + self.enc(),
    {
        let mut i: usize = 0;
        proof {
            assert(self.0@.subrange(0, 0int) =~= Seq::<ExtCommunityValue>::empty());
        }
        while i < self.0.len()
            invariant
                i <= self.0.len(),
                self.wf(),
                out@ == old(out)@ + enc_list(
                    self.0@.subrange(0, i as int),
                    enc_ext_community_value_fn(),
                ),
            decreases self.0.len() - i,
        {
            let v = self.0[i];
            v.encode(out);
            proof {
                lemma_enc_list_snoc(
                    self.0@.subrange(0, i as int),
                    self.0@[i as int],
                    enc_ext_community_value_fn(),
                );
                assert(self.0@.subrange(0, i + 1) =~= self.0@.subrange(0, i as int) + seq![
                    self.0@[i as int],
                ]);
            }
            i = i + 1;
        }
        proof {
            assert(self.0@.subrange(0, self.0@.len() as int) =~= self.0@);
        }
    }
}

/// A list of well-formed extended communities parses back from its encoding.
pub proof fn lemma_ext_community_list_round_trip(vs: Seq<ExtCommunityValue>)
    requires
        forall|i: int| 0 <= i < vs.len() ==> #[trigger] vs[i].wf(),
    ensures
        sp_ext_community_list(enc_list(vs, enc_ext_community_value_fn())) == Ok::<
            _,
            BgpParseError,
        >(vs),
{
    assert forall|i: int, tail: Seq<u8>| 0 <= i < vs.len() implies #[trigger] sp_ext_community_value_fn()(
        enc_ext_community_value_fn()(vs[i]) + tail,
    ) == Ok::<_, BgpParseError>((enc_ext_community_value_fn()(vs[i]).len() as int, vs[i])) by {
        lemma_ext_community_value_round_trip(vs[i], tail);
        lemma_be_enc_len(vs[i].val as nat, 6);
    }
    assert forall|i: int| 0 <= i < vs.len() implies #[trigger] enc_ext_community_value_fn()(
        vs[i],
    ).len() > 0 by {
        lemma_be_enc_len(vs[i].val as nat, 6);
    }
    lemma_list_round_trip(vs, sp_ext_community_value_fn(), enc_ext_community_value_fn());
}

// ---------------------------------------------------------------- large

/// One twelve-byte large community: global administrator and two local parts.
#[derive(Clone, Copy, Debug, PartialEq, Eq, Structural)]
pub struct LargeCommunityValue {
    pub global: u32,
    pub local1: u32,
    pub local2: u32,
}

impl LargeCommunityValue {
    pub open spec fn enc(self) -> Seq<u8> {
        be_enc(self.global as nat, 4) + be_enc(self.local1 as nat, 4) + be_enc(self.local2 as nat, 4)
    }

    /// Appends the twelve wire bytes.
    pub fn encode(&self, out: &mut Vec<u8>)
        ensures
            final(out)@ == old(out)@ + self.enc(),
    {
        proof {
            lemma_pow256_consts();
        }
        write_be(out, self.global as u128, 4);
        write_be(out, self.local1 as u128, 4);
        write_be(out, self.local2 as u128, 4);
        proof {
            assert(final(out)@ =~= old(out)@ + self.enc());
        }
    }

    /// Reads one twelve-byte large community.
    pub fn parse_be(input: &[u8], pos: usize, end: usize) -> (r: Result<
        (usize, LargeCommunityValue),
        BgpParseError,
    >)
        requires
            pos <= end <= input.len(),
        ensures
            match r {
                Ok((n, v)) => pos < n <= end && sp_large_community_value(
                    input@.subrange(pos as int, end as int),
                ) == Ok::<_, BgpParseError>(((n - pos) as int, v)),
                Err(e) => sp_large_community_value(input@.subrange(pos as int, end as int))
                    == Err::<(int, LargeCommunityValue), _>(e),
            },
    {
        if end - pos < 12 {
            return Err(BgpParseError::Truncated { needed: 12 });
        }
        let global = read_be(input, pos, 4) as u32;
        let local1 = read_be(input, pos + 4, 4) as u32;
        let local2 = read_be(input, pos + 8, 4) as u32;
        proof {
            let s = input@.subrange(pos as int, end as int);
            assert(s.subrange(0, 4) =~= input@.subrange(pos as int, pos + 4));
            assert(s.subrange(4, 8) =~= input@.subrange(pos + 4, pos + 8));
            assert(s.subrange(8, 12) =~= input@.subrange(pos + 8, pos + 12));
            lemma_be_val_bound(input@.subrange(pos as int, pos + 4));
            lemma_be_val_bound(input@.subrange(pos + 4, pos + 8));
            lemma_be_val_bound(input@.subrange(pos + 8, pos + 12));
            lemma_pow256_consts();
        }
        Ok((pos + 12, LargeCommunityValue { global, local1, local2 }))
    }
}

/// What one twelve-byte large community parses to.
pub open spec fn sp_large_community_value(s: Seq<u8>) -> Result<
    (int, LargeCommunityValue),
    BgpParseError,
> {
    if s.len() < 12 {
        Err(BgpParseError::Truncated { needed: 12 })
    } else {
        Ok(
            (
                12,
                LargeCommunityValue {
                    global: be_val(s.subrange(0, 4)) as u32,
                    local1: be_val(s.subrange(4, 8)) as u32,
                    local2: be_val(s.subrange(8, 12)) as u32,
                },
            ),
        )
    }
}

pub open spec fn sp_large_community_value_fn() -> spec_fn(Seq<u8>) -> Result<
    (int, LargeCommunityValue),
    BgpParseError,
> {
    |t: Seq<u8>| sp_large_community_value(t)
}

pub open spec fn enc_large_community_value_fn() -> spec_fn(LargeCommunityValue) -> Seq<u8> {
    |v: LargeCommunityValue| v.enc()
}

/// What the LARGE_COMMUNITIES payload parses to.
pub open spec fn sp_large_community_list(s: Seq<u8>) -> Result<
    Seq<LargeCommunityValue>,
    BgpParseError,
> {
    sp_list(s, sp_large_community_value_fn())
}

/// Emitting a large community and parsing it back returns it.
pub proof fn lemma_large_community_value_round_trip(v: LargeCommunityValue, tail: Seq<u8>)
    ensures
        sp_large_community_value(v.enc() + tail) == Ok::<_, BgpParseError>((12int, v)),
{
    let s = v.enc() + tail;
    lemma_pow256_consts();
    lemma_be_enc_len(v.global as nat, 4);
    lemma_be_enc_len(v.local1 as nat, 4);
    lemma_be_enc_len(v.local2 as nat, 4);
    lemma_be_val_enc(v.global as nat, 4);
    lemma_be_val_enc(v.local1 as nat, 4);
    lemma_be_val_enc(v.local2 as nat, 4);
    assert(s.subrange(0, 4) =~= be_enc(v.global as nat, 4));
    assert(s.subrange(4, 8) =~= be_enc(v.local1 as nat, 4));
    assert(s.subrange(8, 12) =~= be_enc(v.local2 as nat, 4));
}

/// The LARGE_COMMUNITIES attribute: twelve-byte triples in wire order.
#[derive(Clone, Debug)]
pub struct LargeCommunity(pub Vec<LargeCommunityValue>);

/// A list of large communities parses back from its encoding.
pub proof fn lemma_large_community_list_round_trip(vs: Seq<LargeCommunityValue>)
    ensures
        sp_large_community_list(enc_list(vs, enc_large_community_value_fn())) == Ok::<
            _,
            BgpParseError,
        >(vs),
{
    assert forall|i: int, tail: Seq<u8>| 0 <= i < vs.len()
        implies #[trigger] sp_large_community_value_fn()(enc_large_community_value_fn()(vs[i]) + tail)
        == Ok::<_, BgpParseError>((enc_large_community_value_fn()(vs[i]).len() as int, vs[i])) by {
        lemma_large_community_value_round_trip(vs[i], tail);
        lemma_be_enc_len(vs[i].global as nat, 4);
        lemma_be_enc_len(vs[i].local1 as nat, 4);
        lemma_be_enc_len(vs[i].local2 as nat, 4);
    }
    assert forall|i: int| 0 <= i < vs.len() implies #[trigger] enc_large_community_value_fn()(
        vs[i],
    ).len() > 0 by {
        lemma_be_enc_len(vs[i].global as nat, 4);
        lemma_be_enc_len(vs[i].local1 as nat, 4);
        lemma_be_enc_len(vs[i].local2 as nat, 4);
    }
    lemma_list_round_trip(vs, sp_large_community_value_fn(), enc_large_community_value_fn());
}

/// Parses a run of twelve-byte large communities covering `pos..end`.
pub fn parse_large_community_list(input: &[u8], pos: usize, end: usize) -> (r: Result<
    Vec<LargeCommunityValue>,
    BgpParseError,
>)
    requires
        pos <= end <= input.len(),
    ensures
        match r {
            Ok(v) => sp_large_community_list(input@.subrange(pos as int, end as int)) == Ok::<
                _,
                BgpParseError,
            >(v@),
            Err(e) => sp_large_community_list(input@.subrange(pos as int, end as int)) == Err::<
                Seq<LargeCommunityValue>,
                _,
            >(e),
        },
{
    let ghost whole = input@.subrange(pos as int, end as int);
    let ghost f = sp_large_community_value_fn();
    let mut acc: Vec<LargeCommunityValue> = Vec::new();
    let mut cur: usize = pos;
    while cur < end
        invariant
            pos <= cur <= end <= input.len(),
            whole == input@.subrange(pos as int, end as int),
            f == sp_large_community_value_fn(),
            sp_list(whole, f) == match sp_list(input@.subrange(cur as int, end as int), f) {
                Ok(rest) => Ok::<Seq<LargeCommunityValue>, BgpParseError>(acc@ + rest),
                Err(e) => Err(e),
            },
        decreases end - cur,
    {
        let ghost seg = input@.subrange(cur as int, end as int);
        match LargeCommunityValue::parse_be(input, cur, end) {
            Err(e) => {
                return Err(e);
            },
            Ok((n, v)) => {
                proof {
                    assert(seg.skip((n - cur) as int) =~= input@.subrange(n as int, end as int));
                    crate::list::lemma_sp_list_shift(
                        whole,
                        seg,
                        input@.subrange(n as int, end as int),
                        f,
                        acc@,
                        (n - cur) as int,
                        v,
                    );
                }
                let ghost pre = acc@;
                acc.push(v);
                proof {
                    assert(acc@ =~= pre + seq![v]);
                }
                cur = n;
            },
        }
    }
    proof {
        assert(input@.subrange(cur as int, end as int).len() == 0);
        assert(acc@ + Seq::<LargeCommunityValue>::empty() =~= acc@);
    }
    Ok(acc)
}

/// Appends a run of large communities.
pub fn emit_large_community_list(out: &mut Vec<u8>, list: &Vec<LargeCommunityValue>)
    ensures
        final(out)@ == old(out)@ + enc_list(list@, enc_large_community_value_fn()),
{
    let mut i: usize = 0;
    proof {
        assert(list@.subrange(0, 0int) =~= Seq::<LargeCommunityValue>::empty());
    }
    while i < list.len()
        invariant
            i <= list.len(),
            out@ == old(out)@ + enc_list(list@.subrange(0, i as int), enc_large_community_value_fn()),
        decreases list.len() - i,
    {
        let v = list[i];
        v.encode(out);
        proof {
            lemma_enc_list_snoc(
                list@.subrange(0, i as int),
                list@[i as int],
                enc_large_community_value_fn(),
            );
            assert(list@.subrange(0, i + 1) =~= list@.subrange(0, i as int) + seq![list@[i as int]]);
        }
        i = i + 1;
    }
    proof {
        assert(list@.subrange(0, list@.len() as int) =~= list@);
    }
}

// ---------------------------------------------------------------- extended IPv6

/// One twenty-byte IPv6 extended community: types, a sixteen-byte global
/// administrator and a two-byte local administrator.
#[derive(Clone, Copy, Debug, PartialEq, Eq, Structural)]
pub struct ExtIpv6CommunityValue {
    pub high_type: u8,
    pub low_type: u8,
    pub global: u128,
    pub local: u16,
}

impl ExtIpv6CommunityValue {
    pub open spec fn enc(self) -> Seq<u8> {
        seq![self.high_type, self.low_type] + be_enc(self.global as nat, 16) + be_enc(
            self.local as nat,
            2,
        )
    }

    /// Appends the twenty wire bytes.
    pub fn encode(&self, out: &mut Vec<u8>)
        ensures
            final(out)@ == old(out)@ + self.enc(),
    {
        proof {
            lemma_pow256_consts();
        }
        out.push(self.high_type);
        out.push(self.low_type);
        write_be(out, self.global, 16);
        write_be(out, self.local as u128, 2);
        proof {
            assert(final(out)@ =~= old(out)@ + self.enc());
        }
    }

    /// Reads one twenty-byte IPv6 extended community.
    pub fn parse_be(input: &[u8], pos: usize, end: usize) -> (r: Result<
        (usize, ExtIpv6CommunityValue),
        BgpParseError,
    >)
        requires
            pos <= end <= input.len(),
        ensures
            match r {
                Ok((n, v)) => pos < n <= end && sp_ext_ipv6_community_value(
                    input@.subrange(pos as int, end as int),
                ) == Ok::<_, BgpParseError>(((n - pos) as int, v)),
                Err(e) => sp_ext_ipv6_community_value(input@.subrange(pos as int, end as int))
                    == Err::<(int, ExtIpv6CommunityValue), _>(e),
            },
    {
        if end - pos < 20 {
            return Err(BgpParseError::Truncated { needed: 20 });
        }
        let high_type = input[pos];
        let low_type = input[pos + 1];
        let global = read_be(input, pos + 2, 16);
        let local = read_be(input, pos + 18, 2) as u16;
        proof {
            let s = input@.subrange(pos as int, end as int);
            assert(s[0] == input@[pos as int] && s[1] == input@[pos + 1]);
            assert(s.subrange(2, 18) =~= input@.subrange(pos + 2, pos + 18));
            assert(s.subrange(18, 20) =~= input@.subrange(pos + 18, pos + 20));
            lemma_be_val_bound(input@.subrange(pos + 18, pos + 20));
            lemma_pow256_consts();
        }
        Ok((pos + 20, ExtIpv6CommunityValue { high_type, low_type, global, local }))
    }
}

/// What one twenty-byte IPv6 extended community parses to.
pub open spec fn sp_ext_ipv6_community_value(s: Seq<u8>) -> Result<
    (int, ExtIpv6CommunityValue),
    BgpParseError,
> {
    if s.len() < 20 {
        Err(BgpParseError::Truncated { needed: 20 })
    } else {
        Ok(
            (
                20,
                ExtIpv6CommunityValue {
                    high_type: s[0],
                    low_type: s[1],
                    global: be_val(s.subrange(2, 18)) as u128,
                    local: be_val(s.subrange(18, 20)) as u16,
                },
            ),
        )
    }
}

pub open spec fn sp_ext_ipv6_community_value_fn() -> spec_fn(Seq<u8>) -> Result<
    (int, ExtIpv6CommunityValue),
    BgpParseError,
> {
    |t: Seq<u8>| sp_ext_ipv6_community_value(t)
}

pub open spec fn enc_ext_ipv6_community_value_fn() -> spec_fn(ExtIpv6CommunityValue) -> Seq<u8> {
    |v: ExtIpv6CommunityValue| v.enc()
}

/// What the EXT_IPV6_COMMUNITIES payload parses to.
pub open spec fn sp_ext_ipv6_community_list(s: Seq<u8>) -> Result<
    Seq<ExtIpv6CommunityValue>,
    BgpParseError,
> {
    sp_list(s, sp_ext_ipv6_community_value_fn())
}

/// Emitting an IPv6 extended community and parsing it back returns it.
pub proof fn lemma_ext_ipv6_community_value_round_trip(v: ExtIpv6CommunityValue, tail: Seq<u8>)
    ensures
        sp_ext_ipv6_community_value(v.enc() + tail) == Ok::<_, BgpParseError>((20int, v)),
{
    let s = v.enc() + tail;
    lemma_pow256_consts();
    lemma_be_enc_len(v.global as nat, 16);
    lemma_be_enc_len(v.local as nat, 2);
    lemma_be_val_enc(v.global as nat, 16);
    lemma_be_val_enc(v.local as nat, 2);
    assert(s[0] == v.high_type && s[1] == v.low_type);
    assert(s.subrange(2, 18) =~= be_enc(v.global as nat, 16));
    assert(s.subrange(18, 20) =~= be_enc(v.local as nat, 2));
}

/// The EXT_IPV6_COMMUNITIES attribute: twenty-byte values in wire order.
#[derive(Clone, Debug)]
pub struct ExtIpv6Community(pub Vec<ExtIpv6CommunityValue>);

/// A list of IPv6 extended communities parses back from its encoding.
pub proof fn lemma_ext_ipv6_community_list_round_trip(vs: Seq<ExtIpv6CommunityValue>)
    ensures
        sp_ext_ipv6_community_list(enc_list(vs, enc_ext_ipv6_community_value_fn())) == Ok::<
            _,
            BgpParseError,
        >(vs),
{
    assert forall|i: int, tail: Seq<u8>| 0 <= i < vs.len()
        implies #[trigger] sp_ext_ipv6_community_value_fn()(
        enc_ext_ipv6_community_value_fn()(vs[i]) + tail,
    ) == Ok::<_, BgpParseError>((enc_ext_ipv6_community_value_fn()(vs[i]).len() as int, vs[i])) by {
        lemma_ext_ipv6_community_value_round_trip(vs[i], tail);
        lemma_be_enc_len(vs[i].global as nat, 16);
        lemma_be_enc_len(vs[i].local as nat, 2);
    }
    assert forall|i: int| 0 <= i < vs.len() implies #[trigger] enc_ext_ipv6_community_value_fn()(
        vs[i],
    ).len() > 0 by {
        lemma_be_enc_len(vs[i].global as nat, 16);
        lemma_be_enc_len(vs[i].local as nat, 2);
    }
    lemma_list_round_trip(vs, sp_ext_ipv6_community_value_fn(), enc_ext_ipv6_community_value_fn());
}

/// Parses a run of twenty-byte IPv6 extended communities covering `pos..end`.
pub fn parse_ext_ipv6_community_list(input: &[u8], pos: usize, end: usize) -> (r: Result<
    Vec<ExtIpv6CommunityValue>,
    BgpParseError,
>)
    requires
        pos <= end <= input.len(),
    ensures
        match r {
            Ok(v) => sp_ext_ipv6_community_list(input@.subrange(pos as int, end as int)) == Ok::<
                _,
                BgpParseError,
            >(v@),
            Err(e) => sp_ext_ipv6_community_list(input@.subrange(pos as int, end as int)) == Err::<
                Seq<ExtIpv6CommunityValue>,
                _,
            >(e),
        },
{
    let ghost whole = input@.subrange(pos as int, end as int);
    let ghost f = sp_ext_ipv6_community_value_fn();
    let mut acc: Vec<ExtIpv6CommunityValue> = Vec::new();
    let mut cur: usize = pos;
    while cur < end
        invariant
            pos <= cur <= end <= input.len(),
            whole == input@.subrange(pos as int, end as int),
            f == sp_ext_ipv6_community_value_fn(),
            sp_list(whole, f) == match sp_list(input@.subrange(cur as int, end as int), f) {
                Ok(rest) => Ok::<Seq<ExtIpv6CommunityValue>, BgpParseError>(acc@ + rest),
                Err(e) => Err(e),
            },
        decreases end - cur,
    {
        let ghost seg = input@.subrange(cur as int, end as int);
        match ExtIpv6CommunityValue::parse_be(input, cur, end) {
            Err(e) => {
                return Err(e);
            },
            Ok((n, v)) => {
                proof {
                    assert(seg.skip((n - cur) as int) =~= input@.subrange(n as int, end as int));
                    crate::list::lemma_sp_list_shift(
                        whole,
                        seg,
                        input@.subrange(n as int, end as int),
                        f,
                        acc@,
                        (n - cur) as int,
                        v,
                    );
                }
                let ghost pre = acc@;
                acc.push(v);
                proof {
                    assert(acc@ =~= pre + seq![v]);
                }
                cur = n;
            },
        }
    }
    proof {
        assert(input@.subrange(cur as int, end as int).len() == 0);
        assert(acc@ + Seq::<ExtIpv6CommunityValue>::empty() =~= acc@);
    }
    Ok(acc)
}

/// Appends a run of IPv6 extended communities.
pub fn emit_ext_ipv6_community_list(out: &mut Vec<u8>, list: &Vec<ExtIpv6CommunityValue>)
    ensures
        final(out)@ == old(out)@ + enc_list(list@, enc_ext_ipv6_community_value_fn()),
{
    let mut i: usize = 0;
    proof {
        assert(list@.subrange(0, 0int) =~= Seq::<ExtIpv6CommunityValue>::empty());
    }
    while i < list.len()
        invariant
            i <= list.len(),
            out@ == old(out)@ + enc_list(
                list@.subrange(0, i as int),
                enc_ext_ipv6_community_value_fn(),
            ),
        decreases list.len() - i,
    {
        let v = list[i];
        v.encode(out);
        proof {
            lemma_enc_list_snoc(
                list@.subrange(0, i as int),
                list@[i as int],
                enc_ext_ipv6_community_value_fn(),
            );
            assert(list@.subrange(0, i + 1) =~= list@.subrange(0, i as int) + seq![list@[i as int]]);
        }
        i = i + 1;
    }
    proof {
        assert(list@.subrange(0, list@.len() as int) =~= list@);
    }
}


/// The extended-community high-type registry the text form knows.
#[derive(Clone, Copy, Debug, PartialEq, Eq, Structural)]
pub enum ExtCommunityType {
    TransTwoOctetAS,
    TransIpv4Addr,
    TransOpaque,
}

impl ExtCommunityType {
    pub fn code(self) -> (r: u8)
        ensures
            self is TransTwoOctetAS ==> r == 0x00,
            self is TransIpv4Addr ==> r == 0x01,
            self is TransOpaque ==> r == 0x03,
    {
        match self {
            ExtCommunityType::TransTwoOctetAS => 0x00,
            ExtCommunityType::TransIpv4Addr => 0x01,
            ExtCommunityType::TransOpaque => 0x03,
        }
    }
}

/// The extended-community sub-type registry the text form knows.
#[derive(Clone, Copy, Debug, PartialEq, Eq, Structural)]
pub enum ExtCommunitySubType {
    RouteTarget,
    RouteOrigin,
    Opaque,
}

impl ExtCommunitySubType {
    pub fn code(self) -> (r: u8)
        ensures
            self is RouteTarget ==> r == 0x02,
            self is RouteOrigin ==> r == 0x03,
            self is Opaque ==> r == 0x0c,
    {
        match self {
            ExtCommunitySubType::RouteTarget => 0x02,
            ExtCommunitySubType::RouteOrigin => 0x03,
            ExtCommunitySubType::Opaque => 0x0c,
        }
    }
}

} // verus!
