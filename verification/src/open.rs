//! The OPEN message: the fixed fields and the capability-bearing optional
//! parameters, with the RFC-9072 extended length form.
use vstd::prelude::*;

use crate::cap::{cap_views, sp_capability_list, sp_capability_fn, CapV, CapabilityPacket};
use crate::error::BgpParseError;
use crate::list::{enc_list, sp_list};
use crate::wire::{
    be_enc, be_val, lemma_be_val_bound, lemma_pow256_consts, read_be, write_be, write_bytes,
};

verus! {

/// The protocol version carried in every OPEN.
pub const BGP_VERSION: u8 = 4;

/// The two extra fields of an RFC-9072 extended optional-parameter length.
#[derive(Clone, Copy, Debug, PartialEq, Eq, Structural)]
pub struct OpenExtended {
    pub non_ext_op_type: u8,
    pub ext_opt_parm_len: u16,
}

/// One OPEN message.
#[derive(Clone, Debug)]
pub struct OpenPacket {
    pub header: crate::packet::BgpHeader,
    pub version: u8,
    pub asn: u16,
    pub hold_time: u16,
    pub bgp_id: u32,
    pub opt_param_len: u8,
    pub caps: Vec<CapabilityPacket>,
}

/// The mathematical shape of an OPEN message.
#[verifier::ext_equal]
pub ghost struct OpenV {
    pub header: crate::packet::BgpHeader,
    pub version: u8,
    pub asn: u16,
    pub hold_time: u16,
    pub bgp_id: u32,
    pub opt_param_len: u8,
    pub caps: Seq<CapV>,
}

impl View for OpenPacket {
    type V = OpenV;

    open spec fn view(&self) -> OpenV {
        OpenV {
            header: self.header,
            version: self.version,
            asn: self.asn,
            hold_time: self.hold_time,
            bgp_id: self.bgp_id,
            opt_param_len: self.opt_param_len,
            caps: cap_views(self.caps@),
        }
    }
}

/// One capability wrapped in its own optional parameter of type 2: the form
/// the emitter writes.
pub open spec fn enc_cap_param_fn() -> spec_fn(CapV) -> Seq<u8> {
    |c: CapV| seq![2u8, c.enc().len() as u8] + c.enc()
}

/// What a run of optional parameters parses to: the capabilities of every
/// parameter, in order. A parameter may hold one capability or many.
pub open spec fn sp_params(s: Seq<u8>) -> Result<Seq<CapV>, BgpParseError>
    decreases s.len(),
{
    if s.len() == 0 {
        Ok(Seq::empty())
    } else if s.len() < 2 {
        Err(BgpParseError::Truncated { needed: 2 })
    } else {
        let plen = s[1] as int;
        if s.len() < 2 + plen {
            Err(BgpParseError::Truncated { needed: (2 + plen) as usize })
        } else {
            match sp_capability_list(s.subrange(2, 2 + plen)) {
                Err(e) => Err(e),
                Ok(caps) => match sp_params(s.skip(2 + plen)) {
                    Err(e) => Err(e),
                    Ok(rest) => Ok(caps + rest),
                },
            }
        }
    }
}

impl OpenV {
    /// The optional-parameter bytes: one parameter per capability.
    pub open spec fn params_enc(self) -> Seq<u8> {
        enc_list(self.caps, enc_cap_param_fn())
    }

    /// The whole PDU; a parameter area of 255 bytes or more takes the
    /// extended length form.
    pub open spec fn enc(self) -> Seq<u8> {
        self.header.enc() + seq![self.version] + be_enc(self.asn as nat, 2) + be_enc(
            self.hold_time as nat,
            2,
        ) + be_enc(self.bgp_id as nat, 4) + (if self.params_enc().len() < 255 {
            seq![self.params_enc().len() as u8]
        } else {
            seq![255u8, 255u8] + be_enc(self.params_enc().len() as nat, 2)
        }) + self.params_enc()
    }

    pub open spec fn emit_ok(self) -> bool {
        &&& self.header.typ == crate::packet::BgpType::Open
        &&& self.version == 4
        &&& self.params_enc().len() <= 0xffff
        &&& self.enc().len() <= 0xffff
        &&& self.header.length == self.enc().len()
        &&& self.opt_param_len == (if self.params_enc().len() < 255 {
            self.params_enc().len() as int
        } else {
            255int
        })
        &&& forall|i: int| 0 <= i < self.caps.len() ==> (#[trigger] self.caps[i]).wf()
    }
}

/// What an OPEN message parses to.
pub open spec fn sp_open(s: Seq<u8>) -> Result<(int, OpenV), BgpParseError> {
    match crate::packet::sp_header(s) {
        Err(e) => Err(e),
        Ok((_, header)) => {
            let total = header.length as int;
            if total < 29 {
                Err(BgpParseError::BadLength)
            } else if s.len() < total {
                Err(BgpParseError::Truncated { needed: header.length as usize })
            } else if s[19] != 4 {
                Err(BgpParseError::BadValue { typ: 0 })
            } else {
                let opl = s[28];
                let pstart: int = if opl == 255 {
                    32
                } else {
                    29
                };
                if opl == 255 && (total < 32 || s[29] != 255) {
                    Err(BgpParseError::Malformed)
                } else {
                    let plen: int = if opl == 255 {
                        be_val(s.subrange(30, 32)) as int
                    } else {
                        opl as int
                    };
                    if pstart + plen != total {
                        Err(BgpParseError::BadLength)
                    } else {
                        match sp_params(s.subrange(pstart, total)) {
                            Err(e) => Err(e),
                            Ok(caps) => Ok(
                                (
                                    total,
                                    OpenV {
                                        header,
                                        version: s[19],
                                        asn: be_val(s.subrange(20, 22)) as u16,
                                        hold_time: be_val(s.subrange(22, 24)) as u16,
                                        bgp_id: be_val(s.subrange(24, 28)) as u32,
                                        opt_param_len: opl,
                                        caps,
                                    },
                                ),
                            ),
                        }
                    }
                }
            }
        },
    }
}

impl OpenPacket {
    pub fn new(
        header: crate::packet::BgpHeader,
        asn: u16,
        hold_time: u16,
        router_id: u32,
        caps: Vec<CapabilityPacket>,
    ) -> (r: OpenPacket)
        ensures
            r@.header == header && r@.asn == asn && r@.hold_time == hold_time && r@.bgp_id
                == router_id && r@.version == 4 && r@.opt_param_len == 0 && r@.caps == cap_views(
                caps@,
            ),
    {
        OpenPacket {
            header,
            version: BGP_VERSION,
            asn,
            hold_time,
            bgp_id: router_id,
            opt_param_len: 0,
            caps,
        }
    }

    /// Reads one OPEN message at `pos`.
    #[verifier::rlimit(90)]
    pub fn parse_packet(input: &[u8], pos: usize) -> (r: Result<
        (usize, OpenPacket),
        BgpParseError,
    >)
        requires
            pos <= input.len(),
        ensures
            match r {
                Ok((n, v)) => pos < n <= input.len() && sp_open(input@.skip(pos as int)) == Ok::<
                    _,
                    BgpParseError,
                >(((n - pos) as int, v@)),
                Err(e) => sp_open(input@.skip(pos as int)) == Err::<(int, OpenV), _>(e),
            },
    {
        let ghost s = input@.skip(pos as int);
        let end0 = input.len();
        proof {
            assert(s =~= input@.subrange(pos as int, end0 as int));
        }
        let header = match crate::packet::parse_header(input, pos, end0) {
            Err(e) => {
                return Err(e);
            },
            Ok((_, h)) => h,
        };
        let total = header.length as usize;
        if total < 29 {
            return Err(BgpParseError::BadLength);
        }
        if input.len() - pos < total {
            return Err(BgpParseError::Truncated { needed: total });
        }
        let end = pos + total;
        proof {
            assert(s[19] == input@[pos + 19]);
            assert(s[28] == input@[pos + 28]);
            assert(s.subrange(20, 22) =~= input@.subrange(pos + 20, pos + 22));
            assert(s.subrange(22, 24) =~= input@.subrange(pos + 22, pos + 24));
            assert(s.subrange(24, 28) =~= input@.subrange(pos + 24, pos + 28));
            lemma_be_val_bound(input@.subrange(pos + 20, pos + 22));
            lemma_be_val_bound(input@.subrange(pos + 22, pos + 24));
            lemma_be_val_bound(input@.subrange(pos + 24, pos + 28));
            lemma_pow256_consts();
        }
        let version = input[pos + 19];
        if version != 4 {
            return Err(BgpParseError::BadValue { typ: 0 });
        }
        let asn = read_be(input, pos + 20, 2) as u16;
        let hold_time = read_be(input, pos + 22, 2) as u16;
        let bgp_id = read_be(input, pos + 24, 4) as u32;
        let opl = input[pos + 28];
        let pstart: usize;
        let plen: usize;
        if opl == 255 {
            if total < 32 {
                return Err(BgpParseError::Malformed);
            }
            proof {
                assert(s[29] == input@[pos + 29]);
                assert(s.subrange(30, 32) =~= input@.subrange(pos + 30, pos + 32));
                lemma_be_val_bound(input@.subrange(pos + 30, pos + 32));
            }
            if input[pos + 29] != 255 {
                return Err(BgpParseError::Malformed);
            }
            pstart = 32;
            plen = read_be(input, pos + 30, 2) as usize;
        } else {
            pstart = 29;
            plen = opl as usize;
        }
        if pstart + plen != total {
            return Err(BgpParseError::BadLength);
        }
        proof {
            assert(s.subrange(pstart as int, total as int) =~= input@.subrange(
                pos + pstart,
                end as int,
            ));
        }
        match parse_params(input, pos + pstart, end) {
            Err(e) => Err(e),
            Ok(caps) => Ok(
                (
                    end,
                    OpenPacket { header, version, asn, hold_time, bgp_id, opt_param_len: opl, caps },
                ),
            ),
        }
    }

    /// Builds the optional-parameter bytes: each capability rides in an
    /// optional parameter of its own.
    fn build_params(&self) -> (r: Vec<u8>)
        requires
            forall|i: int| 0 <= i < self@.caps.len() ==> (#[trigger] self@.caps[i]).wf(),
        ensures
            r@ == self@.params_enc(),
    {
        let mut params: Vec<u8> = Vec::new();
        let mut i: usize = 0;
        proof {
            assert(cap_views(self.caps@.subrange(0, 0int)) =~= Seq::<CapV>::empty());
            assert(self@.caps == cap_views(self.caps@));
        }
        while i < self.caps.len()
            invariant
                i <= self.caps.len(),
                forall|j: int| 0 <= j < cap_views(self.caps@).len() ==> (#[trigger] cap_views(
                    self.caps@,
                )[j]).wf(),
                params@ == enc_list(cap_views(self.caps@.subrange(0, i as int)), enc_cap_param_fn()),
            decreases self.caps.len() - i,
        {
            let c = &self.caps[i];
            let mut t: Vec<u8> = Vec::new();
            proof {
                assert(cap_views(self.caps@)[i as int] == self.caps@[i as int]@);
            }
            c.encode(&mut t);
            params.push(2);
            params.push(t.len() as u8);
            write_bytes(&mut params, t.as_slice());
            proof {
                crate::list::lemma_enc_list_snoc(
                    cap_views(self.caps@.subrange(0, i as int)),
                    self.caps@[i as int]@,
                    enc_cap_param_fn(),
                );
                assert(cap_views(self.caps@.subrange(0, i + 1)) =~= cap_views(
                    self.caps@.subrange(0, i as int),
                ) + seq![self.caps@[i as int]@]);
                assert(params@ =~= enc_list(
                    cap_views(self.caps@.subrange(0, i + 1)),
                    enc_cap_param_fn(),
                ));
            }
            i = i + 1;
        }
        proof {
            assert(self.caps@.subrange(0, self.caps@.len() as int) =~= self.caps@);
        }
        params
    }

    /// Appends the whole OPEN message: each capability rides in an optional
    /// parameter of its own.
    #[verifier::rlimit(90)]
    pub fn emit(&self, out: &mut Vec<u8>)
        requires
            self@.emit_ok(),
        ensures
            final(out)@ == old(out)@ + self@.enc(),
    {
        proof {
            lemma_pow256_consts();
        }
        let params = self.build_params();
        self.header.emit(out);
        out.push(self.version);
        write_be(out, self.asn as u128, 2);
        write_be(out, self.hold_time as u128, 2);
        write_be(out, self.bgp_id as u128, 4);
        if params.len() < 255 {
            out.push(params.len() as u8);
        } else {
            out.push(255);
            out.push(255);
            write_be(out, params.len() as u128, 2);
        }
        write_bytes(out, params.as_slice());
        proof {
            assert(final(out)@ =~= old(out)@ + self@.enc());
        }
    }

    /// Back-patches the header for emission: computes the total encoded
    /// length of the message as it stands, stores it with the OPEN type code
    /// and the version and optional-parameter length fields the wire form
    /// carries, and reports whether everything fits. On a length overflow
    /// nothing is changed.
    #[verifier::rlimit(90)]
    pub fn set_length(&mut self) -> (ok: bool)
        requires
            forall|i: int| 0 <= i < old(self)@.caps.len() ==> (#[trigger] old(self)@.caps[i]).wf(),
        ensures
            final(self).caps == old(self).caps,
            final(self).asn == old(self).asn,
            final(self).hold_time == old(self).hold_time,
            final(self).bgp_id == old(self).bgp_id,
            final(self).header.marker == old(self).header.marker,
            ok ==> final(self)@.emit_ok(),
            !ok ==> *final(self) == *old(self),
    {
        let params = self.build_params();
        let plen = params.len();
        if plen > 0xffff {
            return false;
        }
        let overhead: usize = if plen < 255 {
            29
        } else {
            32
        };
        if overhead + plen > 0xffff {
            return false;
        }
        self.version = 4;
        self.opt_param_len = if plen < 255 {
            plen as u8
        } else {
            255
        };
        self.header = crate::packet::BgpHeader {
            marker: self.header.marker,
            length: (overhead + plen) as u16,
            typ: crate::packet::BgpType::Open,
        };
        proof {
            crate::wire::lemma_be_enc_len(final(self)@.header.marker as nat, 16);
            crate::wire::lemma_be_enc_len(final(self)@.header.length as nat, 2);
            crate::wire::lemma_be_enc_len(final(self)@.asn as nat, 2);
            crate::wire::lemma_be_enc_len(final(self)@.hold_time as nat, 2);
            crate::wire::lemma_be_enc_len(final(self)@.bgp_id as nat, 4);
            if plen >= 255 {
                crate::wire::lemma_be_enc_len(final(self)@.params_enc().len() as nat, 2);
            }
            assert(final(self)@.params_enc() == params@);
            assert(final(self)@.enc().len() == overhead + plen);
        }
        true
    }
}

/// Reads a run of optional parameters covering `pos..end`, gathering the
/// capabilities of every parameter.
#[verifier::rlimit(90)]
pub fn parse_params(input: &[u8], pos: usize, end: usize) -> (r: Result<
    Vec<CapabilityPacket>,
    BgpParseError,
>)
    requires
        pos <= end <= input.len(),
    ensures
        match r {
            Ok(v) => sp_params(input@.subrange(pos as int, end as int)) == Ok::<
                _,
                BgpParseError,
            >(cap_views(v@)),
            Err(e) => sp_params(input@.subrange(pos as int, end as int)) == Err::<Seq<CapV>, _>(e),
        },
{
    let ghost whole = input@.subrange(pos as int, end as int);
    let mut acc: Vec<CapabilityPacket> = Vec::new();
    let mut cur: usize = pos;
    proof {
        assert(cap_views(acc@) =~= Seq::<CapV>::empty());
    }
    while cur < end
        invariant
            pos <= cur <= end <= input.len(),
            whole == input@.subrange(pos as int, end as int),
            sp_params(whole) == match sp_params(input@.subrange(cur as int, end as int)) {
                Ok(rest) => Ok::<Seq<CapV>, BgpParseError>(cap_views(acc@) + rest),
                Err(e) => Err(e),
            },
        decreases end - cur,
    {
        let ghost seg = input@.subrange(cur as int, end as int);
        if end - cur < 2 {
            return Err(BgpParseError::Truncated { needed: 2 });
        }
        let plen = input[cur + 1] as usize;
        proof {
            assert(seg[1] == input@[cur + 1]);
        }
        if end - cur - 2 < plen {
            return Err(BgpParseError::Truncated { needed: 2 + plen });
        }
        proof {
            assert(seg.subrange(2, 2 + plen) =~= input@.subrange(cur + 2, cur + 2 + plen));
        }
        let mut caps = match parse_cap_run(input, cur + 2, cur + 2 + plen) {
            Err(e) => {
                return Err(e);
            },
            Ok(c) => c,
        };
        let ghost pre = acc@;
        let ghost newcaps = caps@;
        acc.append(&mut caps);
        proof {
            assert(seg.skip(2 + plen) =~= input@.subrange(cur + 2 + plen, end as int));
            assert(cap_views(acc@) =~= cap_views(pre) + cap_views(newcaps));
            if let Ok(rest) = sp_params(input@.subrange(cur + 2 + plen, end as int)) {
                assert(cap_views(pre) + (cap_views(newcaps) + rest) =~= (cap_views(pre)
                    + cap_views(newcaps)) + rest);
            }
        }
        cur = cur + 2 + plen;
    }
    proof {
        assert(input@.subrange(cur as int, end as int).len() == 0);
        assert(cap_views(acc@) + Seq::<CapV>::empty() =~= cap_views(acc@));
    }
    Ok(acc)
}

/// Reads a run of capability TLVs covering `pos..end`.
fn parse_cap_run(input: &[u8], pos: usize, end: usize) -> (r: Result<
    Vec<CapabilityPacket>,
    BgpParseError,
>)
    requires
        pos <= end <= input.len(),
    ensures
        match r {
            Ok(v) => sp_capability_list(input@.subrange(pos as int, end as int)) == Ok::<
                _,
                BgpParseError,
            >(cap_views(v@)),
            Err(e) => sp_capability_list(input@.subrange(pos as int, end as int)) == Err::<
                Seq<CapV>,
                _,
            >(e),
        },
{
    let ghost whole = input@.subrange(pos as int, end as int);
    let ghost f = sp_capability_fn();
    let mut acc: Vec<CapabilityPacket> = Vec::new();
    let mut cur: usize = pos;
    proof {
        assert(cap_views(acc@) =~= Seq::<CapV>::empty());
    }
    while cur < end
        invariant
            pos <= cur <= end <= input.len(),
            whole == input@.subrange(pos as int, end as int),
            f == sp_capability_fn(),
            crate::list::sp_list(whole, f) == match crate::list::sp_list(
                input@.subrange(cur as int, end as int),
                f,
            ) {
                Ok(rest) => Ok::<Seq<CapV>, BgpParseError>(cap_views(acc@) + rest),
                Err(e) => Err(e),
            },
        decreases end - cur,
    {
        let ghost seg = input@.subrange(cur as int, end as int);
        match CapabilityPacket::parse_cap(input, cur, end) {
            Err(e) => {
                return Err(e);
            },
            Ok((n, v)) => {
                proof {
                    assert(seg.skip((n - cur) as int) =~= input@.subrange(n as int, end as int));
                    crate::list::lemma_sp_list_shift(
                        whole,
                        seg,
                        input@.subrange(n as int, end as int),
                        f,
                        cap_views(acc@),
                        (n - cur) as int,
                        v@,
                    );
                }
                let ghost pre = acc@;
                acc.push(v);
                proof {
                    assert(cap_views(acc@) =~= cap_views(pre) + seq![acc@[pre.len() as int]@]);
                }
                cur = n;
            },
        }
    }
    proof {
        assert(input@.subrange(cur as int, end as int).len() == 0);
        assert(cap_views(acc@) + Seq::<CapV>::empty() =~= cap_views(acc@));
    }
    Ok(acc)
}


/// A run of well-formed capabilities, each wrapped in an optional parameter
/// of its own, parses back to exactly those capabilities.
pub proof fn lemma_params_round_trip(vs: Seq<CapV>)
    requires
        forall|i: int| 0 <= i < vs.len() ==> (#[trigger] vs[i]).wf(),
    ensures
        sp_params(enc_list(vs, enc_cap_param_fn())) == Ok::<_, BgpParseError>(vs),
    decreases vs.len(),
{
    if vs.len() == 0 {
        assert(enc_list(vs, enc_cap_param_fn()) =~= Seq::<u8>::empty());
        assert(vs =~= Seq::<CapV>::empty());
    } else {
        let head = vs[0];
        let ce = head.enc();
        crate::cap::lemma_capability_round_trip(head, Seq::empty());
        let param = enc_cap_param_fn()(head);
        let s = enc_list(vs, enc_cap_param_fn());
        assert(s == param + enc_list(vs.skip(1), enc_cap_param_fn()));
        assert(s[1] == ce.len() as u8);
        assert(s.subrange(2, 2 + ce.len() as int) =~= ce);
        // The single capability fills its parameter exactly.
        assert(ce + Seq::<u8>::empty() =~= ce);
        assert(crate::cap::sp_capability(ce) == Ok::<_, BgpParseError>((ce.len() as int, head)));
        crate::list::lemma_sp_list_step(ce, crate::cap::sp_capability_fn(), ce.len() as int, head);
        assert(ce.skip(ce.len() as int).len() == 0);
        assert(sp_capability_list(ce) == Ok::<_, BgpParseError>(seq![head] + Seq::empty()));
        assert(forall|i: int| 0 <= i < vs.skip(1).len() ==> (#[trigger] vs.skip(1)[i]).wf());
        lemma_params_round_trip(vs.skip(1));
        assert(s.skip(2 + ce.len() as int) =~= enc_list(vs.skip(1), enc_cap_param_fn()));
        assert((seq![head] + Seq::<CapV>::empty()) + vs.skip(1) =~= vs);
        assert(sp_params(s) == Ok::<_, BgpParseError>(vs));
    }
}

/// Emitting a well-formed OPEN and parsing it back, whatever follows it,
/// returns the same message.
#[verifier::rlimit(90)]
pub proof fn lemma_open_round_trip(v: OpenV, tail: Seq<u8>)
    requires
        v.emit_ok(),
    ensures
        sp_open(v.enc() + tail) == Ok::<_, BgpParseError>((v.enc().len() as int, v)),
{
    let e = v.enc();
    let s = e + tail;
    let p = v.params_enc();
    lemma_pow256_consts();
    crate::wire::lemma_be_enc_len(v.header.marker as nat, 16);
    crate::wire::lemma_be_enc_len(v.header.length as nat, 2);
    crate::wire::lemma_be_enc_len(v.asn as nat, 2);
    crate::wire::lemma_be_enc_len(v.hold_time as nat, 2);
    crate::wire::lemma_be_enc_len(v.bgp_id as nat, 4);
    crate::wire::lemma_be_val_enc(v.header.marker as nat, 16);
    crate::wire::lemma_be_val_enc(v.header.length as nat, 2);
    crate::wire::lemma_be_val_enc(v.asn as nat, 2);
    crate::wire::lemma_be_val_enc(v.hold_time as nat, 2);
    crate::wire::lemma_be_val_enc(v.bgp_id as nat, 4);
    assert(s.subrange(0, 16) =~= be_enc(v.header.marker as nat, 16));
    assert(s.subrange(16, 18) =~= be_enc(v.header.length as nat, 2));
    assert(s[18] == v.header.typ.code_spec());
    assert(v.header.typ.code_spec() == 1);
    assert(crate::packet::BgpType::of_code_spec(1) == crate::packet::BgpType::Open);
    assert(crate::packet::sp_header(s) == Ok::<_, BgpParseError>((19int, v.header)));
    assert(s[19] == v.version && v.version == 4);
    assert(s.subrange(20, 22) =~= be_enc(v.asn as nat, 2));
    assert(s.subrange(22, 24) =~= be_enc(v.hold_time as nat, 2));
    assert(s.subrange(24, 28) =~= be_enc(v.bgp_id as nat, 4));
    lemma_params_round_trip(v.caps);
    if p.len() < 255 {
        assert(s[28] == p.len() as u8);
        assert(e.len() == 29 + p.len());
        assert(s.subrange(29, 29 + p.len() as int) =~= p);
    } else {
        crate::wire::lemma_be_enc_len(p.len() as nat, 2);
        crate::wire::lemma_be_val_enc(p.len() as nat, 2);
        assert(s[28] == 255 && s[29] == 255);
        assert(s.subrange(30, 32) =~= be_enc(p.len() as nat, 2));
        assert(e.len() == 32 + p.len());
        assert(s.subrange(32, 32 + p.len() as int) =~= p);
    }
    assert(sp_open(s) == Ok::<_, BgpParseError>((v.enc().len() as int, v)));
}

} // verus!
