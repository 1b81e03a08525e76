//! Message framing: the 19-byte header, the UPDATE, NOTIFICATION, KEEPALIVE
//! and ROUTE-REFRESH messages, and the top-level packet parser and emitter.
use vstd::prelude::*;

use crate::afi::{Afi, Safi};
use crate::attr::{
    attr_emit_ok, attr_views, emit_attr_list, enc_attr_fn, parse_attr_list, sp_attr_list, Attr,
    AttrV,
};
use crate::context::{opt_add_path_recv, opt_view, sp_ap_recv, ParseOption, ParseOptionV};
use crate::error::BgpParseError;
use crate::list::enc_list;
use crate::nlri::{
    emit_ipv4_nlri_list, enc_ipv4_nlri_fn, parse_ipv4_nlri_list, sp_ipv4_nlri_list, Ipv4Nlri,
};
use crate::open::{sp_open, OpenPacket, OpenV};
use crate::wire::{
    be_enc, be_val, lemma_be_enc_len, lemma_be_val_bound, lemma_be_val_enc, lemma_pow256_consts,
    read_be, read_bytes, write_be, write_bytes,
};

verus! {

/// The length of the fixed message header.
pub const BGP_HEADER_LEN: u16 = 19;

/// The message type codes.
#[derive(Clone, Copy, Debug, PartialEq, Eq, Structural)]
pub enum BgpType {
    Open,
    Update,
    Notification,
    Keepalive,
    RouteRefresh,
    Capability,
    Unknown(u8),
}

impl BgpType {
    pub open spec fn code_spec(self) -> u8 {
        match self {
            BgpType::Open => 1,
            BgpType::Update => 2,
            BgpType::Notification => 3,
            BgpType::Keepalive => 4,
            BgpType::RouteRefresh => 5,
            BgpType::Capability => 6,
            BgpType::Unknown(v) => v,
        }
    }

    pub open spec fn of_code_spec(v: u8) -> BgpType {
        if v == 1 {
            BgpType::Open
        } else if v == 2 {
            BgpType::Update
        } else if v == 3 {
            BgpType::Notification
        } else if v == 4 {
            BgpType::Keepalive
        } else if v == 5 {
            BgpType::RouteRefresh
        } else if v == 6 {
            BgpType::Capability
        } else {
            BgpType::Unknown(v)
        }
    }

    pub open spec fn wf(self) -> bool {
        match self {
            BgpType::Unknown(v) => v == 0 || v > 6,
            _ => true,
        }
    }

    pub fn code(self) -> (r: u8)
        ensures
            r == self.code_spec(),
    {
        match self {
            BgpType::Open => 1,
            BgpType::Update => 2,
            BgpType::Notification => 3,
            BgpType::Keepalive => 4,
            BgpType::RouteRefresh => 5,
            BgpType::Capability => 6,
            BgpType::Unknown(v) => v,
        }
    }

    pub fn of_code(v: u8) -> (r: BgpType)
        ensures
            r == BgpType::of_code_spec(v),
            r.wf(),
    {
        if v == 1 {
            BgpType::Open
        } else if v == 2 {
            BgpType::Update
        } else if v == 3 {
            BgpType::Notification
        } else if v == 4 {
            BgpType::Keepalive
        } else if v == 5 {
            BgpType::RouteRefresh
        } else if v == 6 {
            BgpType::Capability
        } else {
            BgpType::Unknown(v)
        }
    }
}

/// The fixed header: a sixteen-byte marker, the total message length, and the
/// message type. Any marker is accepted on receive; the all-ones marker is
/// sent.
#[derive(Clone, Copy, Debug, PartialEq, Eq, Structural)]
pub struct BgpHeader {
    pub marker: u128,
    pub length: u16,
    pub typ: BgpType,
}

impl BgpHeader {
    pub fn new(typ: BgpType, length: u16) -> (r: BgpHeader)
        ensures
            r.typ == typ && r.length == length && r.marker == u128::MAX,
    {
        BgpHeader { marker: u128::MAX, length, typ }
    }

    pub open spec fn enc(self) -> Seq<u8> {
        be_enc(self.marker as nat, 16) + be_enc(self.length as nat, 2) + seq![self.typ.code_spec()]
    }

    /// Appends the nineteen header bytes.
    pub fn emit(self, out: &mut Vec<u8>)
        ensures
            final(out)@ == old(out)@ + self.enc(),
    {
        proof {
            lemma_pow256_consts();
        }
        write_be(out, self.marker, 16);
        write_be(out, self.length as u128, 2);
        out.push(self.typ.code());
        proof {
            assert(final(out)@ =~= old(out)@ + self.enc());
        }
    }
}

/// What the nineteen header bytes parse to.
pub open spec fn sp_header(s: Seq<u8>) -> Result<(int, BgpHeader), BgpParseError> {
    if s.len() < 19 {
        Err(BgpParseError::Truncated { needed: 19 })
    } else {
        Ok(
            (
                19,
                BgpHeader {
                    marker: be_val(s.subrange(0, 16)) as u128,
                    length: be_val(s.subrange(16, 18)) as u16,
                    typ: BgpType::of_code_spec(s[18]),
                },
            ),
        )
    }
}

/// Reads the fixed header.
pub fn parse_header(input: &[u8], pos: usize, end: usize) -> (r: Result<
    (usize, BgpHeader),
    BgpParseError,
>)
    requires
        pos <= end <= input.len(),
    ensures
        match r {
            Ok((n, v)) => pos < n <= end && sp_header(input@.subrange(pos as int, end as int))
                == Ok::<_, BgpParseError>(((n - pos) as int, v)),
            Err(e) => sp_header(input@.subrange(pos as int, end as int)) == Err::<
                (int, BgpHeader),
                _,
            >(e),
        },
{
    let ghost s = input@.subrange(pos as int, end as int);
    if end - pos < 19 {
        return Err(BgpParseError::Truncated { needed: 19 });
    }
    proof {
        assert(s.subrange(0, 16) =~= input@.subrange(pos as int, pos + 16));
        assert(s.subrange(16, 18) =~= input@.subrange(pos + 16, pos + 18));
        assert(s[18] == input@[pos + 18]);
        lemma_be_val_bound(input@.subrange(pos + 16, pos + 18));
        lemma_pow256_consts();
    }
    let marker = read_be(input, pos, 16);
    let length = read_be(input, pos + 16, 2) as u16;
    let typ = BgpType::of_code(input[pos + 18]);
    Ok((pos + 19, BgpHeader { marker, length, typ }))
}

/// Reads the total message length at offset 16, for stream framing; `None`
/// when fewer than 18 bytes have arrived.
pub fn peek_bgp_length(input: &[u8], pos: usize) -> (r: Option<u16>)
    requires
        pos <= input.len(),
    ensures
        input.len() - pos >= 18 ==> r == Some(
            (be_val(input@.subrange(pos + 16, pos + 18)) as u16),
        ),
        input.len() - pos < 18 ==> r is None,
{
    if input.len() - pos < 18 {
        return None;
    }
    proof {
        lemma_be_val_bound(input@.subrange(pos + 16, pos + 18));
        lemma_pow256_consts();
    }
    Some(read_be(input, pos + 16, 2) as u16)
}

/// One UPDATE message: the withdrawn and announced IPv4-unicast routes and
/// the path attributes, multiprotocol attributes among them.
#[derive(Clone, Debug)]
pub struct UpdatePacket {
    pub header: BgpHeader,
    pub attrs: Vec<Attr>,
    pub ipv4_update: Vec<Ipv4Nlri>,
    pub ipv4_withdraw: Vec<Ipv4Nlri>,
}

/// The mathematical shape of an UPDATE message.
#[verifier::ext_equal]
pub ghost struct UpdateV {
    pub header: BgpHeader,
    pub attrs: Seq<AttrV>,
    pub ipv4_update: Seq<Ipv4Nlri>,
    pub ipv4_withdraw: Seq<Ipv4Nlri>,
}

impl View for UpdatePacket {
    type V = UpdateV;

    open spec fn view(&self) -> UpdateV {
        UpdateV {
            header: self.header,
            attrs: attr_views(self.attrs@),
            ipv4_update: self.ipv4_update@,
            ipv4_withdraw: self.ipv4_withdraw@,
        }
    }
}

impl UpdateV {
    /// The Add-Path mode of the two IPv4-unicast prefix vectors.
    pub open spec fn ap(ctx: Option<ParseOptionV>) -> bool {
        sp_ap_recv(ctx, Afi::Ip, Safi::Unicast)
    }

    pub open spec fn withdraw_enc(self, ctx: Option<ParseOptionV>) -> Seq<u8> {
        enc_list(self.ipv4_withdraw, enc_ipv4_nlri_fn(UpdateV::ap(ctx)))
    }

    pub open spec fn attrs_enc(self, ctx: Option<ParseOptionV>) -> Seq<u8> {
        enc_list(self.attrs, enc_attr_fn(ctx))
    }

    pub open spec fn nlri_enc(self, ctx: Option<ParseOptionV>) -> Seq<u8> {
        enc_list(self.ipv4_update, enc_ipv4_nlri_fn(UpdateV::ap(ctx)))
    }

    /// The whole PDU: header, withdrawn length and routes, attribute length
    /// and attributes, then the announced routes to the end.
    pub open spec fn enc(self, ctx: Option<ParseOptionV>) -> Seq<u8> {
        self.header.enc() + be_enc(self.withdraw_enc(ctx).len() as nat, 2) + self.withdraw_enc(ctx)
            + be_enc(self.attrs_enc(ctx).len() as nat, 2) + self.attrs_enc(ctx) + self.nlri_enc(ctx)
    }

    /// Every part of the body is well-formed for emission.
    pub open spec fn parts_ok(self, ctx: Option<ParseOptionV>) -> bool {
        &&& forall|i: int|
            0 <= i < self.ipv4_withdraw.len() ==> (#[trigger] self.ipv4_withdraw[i]).wf(
                UpdateV::ap(ctx),
            )
        &&& forall|i: int|
            0 <= i < self.ipv4_update.len() ==> (#[trigger] self.ipv4_update[i]).wf(
                UpdateV::ap(ctx),
            )
        &&& forall|i: int| 0 <= i < self.attrs.len() ==> attr_emit_ok(#[trigger] self.attrs[i], ctx)
    }

    /// Everything emission needs: the stored header length is the actual
    /// length, the lengths fit their fields, and every part is well-formed.
    pub open spec fn emit_ok(self, ctx: Option<ParseOptionV>) -> bool {
        &&& self.header.typ == BgpType::Update
        &&& self.withdraw_enc(ctx).len() <= 0xffff
        &&& self.attrs_enc(ctx).len() <= 0xffff
        &&& self.enc(ctx).len() <= 0xffff
        &&& self.header.length == self.enc(ctx).len()
        &&& self.parts_ok(ctx)
    }

    /// Full structural soundness under the negotiated modes.
    pub open spec fn wf(self, as4: bool, ctx: Option<ParseOptionV>) -> bool {
        &&& self.emit_ok(ctx)
        &&& forall|i: int| 0 <= i < self.attrs.len() ==> (#[trigger] self.attrs[i]).wf(as4, ctx)
    }
}

/// What an UPDATE message parses to, starting at the header; the declared
/// total length delimits the PDU.
pub open spec fn sp_update(s: Seq<u8>, as4: bool, ctx: Option<ParseOptionV>) -> Result<
    (int, UpdateV),
    BgpParseError,
> {
    match sp_header(s) {
        Err(e) => Err(e),
        Ok((_, header)) => {
            let total = header.length as int;
            if total < 23 {
                Err(BgpParseError::BadLength)
            } else if s.len() < total {
                Err(BgpParseError::Truncated { needed: header.length as usize })
            } else {
                let wlen = be_val(s.subrange(19, 21)) as int;
                if 23 + wlen > total {
                    Err(BgpParseError::BadLength)
                } else {
                    let ap = sp_ap_recv(ctx, Afi::Ip, Safi::Unicast);
                    match sp_ipv4_nlri_list(s.subrange(21, 21 + wlen), ap) {
                        Err(e) => Err(e),
                        Ok(withdraw) => {
                            let alen = be_val(s.subrange(21 + wlen, 23 + wlen)) as int;
                            if 23 + wlen + alen > total {
                                Err(BgpParseError::BadLength)
                            } else {
                                match sp_attr_list(
                                    s.subrange(23 + wlen, 23 + wlen + alen),
                                    as4,
                                    ctx,
                                ) {
                                    Err(e) => Err(e),
                                    Ok(attrs) => match sp_ipv4_nlri_list(
                                        s.subrange(23 + wlen + alen, total),
                                        ap,
                                    ) {
                                        Err(e) => Err(e),
                                        Ok(updates) => Ok(
                                            (
                                                total,
                                                UpdateV {
                                                    header,
                                                    attrs,
                                                    ipv4_update: updates,
                                                    ipv4_withdraw: withdraw,
                                                },
                                            ),
                                        ),
                                    },
                                }
                            }
                        },
                    }
                }
            }
        },
    }
}

impl UpdatePacket {
    pub fn new() -> (r: UpdatePacket)
        ensures
            r@.header == (BgpHeader {
                marker: u128::MAX,
                length: BGP_HEADER_LEN,
                typ: BgpType::Update,
            }),
            r@.attrs =~= Seq::<AttrV>::empty(),
            r@.ipv4_update =~= Seq::<Ipv4Nlri>::empty(),
            r@.ipv4_withdraw =~= Seq::<Ipv4Nlri>::empty(),
    {
        let r = UpdatePacket {
            header: BgpHeader::new(BgpType::Update, BGP_HEADER_LEN),
            attrs: Vec::new(),
            ipv4_update: Vec::new(),
            ipv4_withdraw: Vec::new(),
        };
        proof {
            assert(r@.attrs =~= Seq::<AttrV>::empty());
        }
        r
    }

    /// Reads one UPDATE message at `pos`; the declared total length delimits
    /// the PDU, and everything past it is left for the caller.
    #[verifier::rlimit(90)]
    pub fn parse_packet(input: &[u8], pos: usize, as4: bool, opt: Option<&ParseOption>) -> (r:
        Result<(usize, UpdatePacket), BgpParseError>)
        requires
            pos <= input.len(),
        ensures
            match r {
                Ok((n, v)) => pos < n <= input.len() && sp_update(
                    input@.skip(pos as int),
                    as4,
                    opt_view(opt),
                ) == Ok::<_, BgpParseError>(((n - pos) as int, v@)),
                Err(e) => sp_update(input@.skip(pos as int), as4, opt_view(opt)) == Err::<
                    (int, UpdateV),
                    _,
                >(e),
            },
    {
        let ghost s = input@.skip(pos as int);
        let end0 = input.len();
        proof {
            assert(s =~= input@.subrange(pos as int, end0 as int));
        }
        let header = match parse_header(input, pos, end0) {
            Err(e) => {
                return Err(e);
            },
            Ok((_, h)) => h,
        };
        let total = header.length as usize;
        if total < 23 {
            return Err(BgpParseError::BadLength);
        }
        if input.len() - pos < total {
            return Err(BgpParseError::Truncated { needed: total });
        }
        let end = pos + total;
        proof {
            assert(s.subrange(19, 21) =~= input@.subrange(pos + 19, pos + 21));
            lemma_be_val_bound(input@.subrange(pos + 19, pos + 21));
            lemma_pow256_consts();
        }
        let wlen = read_be(input, pos + 19, 2) as usize;
        if wlen > total - 23 {
            return Err(BgpParseError::BadLength);
        }
        let ap = opt_add_path_recv(opt, Afi::Ip, Safi::Unicast);
        proof {
            assert(s.subrange(21, 21 + wlen) =~= input@.subrange(pos + 21, pos + 21 + wlen));
        }
        let ipv4_withdraw = match parse_ipv4_nlri_list(input, pos + 21, pos + 21 + wlen, ap) {
            Err(e) => {
                return Err(e);
            },
            Ok(w) => w,
        };
        proof {
            assert(s.subrange(21 + wlen, 23 + wlen) =~= input@.subrange(
                pos + 21 + wlen,
                pos + 23 + wlen,
            ));
            lemma_be_val_bound(input@.subrange(pos + 21 + wlen, pos + 23 + wlen));
        }
        let alen = read_be(input, pos + 21 + wlen, 2) as usize;
        if alen > total - 23 - wlen {
            return Err(BgpParseError::BadLength);
        }
        proof {
            assert(s.subrange(23 + wlen, 23 + wlen + alen) =~= input@.subrange(
                pos + 23 + wlen,
                pos + 23 + wlen + alen,
            ));
        }
        let attrs = match parse_attr_list(input, pos + 23 + wlen, pos + 23 + wlen + alen, as4, opt) {
            Err(e) => {
                return Err(e);
            },
            Ok(a) => a,
        };
        proof {
            assert(s.subrange(23 + wlen + alen, total as int) =~= input@.subrange(
                pos + 23 + wlen + alen,
                end as int,
            ));
        }
        let ipv4_update = match parse_ipv4_nlri_list(input, pos + 23 + wlen + alen, end, ap) {
            Err(e) => {
                return Err(e);
            },
            Ok(u) => u,
        };
        Ok((end, UpdatePacket { header, attrs, ipv4_update, ipv4_withdraw }))
    }

    /// Appends the whole UPDATE message.
    #[verifier::rlimit(90)]
    pub fn emit(&self, out: &mut Vec<u8>, opt: Option<&ParseOption>)
        requires
            self@.emit_ok(opt_view(opt)),
        ensures
            final(out)@ == old(out)@ + self@.enc(opt_view(opt)),
    {
        proof {
            lemma_pow256_consts();
        }
        let ap = opt_add_path_recv(opt, Afi::Ip, Safi::Unicast);
        proof {
            assert(ap == UpdateV::ap(opt_view(opt)));
            assert forall|i: int| 0 <= i < self.attrs@.len() implies attr_emit_ok(
                #[trigger] self.attrs@[i]@,
                opt_view(opt),
            ) by {
                assert(attr_views(self.attrs@)[i] == self.attrs@[i]@);
                assert(attr_emit_ok(self@.attrs[i], opt_view(opt)));
            }
        }
        let mut w: Vec<u8> = Vec::new();
        emit_ipv4_nlri_list(&mut w, &self.ipv4_withdraw, ap);
        let mut a: Vec<u8> = Vec::new();
        emit_attr_list(&mut a, &self.attrs, opt);
        let mut n: Vec<u8> = Vec::new();
        emit_ipv4_nlri_list(&mut n, &self.ipv4_update, ap);
        self.header.emit(out);
        write_be(out, w.len() as u128, 2);
        write_bytes(out, w.as_slice());
        write_be(out, a.len() as u128, 2);
        write_bytes(out, a.as_slice());
        write_bytes(out, n.as_slice());
        proof {
            assert(final(out)@ =~= old(out)@ + self@.enc(opt_view(opt)));
        }
    }
}

impl UpdatePacket {
    /// Back-patches the header for emission: computes the total encoded
    /// length of the message as it stands, stores it with the UPDATE type
    /// code, and reports whether everything fits its wire length field. On a
    /// length overflow nothing is changed.
    #[verifier::rlimit(90)]
    pub fn set_length(&mut self, opt: Option<&ParseOption>) -> (ok: bool)
        requires
            old(self)@.parts_ok(opt_view(opt)),
        ensures
            final(self).attrs == old(self).attrs,
            final(self).ipv4_update == old(self).ipv4_update,
            final(self).ipv4_withdraw == old(self).ipv4_withdraw,
            final(self).header.marker == old(self).header.marker,
            ok ==> final(self)@.emit_ok(opt_view(opt)),
            !ok ==> *final(self) == *old(self),
    {
        let ap = opt_add_path_recv(opt, Afi::Ip, Safi::Unicast);
        proof {
            assert(ap == UpdateV::ap(opt_view(opt)));
            assert(self@.parts_ok(opt_view(opt)));
            assert(self@.ipv4_withdraw == self.ipv4_withdraw@);
            assert(self@.ipv4_update == self.ipv4_update@);
            assert forall|i: int| 0 <= i < self.ipv4_withdraw@.len() implies (
            #[trigger] self.ipv4_withdraw@[i]).wf(ap) by {
                assert(self@.ipv4_withdraw[i].wf(UpdateV::ap(opt_view(opt))));
            }
            assert forall|i: int| 0 <= i < self.ipv4_update@.len() implies (
            #[trigger] self.ipv4_update@[i]).wf(ap) by {
                assert(self@.ipv4_update[i].wf(UpdateV::ap(opt_view(opt))));
            }
            assert forall|i: int| 0 <= i < self.attrs@.len() implies attr_emit_ok(
                #[trigger] self.attrs@[i]@,
                opt_view(opt),
            ) by {
                assert(attr_views(self.attrs@)[i] == self.attrs@[i]@);
                assert(attr_emit_ok(self@.attrs[i], opt_view(opt)));
            }
        }
        let mut w: Vec<u8> = Vec::new();
        emit_ipv4_nlri_list(&mut w, &self.ipv4_withdraw, ap);
        let mut a: Vec<u8> = Vec::new();
        emit_attr_list(&mut a, &self.attrs, opt);
        let mut n: Vec<u8> = Vec::new();
        emit_ipv4_nlri_list(&mut n, &self.ipv4_update, ap);
        if w.len() > 0xffff || a.len() > 0xffff || n.len() > 0xffff {
            return false;
        }
        if 23 + w.len() + a.len() + n.len() > 0xffff {
            return false;
        }
        let total = (23 + w.len() + a.len() + n.len()) as u16;
        self.header = BgpHeader { marker: self.header.marker, length: total, typ: BgpType::Update };
        proof {
            crate::wire::lemma_be_enc_len(final(self)@.header.marker as nat, 16);
            crate::wire::lemma_be_enc_len(final(self)@.header.length as nat, 2);
            crate::wire::lemma_be_enc_len(final(self)@.withdraw_enc(opt_view(opt)).len() as nat, 2);
            crate::wire::lemma_be_enc_len(final(self)@.attrs_enc(opt_view(opt)).len() as nat, 2);
            assert(final(self)@.enc(opt_view(opt)).len() == 23 + w@.len() + a@.len() + n@.len());
        }
        true
    }
}

/// One NOTIFICATION message.
#[derive(Clone, Debug)]
pub struct NotificationPacket {
    pub header: BgpHeader,
    pub code: u8,
    pub sub_code: u8,
    pub data: Vec<u8>,
}

/// The mathematical shape of a NOTIFICATION message.
#[verifier::ext_equal]
pub ghost struct NotifV {
    pub header: BgpHeader,
    pub code: u8,
    pub sub_code: u8,
    pub data: Seq<u8>,
}

impl View for NotificationPacket {
    type V = NotifV;

    open spec fn view(&self) -> NotifV {
        NotifV {
            header: self.header,
            code: self.code,
            sub_code: self.sub_code,
            data: self.data@,
        }
    }
}

impl NotifV {
    pub open spec fn enc(self) -> Seq<u8> {
        self.header.enc() + seq![self.code, self.sub_code] + self.data
    }

    pub open spec fn emit_ok(self) -> bool {
        &&& self.header.typ == BgpType::Notification
        &&& self.header.length == 21 + self.data.len()
        &&& self.data.len() + 21 <= 0xffff
    }
}

/// What a NOTIFICATION message parses to.
pub open spec fn sp_notification(s: Seq<u8>) -> Result<(int, NotifV), BgpParseError> {
    match sp_header(s) {
        Err(e) => Err(e),
        Ok((_, header)) => {
            let total = header.length as int;
            if total < 21 {
                Err(BgpParseError::BadLength)
            } else if s.len() < total {
                Err(BgpParseError::Truncated { needed: header.length as usize })
            } else {
                Ok(
                    (
                        total,
                        NotifV {
                            header,
                            code: s[19],
                            sub_code: s[20],
                            data: s.subrange(21, total),
                        },
                    ),
                )
            }
        },
    }
}

impl NotificationPacket {
    /// Reads one NOTIFICATION message at `pos`.
    pub fn parse_packet(input: &[u8], pos: usize) -> (r: Result<
        (usize, NotificationPacket),
        BgpParseError,
    >)
        requires
            pos <= input.len(),
        ensures
            match r {
                Ok((n, v)) => pos < n <= input.len() && sp_notification(input@.skip(pos as int))
                    == Ok::<_, BgpParseError>(((n - pos) as int, v@)),
                Err(e) => sp_notification(input@.skip(pos as int)) == Err::<(int, NotifV), _>(e),
            },
    {
        let ghost s = input@.skip(pos as int);
        let end0 = input.len();
        proof {
            assert(s =~= input@.subrange(pos as int, end0 as int));
        }
        let header = match parse_header(input, pos, end0) {
            Err(e) => {
                return Err(e);
            },
            Ok((_, h)) => h,
        };
        let total = header.length as usize;
        if total < 21 {
            return Err(BgpParseError::BadLength);
        }
        if input.len() - pos < total {
            return Err(BgpParseError::Truncated { needed: total });
        }
        let code = input[pos + 19];
        let sub_code = input[pos + 20];
        let data = read_bytes(input, pos + 21, total - 21);
        proof {
            assert(s[19] == input@[pos + 19] && s[20] == input@[pos + 20]);
            assert(data@ =~= s.subrange(21, total as int));
        }
        Ok((pos + total, NotificationPacket { header, code, sub_code, data }))
    }

    /// Appends the whole NOTIFICATION message.
    pub fn emit(&self, out: &mut Vec<u8>)
        requires
            self@.emit_ok(),
        ensures
            final(out)@ == old(out)@ + self@.enc(),
    {
        self.header.emit(out);
        out.push(self.code);
        out.push(self.sub_code);
        write_bytes(out, self.data.as_slice());
        proof {
            assert(final(out)@ =~= old(out)@ + self@.enc());
        }
    }
}

impl NotificationPacket {
    /// Back-patches the header for emission: stores the total encoded length
    /// with the NOTIFICATION type code, and reports whether the data fits.
    pub fn set_length(&mut self) -> (ok: bool)
        ensures
            final(self).code == old(self).code,
            final(self).sub_code == old(self).sub_code,
            final(self).data == old(self).data,
            final(self).header.marker == old(self).header.marker,
            ok ==> final(self)@.emit_ok(),
            !ok ==> *final(self) == *old(self),
    {
        if self.data.len() > 0xffff - 21 {
            return false;
        }
        let total = (21 + self.data.len()) as u16;
        self.header = BgpHeader {
            marker: self.header.marker,
            length: total,
            typ: BgpType::Notification,
        };
        true
    }
}

/// One ROUTE-REFRESH message: the family being refreshed.
#[derive(Clone, Copy, Debug, PartialEq, Eq, Structural)]
pub struct RouteRefreshPacket {
    pub header: BgpHeader,
    pub afi: Afi,
    pub res: u8,
    pub safi: Safi,
}

impl RouteRefreshPacket {
    pub open spec fn enc(self) -> Seq<u8> {
        self.header.enc() + be_enc(self.afi.code_spec() as nat, 2) + seq![
            self.res,
            self.safi.code_spec(),
        ]
    }

    pub open spec fn emit_ok(self) -> bool {
        self.header.typ == BgpType::RouteRefresh && self.header.length == 23
    }

    /// Appends the whole ROUTE-REFRESH message.
    pub fn emit(&self, out: &mut Vec<u8>)
        requires
            self.emit_ok(),
        ensures
            final(out)@ == old(out)@ + self.enc(),
    {
        proof {
            lemma_pow256_consts();
        }
        self.header.emit(out);
        self.afi.emit(out);
        out.push(self.res);
        out.push(self.safi.code());
        proof {
            assert(final(out)@ =~= old(out)@ + self.enc());
        }
    }
}

/// What a ROUTE-REFRESH message parses to.
pub open spec fn sp_route_refresh(s: Seq<u8>) -> Result<(int, RouteRefreshPacket), BgpParseError> {
    match sp_header(s) {
        Err(e) => Err(e),
        Ok((_, header)) => {
            if header.length != 23 {
                Err(BgpParseError::BadLength)
            } else if s.len() < 23 {
                Err(BgpParseError::Truncated { needed: 23 })
            } else {
                Ok(
                    (
                        23,
                        RouteRefreshPacket {
                            header,
                            afi: Afi::of_code_spec(be_val(s.subrange(19, 21)) as u16),
                            res: s[21],
                            safi: Safi::of_code_spec(s[22]),
                        },
                    ),
                )
            }
        },
    }
}

/// One BGP message of any kind.
#[derive(Clone, Debug)]
pub enum BgpPacket {
    Open(OpenPacket),
    Update(UpdatePacket),
    Notification(NotificationPacket),
    Keepalive(BgpHeader),
    RouteRefresh(RouteRefreshPacket),
}

/// The mathematical shape of one BGP message.
#[verifier::ext_equal]
pub ghost enum PacketV {
    Open(OpenV),
    Update(UpdateV),
    Notification(NotifV),
    Keepalive(BgpHeader),
    RouteRefresh(RouteRefreshPacket),
}

impl View for BgpPacket {
    type V = PacketV;

    open spec fn view(&self) -> PacketV {
        match self {
            BgpPacket::Open(v) => PacketV::Open(v@),
            BgpPacket::Update(v) => PacketV::Update(v@),
            BgpPacket::Notification(v) => PacketV::Notification(v@),
            BgpPacket::Keepalive(h) => PacketV::Keepalive(*h),
            BgpPacket::RouteRefresh(v) => PacketV::RouteRefresh(*v),
        }
    }
}

/// What a KEEPALIVE message parses to: its header, whose length must be
/// exactly the header length.
pub open spec fn sp_keepalive(s: Seq<u8>) -> Result<(int, BgpHeader), BgpParseError> {
    match sp_header(s) {
        Err(e) => Err(e),
        Ok((_, header)) => {
            if header.length != 19 {
                Err(BgpParseError::BadLength)
            } else {
                Ok((19, header))
            }
        },
    }
}

/// What one BGP message parses to, by its type byte.
pub open spec fn sp_packet(s: Seq<u8>, as4: bool, ctx: Option<ParseOptionV>) -> Result<
    (int, PacketV),
    BgpParseError,
> {
    if s.len() < 19 {
        Err(BgpParseError::Truncated { needed: 19 })
    } else {
        let t = s[18];
        if t == 1 {
            match sp_open(s) {
                Err(e) => Err(e),
                Ok((n, v)) => Ok((n, PacketV::Open(v))),
            }
        } else if t == 2 {
            match sp_update(s, as4, ctx) {
                Err(e) => Err(e),
                Ok((n, v)) => Ok((n, PacketV::Update(v))),
            }
        } else if t == 3 {
            match sp_notification(s) {
                Err(e) => Err(e),
                Ok((n, v)) => Ok((n, PacketV::Notification(v))),
            }
        } else if t == 4 {
            match sp_keepalive(s) {
                Err(e) => Err(e),
                Ok((n, v)) => Ok((n, PacketV::Keepalive(v))),
            }
        } else if t == 5 {
            match sp_route_refresh(s) {
                Err(e) => Err(e),
                Ok((n, v)) => Ok((n, PacketV::RouteRefresh(v))),
            }
        } else {
            Err(BgpParseError::Malformed)
        }
    }
}

impl BgpPacket {
    /// Reads one BGP message at `pos`, under the negotiated modes; the
    /// returned position is where the next message starts.
    #[verifier::rlimit(90)]
    pub fn parse_packet(input: &[u8], pos: usize, as4: bool, opt: Option<&ParseOption>) -> (r:
        Result<(usize, BgpPacket), BgpParseError>)
        requires
            pos <= input.len(),
        ensures
            match r {
                Ok((n, v)) => pos < n <= input.len() && sp_packet(
                    input@.skip(pos as int),
                    as4,
                    opt_view(opt),
                ) == Ok::<_, BgpParseError>(((n - pos) as int, v@)),
                Err(e) => sp_packet(input@.skip(pos as int), as4, opt_view(opt)) == Err::<
                    (int, PacketV),
                    _,
                >(e),
            },
    {
        let ghost s = input@.skip(pos as int);
        if input.len() - pos < 19 {
            return Err(BgpParseError::Truncated { needed: 19 });
        }
        let t = input[pos + 18];
        proof {
            assert(s[18] == input@[pos + 18]);
        }
        if t == 1 {
            match OpenPacket::parse_packet(input, pos) {
                Err(e) => Err(e),
                Ok((n, v)) => Ok((n, BgpPacket::Open(v))),
            }
        } else if t == 2 {
            match UpdatePacket::parse_packet(input, pos, as4, opt) {
                Err(e) => Err(e),
                Ok((n, v)) => Ok((n, BgpPacket::Update(v))),
            }
        } else if t == 3 {
            match NotificationPacket::parse_packet(input, pos) {
                Err(e) => Err(e),
                Ok((n, v)) => Ok((n, BgpPacket::Notification(v))),
            }
        } else if t == 4 {
            let end0 = input.len();
            proof {
                assert(s =~= input@.subrange(pos as int, end0 as int));
            }
            match parse_header(input, pos, end0) {
                Err(e) => Err(e),
                Ok((n, h)) => {
                    if h.length != 19 {
                        Err(BgpParseError::BadLength)
                    } else {
                        Ok((n, BgpPacket::Keepalive(h)))
                    }
                },
            }
        } else if t == 5 {
            let end0 = input.len();
            proof {
                assert(s =~= input@.subrange(pos as int, end0 as int));
            }
            match parse_header(input, pos, end0) {
                Err(e) => {
                    return Err(e);
                },
                Ok((_, h)) => {
                    if h.length != 23 {
                        return Err(BgpParseError::BadLength);
                    }
                    if input.len() - pos < 23 {
                        return Err(BgpParseError::Truncated { needed: 23 });
                    }
                    proof {
                        assert(s.subrange(19, 21) =~= input@.subrange(pos + 19, pos + 21));
                        lemma_be_val_bound(input@.subrange(pos + 19, pos + 21));
                        lemma_pow256_consts();
                        assert(s[21] == input@[pos + 21] && s[22] == input@[pos + 22]);
                    }
                    let afi = Afi::of_code(read_be(input, pos + 19, 2) as u16);
                    let res = input[pos + 21];
                    let safi = Safi::of_code(input[pos + 22]);
                    Ok(
                        (
                            pos + 23,
                            BgpPacket::RouteRefresh(RouteRefreshPacket { header: h, afi, res, safi }),
                        ),
                    )
                },
            }
        } else {
            Err(BgpParseError::Malformed)
        }
    }
}


/// Emitting a well-formed UPDATE and parsing it back under the same modes
/// returns the same message, whatever bytes follow it in the stream; Add-Path
/// identifiers are preserved exactly.
#[verifier::rlimit(90)]
pub proof fn lemma_update_round_trip(
    v: UpdateV,
    as4: bool,
    ctx: Option<ParseOptionV>,
    tail: Seq<u8>,
)
    requires
        v.wf(as4, ctx),
    ensures
        sp_update(v.enc(ctx) + tail, as4, ctx) == Ok::<_, BgpParseError>(
            (v.enc(ctx).len() as int, v),
        ),
{
    let e = v.enc(ctx);
    let s = e + tail;
    let ap = UpdateV::ap(ctx);
    let w = v.withdraw_enc(ctx);
    let a = v.attrs_enc(ctx);
    let n = v.nlri_enc(ctx);
    let total = e.len() as int;
    lemma_pow256_consts();
    lemma_be_enc_len(v.header.marker as nat, 16);
    lemma_be_enc_len(v.header.length as nat, 2);
    lemma_be_enc_len(w.len() as nat, 2);
    lemma_be_enc_len(a.len() as nat, 2);
    lemma_be_val_enc(v.header.marker as nat, 16);
    lemma_be_val_enc(v.header.length as nat, 2);
    lemma_be_val_enc(w.len() as nat, 2);
    lemma_be_val_enc(a.len() as nat, 2);
    assert(s.subrange(0, 16) =~= be_enc(v.header.marker as nat, 16));
    assert(s.subrange(16, 18) =~= be_enc(v.header.length as nat, 2));
    assert(s[18] == v.header.typ.code_spec());
    assert(v.header.typ.code_spec() == 2);
    assert(BgpType::of_code_spec(2) == BgpType::Update);
    assert(sp_header(s) == Ok::<_, BgpParseError>((19int, v.header)));
    assert(total == 23 + w.len() + a.len() + n.len());
    assert(s.subrange(19, 21) =~= be_enc(w.len() as nat, 2));
    assert(s.subrange(21, 21 + w.len() as int) =~= w);
    crate::nlri::lemma_ipv4_nlri_list_round_trip(v.ipv4_withdraw, ap);
    assert(s.subrange(21 + w.len() as int, 23 + w.len() as int) =~= be_enc(a.len() as nat, 2));
    assert(s.subrange(23 + w.len() as int, 23 + w.len() + a.len() as int) =~= a);
    crate::attr::lemma_attr_list_round_trip(v.attrs, as4, ctx);
    assert(s.subrange(23 + w.len() + a.len() as int, total) =~= n);
    crate::nlri::lemma_ipv4_nlri_list_round_trip(v.ipv4_update, ap);
    assert(sp_update(s, as4, ctx) == Ok::<_, BgpParseError>((total, v)));
}

/// Emitting a well-formed NOTIFICATION and parsing it back returns it.
pub proof fn lemma_notification_round_trip(v: NotifV, tail: Seq<u8>)
    requires
        v.emit_ok(),
    ensures
        sp_notification(v.enc() + tail) == Ok::<_, BgpParseError>((v.enc().len() as int, v)),
{
    let e = v.enc();
    let s = e + tail;
    lemma_pow256_consts();
    lemma_be_enc_len(v.header.marker as nat, 16);
    lemma_be_enc_len(v.header.length as nat, 2);
    lemma_be_val_enc(v.header.marker as nat, 16);
    lemma_be_val_enc(v.header.length as nat, 2);
    assert(s.subrange(0, 16) =~= be_enc(v.header.marker as nat, 16));
    assert(s.subrange(16, 18) =~= be_enc(v.header.length as nat, 2));
    assert(s[18] == v.header.typ.code_spec());
    assert(v.header.typ.code_spec() == 3);
    assert(BgpType::of_code_spec(3) == BgpType::Notification);
    assert(sp_header(s) == Ok::<_, BgpParseError>((19int, v.header)));
    assert(s[19] == v.code && s[20] == v.sub_code);
    assert(s.subrange(21, v.header.length as int) =~= v.data);
}

/// A KEEPALIVE is exactly its nineteen header bytes, and those bytes parse
/// back to it.
pub proof fn lemma_keepalive_round_trip(h: BgpHeader, tail: Seq<u8>)
    requires
        h.typ == BgpType::Keepalive,
        h.length == 19,
    ensures
        sp_keepalive(h.enc() + tail) == Ok::<_, BgpParseError>((19int, h)),
        h.enc().len() == 19,
{
    let s = h.enc() + tail;
    lemma_pow256_consts();
    lemma_be_enc_len(h.marker as nat, 16);
    lemma_be_enc_len(h.length as nat, 2);
    lemma_be_val_enc(h.marker as nat, 16);
    lemma_be_val_enc(h.length as nat, 2);
    assert(s.subrange(0, 16) =~= be_enc(h.marker as nat, 16));
    assert(s.subrange(16, 18) =~= be_enc(h.length as nat, 2));
    assert(s[18] == h.typ.code_spec());
    assert(BgpType::of_code_spec(4) == BgpType::Keepalive);
    assert(sp_header(s) == Ok::<_, BgpParseError>((19int, h)));
}

/// Emitting a well-formed ROUTE-REFRESH and parsing it back returns it.
pub proof fn lemma_route_refresh_round_trip(v: RouteRefreshPacket, tail: Seq<u8>)
    requires
        v.emit_ok(),
        v.afi.wf(),
        v.safi.wf(),
    ensures
        sp_route_refresh(v.enc() + tail) == Ok::<_, BgpParseError>((23int, v)),
        v.enc().len() == 23,
{
    let s = v.enc() + tail;
    lemma_pow256_consts();
    lemma_be_enc_len(v.header.marker as nat, 16);
    lemma_be_enc_len(v.header.length as nat, 2);
    lemma_be_enc_len(v.afi.code_spec() as nat, 2);
    lemma_be_val_enc(v.header.marker as nat, 16);
    lemma_be_val_enc(v.header.length as nat, 2);
    lemma_be_val_enc(v.afi.code_spec() as nat, 2);
    assert(s.subrange(0, 16) =~= be_enc(v.header.marker as nat, 16));
    assert(s.subrange(16, 18) =~= be_enc(v.header.length as nat, 2));
    assert(s[18] == v.header.typ.code_spec());
    assert(BgpType::of_code_spec(5) == BgpType::RouteRefresh);
    assert(sp_header(s) == Ok::<_, BgpParseError>((19int, v.header)));
    assert(s.subrange(19, 21) =~= be_enc(v.afi.code_spec() as nat, 2));
    assert(s[21] == v.res && s[22] == v.safi.code_spec());
    assert(Afi::of_code_spec(v.afi.code_spec()) == v.afi);
    assert(Safi::of_code_spec(v.safi.code_spec()) == v.safi);
}

/// The emission requirements of one packet of any kind.
pub open spec fn packet_emit_ok(p: PacketV, ctx: Option<ParseOptionV>) -> bool {
    match p {
        PacketV::Open(v) => v.emit_ok(),
        PacketV::Update(v) => v.emit_ok(ctx),
        PacketV::Notification(v) => v.emit_ok(),
        PacketV::Keepalive(h) => h.typ == BgpType::Keepalive && h.length == 19,
        PacketV::RouteRefresh(v) => v.emit_ok(),
    }
}

/// The wire form of one packet of any kind.
pub open spec fn packet_enc(p: PacketV, ctx: Option<ParseOptionV>) -> Seq<u8> {
    match p {
        PacketV::Open(v) => v.enc(),
        PacketV::Update(v) => v.enc(ctx),
        PacketV::Notification(v) => v.enc(),
        PacketV::Keepalive(h) => h.enc(),
        PacketV::RouteRefresh(v) => v.enc(),
    }
}

/// Structural soundness of one packet of any kind under the negotiated modes.
pub open spec fn packet_wf(p: PacketV, as4: bool, ctx: Option<ParseOptionV>) -> bool {
    packet_emit_ok(p, ctx) && match p {
        PacketV::Update(v) => v.wf(as4, ctx),
        PacketV::RouteRefresh(v) => v.afi.wf() && v.safi.wf(),
        _ => true,
    }
}

/// The length invariant: in every emitted message the two bytes at offset 16,
/// read big-endian, equal the total emitted length.
pub proof fn lemma_emitted_length(p: PacketV, ctx: Option<ParseOptionV>)
    requires
        packet_emit_ok(p, ctx),
    ensures
        packet_enc(p, ctx).len() >= 19,
        be_val(packet_enc(p, ctx).subrange(16, 18)) == packet_enc(p, ctx).len(),
{
    let e = packet_enc(p, ctx);
    lemma_pow256_consts();
    match p {
        PacketV::Open(v) => {
            lemma_be_enc_len(v.header.marker as nat, 16);
            lemma_be_enc_len(v.header.length as nat, 2);
            lemma_be_val_enc(v.header.length as nat, 2);
            lemma_be_enc_len(v.asn as nat, 2);
            lemma_be_enc_len(v.hold_time as nat, 2);
            lemma_be_enc_len(v.bgp_id as nat, 4);
            if v.params_enc().len() >= 255 {
                lemma_be_enc_len(v.params_enc().len() as nat, 2);
            }
            assert(e.subrange(16, 18) =~= be_enc(v.header.length as nat, 2));
        },
        PacketV::Update(v) => {
            lemma_be_enc_len(v.header.marker as nat, 16);
            lemma_be_enc_len(v.header.length as nat, 2);
            lemma_be_val_enc(v.header.length as nat, 2);
            lemma_be_enc_len(v.withdraw_enc(ctx).len() as nat, 2);
            lemma_be_enc_len(v.attrs_enc(ctx).len() as nat, 2);
            assert(e.subrange(16, 18) =~= be_enc(v.header.length as nat, 2));
        },
        PacketV::Notification(v) => {
            lemma_be_enc_len(v.header.marker as nat, 16);
            lemma_be_enc_len(v.header.length as nat, 2);
            lemma_be_val_enc(v.header.length as nat, 2);
            assert(e.subrange(16, 18) =~= be_enc(v.header.length as nat, 2));
        },
        PacketV::Keepalive(h) => {
            lemma_be_enc_len(h.marker as nat, 16);
            lemma_be_enc_len(h.length as nat, 2);
            lemma_be_val_enc(h.length as nat, 2);
            assert(e.subrange(16, 18) =~= be_enc(h.length as nat, 2));
        },
        PacketV::RouteRefresh(v) => {
            lemma_be_enc_len(v.header.marker as nat, 16);
            lemma_be_enc_len(v.header.length as nat, 2);
            lemma_be_val_enc(v.header.length as nat, 2);
            lemma_be_enc_len(v.afi.code_spec() as nat, 2);
            assert(e.subrange(16, 18) =~= be_enc(v.header.length as nat, 2));
        },
    }
}

/// The packet-level round trip: emitting a well-formed message of any of the
/// five kinds and parsing the bytes back under the same negotiated modes
/// returns the same message. It follows that the emitter is injective on
/// well-formed messages, and that re-emitting a parsed canonical message
/// reproduces its bytes exactly.
#[verifier::rlimit(90)]
#[verifier::spinoff_prover]
pub proof fn lemma_packet_round_trip(
    p: PacketV,
    as4: bool,
    ctx: Option<ParseOptionV>,
    tail: Seq<u8>,
)
    requires
        packet_wf(p, as4, ctx),
    ensures
        sp_packet(packet_enc(p, ctx) + tail, as4, ctx) == Ok::<_, BgpParseError>(
            (packet_enc(p, ctx).len() as int, p),
        ),
{
    let e = packet_enc(p, ctx);
    let s = e + tail;
    lemma_emitted_length(p, ctx);
    lemma_pow256_consts();
    match p {
        PacketV::Open(v) => {
            lemma_be_enc_len(v.header.marker as nat, 16);
            lemma_be_enc_len(v.header.length as nat, 2);
            assert(s[18] == v.header.typ.code_spec());
            crate::open::lemma_open_round_trip(v, tail);
        },
        PacketV::Update(v) => {
            lemma_be_enc_len(v.header.marker as nat, 16);
            lemma_be_enc_len(v.header.length as nat, 2);
            lemma_be_enc_len(v.withdraw_enc(ctx).len() as nat, 2);
            assert(s[18] == v.header.typ.code_spec());
            lemma_update_round_trip(v, as4, ctx, tail);
        },
        PacketV::Notification(v) => {
            lemma_be_enc_len(v.header.marker as nat, 16);
            lemma_be_enc_len(v.header.length as nat, 2);
            assert(s[18] == v.header.typ.code_spec());
            lemma_notification_round_trip(v, tail);
        },
        PacketV::Keepalive(h) => {
            lemma_be_enc_len(h.marker as nat, 16);
            lemma_be_enc_len(h.length as nat, 2);
            assert(s[18] == h.typ.code_spec());
            lemma_keepalive_round_trip(h, tail);
        },
        PacketV::RouteRefresh(v) => {
            lemma_be_enc_len(v.header.marker as nat, 16);
            lemma_be_enc_len(v.header.length as nat, 2);
            assert(s[18] == v.header.typ.code_spec());
            lemma_route_refresh_round_trip(v, tail);
        },
    }
}

} // verus!
