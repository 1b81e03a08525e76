//! The capability codec: the TLVs a speaker announces inside the optional
//! parameters of its OPEN message.
use vstd::prelude::*;

use crate::afi::{Afi, Safi};
use crate::error::BgpParseError;
use crate::list::{enc_list, lemma_enc_list_snoc, lemma_list_round_trip, sp_list};
use crate::wire::{
    be_enc, be_val, lemma_be_enc_len, lemma_be_val_bound, lemma_be_val_enc, lemma_pow256_consts,
    read_be, read_bytes, write_be, write_bytes,
};

verus! {

/// The code and declared length in front of every capability value.
#[derive(Clone, Copy, Debug, PartialEq, Eq, Structural)]
pub struct CapabilityHeader {
    pub code: u8,
    pub length: u8,
}

impl CapabilityHeader {
    pub fn new(code: u8, length: u8) -> (r: CapabilityHeader)
        ensures
            r.code == code && r.length == length,
    {
        CapabilityHeader { code, length }
    }
}

/// The multiprotocol capability: one address family, with its reserved byte.
#[derive(Clone, Copy, Debug, PartialEq, Eq, Structural)]
pub struct CapMultiProtocol {
    pub afi: Afi,
    pub res: u8,
    pub safi: Safi,
}

impl CapMultiProtocol {
    pub fn new(afi: &Afi, safi: &Safi) -> (r: CapMultiProtocol)
        ensures
            r.afi == afi && r.safi == safi && r.res == 0,
    {
        CapMultiProtocol { afi: *afi, res: 0, safi: *safi }
    }
}

#[derive(Clone, Copy, Debug, PartialEq, Eq, Structural)]
pub struct CapabilityRouteRefresh {}

#[derive(Clone, Copy, Debug, PartialEq, Eq, Structural)]
pub struct CapabilityRouteRefreshCisco {}

#[derive(Clone, Copy, Debug, PartialEq, Eq, Structural)]
pub struct CapabilityEnhancedRouteRefresh {}

#[derive(Clone, Copy, Debug, PartialEq, Eq, Structural)]
pub struct CapabilityExtendedMessage {}

#[derive(Clone, Copy, Debug, PartialEq, Eq, Structural)]
pub struct CapabilityDynamicCapability {}

/// One graceful-restart tuple: a family and its forwarding-preserved flags.
#[derive(Clone, Copy, Debug, PartialEq, Eq, Structural)]
pub struct GrTuple {
    pub afi: Afi,
    pub safi: Safi,
    pub flags: u8,
}

/// The graceful-restart capability. The two-byte and four-byte legacy value
/// layouts and the full layout are all accepted on receive.
#[derive(Clone, Debug)]
pub struct CapabilityGracefulRestart {
    pub restart_time: u32,
    pub tuples: Vec<GrTuple>,
}

impl CapabilityGracefulRestart {
    pub fn new(restart_time: u32) -> (r: CapabilityGracefulRestart)
        ensures
            r.restart_time == restart_time,
            r.tuples@ =~= Seq::<GrTuple>::empty(),
    {
        CapabilityGracefulRestart { restart_time, tuples: Vec::new() }
    }
}

#[derive(Clone, Copy, Debug, PartialEq, Eq, Structural)]
pub struct CapabilityAs4 {
    pub asn: u32,
}

impl CapabilityAs4 {
    pub fn new(asn: u32) -> (r: CapabilityAs4)
        ensures
            r.asn == asn,
    {
        CapabilityAs4 { asn }
    }
}

/// The Add-Path direction field.
#[derive(Clone, Copy, Debug, PartialEq, Eq, Structural)]
pub enum AddPathSendReceive {
    Receive,
    Send,
    SendReceive,
    Unknown(u8),
}

impl AddPathSendReceive {
    pub open spec fn code_spec(self) -> u8 {
        match self {
            AddPathSendReceive::Receive => 1,
            AddPathSendReceive::Send => 2,
            AddPathSendReceive::SendReceive => 3,
            AddPathSendReceive::Unknown(v) => v,
        }
    }

    pub open spec fn of_code_spec(v: u8) -> AddPathSendReceive {
        if v == 1 {
            AddPathSendReceive::Receive
        } else if v == 2 {
            AddPathSendReceive::Send
        } else if v == 3 {
            AddPathSendReceive::SendReceive
        } else {
            AddPathSendReceive::Unknown(v)
        }
    }

    pub open spec fn wf(self) -> bool {
        match self {
            AddPathSendReceive::Unknown(v) => v != 1 && v != 2 && v != 3,
            _ => true,
        }
    }

    pub fn code(self) -> (r: u8)
        ensures
            r == self.code_spec(),
    {
        match self {
            AddPathSendReceive::Receive => 1,
            AddPathSendReceive::Send => 2,
            AddPathSendReceive::SendReceive => 3,
            AddPathSendReceive::Unknown(v) => v,
        }
    }

    pub fn of_code(v: u8) -> (r: AddPathSendReceive)
        ensures
            r == AddPathSendReceive::of_code_spec(v),
            r.wf(),
    {
        if v == 1 {
            AddPathSendReceive::Receive
        } else if v == 2 {
            AddPathSendReceive::Send
        } else if v == 3 {
            AddPathSendReceive::SendReceive
        } else {
            AddPathSendReceive::Unknown(v)
        }
    }

    pub fn is_receive(&self) -> (r: bool)
        ensures
            r == (*self == AddPathSendReceive::Receive || *self
                == AddPathSendReceive::SendReceive),
    {
        match self {
            AddPathSendReceive::Receive | AddPathSendReceive::SendReceive => true,
            _ => false,
        }
    }

    pub fn is_send(&self) -> (r: bool)
        ensures
            r == (*self == AddPathSendReceive::Send || *self == AddPathSendReceive::SendReceive),
    {
        match self {
            AddPathSendReceive::Send | AddPathSendReceive::SendReceive => true,
            _ => false,
        }
    }
}

/// One Add-Path tuple: a family and the negotiated directions.
#[derive(Clone, Copy, Debug, PartialEq, Eq, Structural)]
pub struct AddPathValue {
    pub afi: Afi,
    pub safi: Safi,
    pub send_receive: AddPathSendReceive,
}

#[derive(Clone, Debug)]
pub struct CapabilityAddPath {
    pub values: Vec<AddPathValue>,
}

impl CapabilityAddPath {
    pub fn new(afi: Afi, safi: Safi, send_receive: u8) -> (r: CapabilityAddPath)
        ensures
            r.values@.len() == 1,
            r.values@[0].afi == afi,
            r.values@[0].safi == safi,
            r.values@[0].send_receive == AddPathSendReceive::of_code_spec(send_receive),
    {
        let mut values: Vec<AddPathValue> = Vec::new();
        values.push(
            AddPathValue { afi, safi, send_receive: AddPathSendReceive::of_code(send_receive) },
        );
        CapabilityAddPath { values }
    }
}

/// One long-lived graceful-restart tuple.
#[derive(Clone, Copy, Debug, PartialEq, Eq, Structural)]
pub struct LLGRValue {
    pub afi: Afi,
    pub safi: Safi,
    pub flags: u8,
    pub stale_time: u32,
}

impl LLGRValue {
    pub fn new(afi: Afi, safi: Safi, flags: u8, stale_time: u32) -> (r: LLGRValue)
        ensures
            r.afi == afi && r.safi == safi && r.flags == flags && r.stale_time == stale_time,
    {
        LLGRValue { afi, safi, flags, stale_time }
    }
}

#[derive(Clone, Debug)]
pub struct CapabilityLlgr {
    pub values: Vec<LLGRValue>,
}

/// The hostname capability: a host name and a domain name.
#[derive(Clone, Debug)]
pub struct CapabilityFqdn {
    pub host: Vec<u8>,
    pub domain: Vec<u8>,
}

#[derive(Clone, Debug)]
pub struct CapabilitySoftwareVersion {
    pub version: Vec<u8>,
}

/// One path-limit tuple.
#[derive(Clone, Copy, Debug, PartialEq, Eq, Structural)]
pub struct PathLimitValue {
    pub afi: Afi,
    pub safi: Safi,
    pub path_limit: u16,
}

#[derive(Clone, Debug)]
pub struct CapabilityPathLimit {
    pub values: Vec<PathLimitValue>,
}

impl CapabilityPathLimit {
    pub fn new(afi: Afi, safi: Safi, path_limit: u16) -> (r: CapabilityPathLimit)
        ensures
            r.values@.len() == 1,
            r.values@[0] == (PathLimitValue { afi, safi, path_limit }),
    {
        let mut values: Vec<PathLimitValue> = Vec::new();
        values.push(PathLimitValue { afi, safi, path_limit });
        CapabilityPathLimit { values }
    }
}

/// A capability whose code the codec does not know, kept verbatim.
#[derive(Clone, Debug)]
pub struct CapabilityUnknown {
    pub header: CapabilityHeader,
    pub data: Vec<u8>,
}

/// One capability TLV.
#[derive(Clone, Debug)]
pub enum CapabilityPacket {
    MultiProtocol(CapMultiProtocol),
    RouteRefresh(CapabilityRouteRefresh),
    ExtendedMessage(CapabilityExtendedMessage),
    GracefulRestart(CapabilityGracefulRestart),
    As4(CapabilityAs4),
    DynamicCapability(CapabilityDynamicCapability),
    AddPath(CapabilityAddPath),
    EnhancedRouteRefresh(CapabilityEnhancedRouteRefresh),
    Llgr(CapabilityLlgr),
    Fqdn(CapabilityFqdn),
    SoftwareVersion(CapabilitySoftwareVersion),
    PathLimit(CapabilityPathLimit),
    RouteRefreshCisco(CapabilityRouteRefreshCisco),
    Unknown(CapabilityUnknown),
}

/// The mathematical shape of one capability TLV.
#[verifier::ext_equal]
pub ghost enum CapV {
    MultiProtocol(CapMultiProtocol),
    RouteRefresh,
    ExtendedMessage,
    GracefulRestart { restart_time: u32, tuples: Seq<GrTuple> },
    As4(CapabilityAs4),
    DynamicCapability,
    AddPath(Seq<AddPathValue>),
    EnhancedRouteRefresh,
    Llgr(Seq<LLGRValue>),
    Fqdn { host: Seq<u8>, domain: Seq<u8> },
    SoftwareVersion(Seq<u8>),
    PathLimit(Seq<PathLimitValue>),
    RouteRefreshCisco,
    Unknown { code: u8, data: Seq<u8> },
}

impl View for CapabilityPacket {
    type V = CapV;

    open spec fn view(&self) -> CapV {
        match self {
            CapabilityPacket::MultiProtocol(v) => CapV::MultiProtocol(*v),
            CapabilityPacket::RouteRefresh(_) => CapV::RouteRefresh,
            CapabilityPacket::ExtendedMessage(_) => CapV::ExtendedMessage,
            CapabilityPacket::GracefulRestart(v) => CapV::GracefulRestart {
                restart_time: v.restart_time,
                tuples: v.tuples@,
            },
            CapabilityPacket::As4(v) => CapV::As4(*v),
            CapabilityPacket::DynamicCapability(_) => CapV::DynamicCapability,
            CapabilityPacket::AddPath(v) => CapV::AddPath(v.values@),
            CapabilityPacket::EnhancedRouteRefresh(_) => CapV::EnhancedRouteRefresh,
            CapabilityPacket::Llgr(v) => CapV::Llgr(v.values@),
            CapabilityPacket::Fqdn(v) => CapV::Fqdn { host: v.host@, domain: v.domain@ },
            CapabilityPacket::SoftwareVersion(v) => CapV::SoftwareVersion(v.version@),
            CapabilityPacket::PathLimit(v) => CapV::PathLimit(v.values@),
            CapabilityPacket::RouteRefreshCisco(_) => CapV::RouteRefreshCisco,
            CapabilityPacket::Unknown(v) => CapV::Unknown { code: v.header.code, data: v.data@ },
        }
    }
}

/// The encoders of the fixed-size tuple runs.
pub open spec fn enc_addpath_value_fn() -> spec_fn(AddPathValue) -> Seq<u8> {
    |v: AddPathValue| be_enc(v.afi.code_spec() as nat, 2) + seq![v.safi.code_spec(), v.send_receive.code_spec()]
}

pub open spec fn enc_llgr_value_fn() -> spec_fn(LLGRValue) -> Seq<u8> {
    |v: LLGRValue| be_enc(v.afi.code_spec() as nat, 2) + seq![v.safi.code_spec(), v.flags] + be_enc(
        v.stale_time as nat,
        3,
    )
}

pub open spec fn enc_pathlimit_value_fn() -> spec_fn(PathLimitValue) -> Seq<u8> {
    |v: PathLimitValue| be_enc(v.afi.code_spec() as nat, 2) + seq![v.safi.code_spec()] + be_enc(
        v.path_limit as nat,
        2,
    )
}

pub open spec fn enc_gr_tuple_fn() -> spec_fn(GrTuple) -> Seq<u8> {
    |v: GrTuple| be_enc(v.afi.code_spec() as nat, 2) + seq![v.safi.code_spec(), v.flags]
}

impl CapV {
    pub open spec fn code(self) -> u8 {
        match self {
            CapV::MultiProtocol(_) => 1,
            CapV::RouteRefresh => 2,
            CapV::ExtendedMessage => 6,
            CapV::GracefulRestart { .. } => 64,
            CapV::As4(_) => 65,
            CapV::DynamicCapability => 67,
            CapV::AddPath(_) => 69,
            CapV::EnhancedRouteRefresh => 70,
            CapV::Llgr(_) => 71,
            CapV::Fqdn { .. } => 73,
            CapV::SoftwareVersion(_) => 75,
            CapV::PathLimit(_) => 76,
            CapV::RouteRefreshCisco => 128,
            CapV::Unknown { code, .. } => code,
        }
    }

    /// The capability value bytes.
    pub open spec fn payload_enc(self) -> Seq<u8> {
        match self {
            CapV::MultiProtocol(v) => be_enc(v.afi.code_spec() as nat, 2) + seq![
                v.res,
                v.safi.code_spec(),
            ],
            CapV::RouteRefresh => Seq::empty(),
            CapV::ExtendedMessage => Seq::empty(),
            CapV::GracefulRestart { restart_time, tuples } => if tuples.len() == 0 {
                be_enc(restart_time as nat, 4)
            } else {
                be_enc(restart_time as nat, 2) + enc_list(tuples, enc_gr_tuple_fn())
            },
            CapV::As4(v) => be_enc(v.asn as nat, 4),
            CapV::DynamicCapability => Seq::empty(),
            CapV::AddPath(vs) => enc_list(vs, enc_addpath_value_fn()),
            CapV::EnhancedRouteRefresh => Seq::empty(),
            CapV::Llgr(vs) => enc_list(vs, enc_llgr_value_fn()),
            CapV::Fqdn { host, domain } => seq![host.len() as u8] + host + seq![
                domain.len() as u8,
            ] + domain,
            CapV::SoftwareVersion(v) => v,
            CapV::PathLimit(vs) => enc_list(vs, enc_pathlimit_value_fn()),
            CapV::RouteRefreshCisco => Seq::empty(),
            CapV::Unknown { data, .. } => data,
        }
    }

    /// The whole TLV: code, length, value.
    pub open spec fn enc(self) -> Seq<u8> {
        seq![self.code(), self.payload_enc().len() as u8] + self.payload_enc()
    }

    pub open spec fn wf(self) -> bool {
        self.payload_enc().len() <= 253 && match self {
            CapV::MultiProtocol(v) => v.afi.wf() && v.safi.wf(),
            CapV::GracefulRestart { restart_time, tuples } => (tuples.len() == 0 || restart_time
                < 0x1_0000) && forall|i: int|
                0 <= i < tuples.len() ==> (#[trigger] tuples[i]).afi.wf() && tuples[i].safi.wf(),
            CapV::As4(_) => true,
            CapV::AddPath(vs) => forall|i: int|
                0 <= i < vs.len() ==> (#[trigger] vs[i]).afi.wf() && vs[i].safi.wf()
                    && vs[i].send_receive.wf(),
            CapV::Llgr(vs) => (forall|i: int|
                0 <= i < vs.len() ==> (#[trigger] vs[i]).afi.wf() && vs[i].safi.wf()) && forall|
                i: int,
            |
                0 <= i < vs.len() ==> (#[trigger] vs[i]).stale_time < 0x100_0000,
            CapV::PathLimit(vs) => forall|i: int|
                0 <= i < vs.len() ==> (#[trigger] vs[i]).afi.wf() && vs[i].safi.wf(),
            CapV::Fqdn { host, domain } => host.len() <= 255 && domain.len() <= 255,
            CapV::Unknown { code, data } => !known_cap_code(code),
            _ => true,
        }
    }
}

/// Whether a capability code has a typed representation.
pub open spec fn known_cap_code(code: u8) -> bool {
    code == 1 || code == 2 || code == 6 || code == 64 || code == 65 || code == 67 || code == 69
        || code == 70 || code == 71 || code == 73 || code == 75 || code == 76 || code == 128
}


/// What one AddPathValue record parses to.
pub open spec fn sp_addpath_value(s: Seq<u8>) -> Result<(int, AddPathValue), BgpParseError> {
    if s.len() < 4 {
        Err(BgpParseError::Truncated { needed: 4 })
    } else {
        Ok(
            (
                4,
                AddPathValue {
                    afi: Afi::of_code_spec(be_val(s.subrange(0, 2)) as u16),
                    safi: Safi::of_code_spec(s[2]),
                    send_receive: AddPathSendReceive::of_code_spec(s[3]),
                },
            ),
        )
    }
}

pub open spec fn sp_addpath_value_fn() -> spec_fn(Seq<u8>) -> Result<(int, AddPathValue), BgpParseError> {
    |t: Seq<u8>| sp_addpath_value(t)
}

/// What a run of AddPathValue records parses to.
pub open spec fn sp_addpath_value_list(s: Seq<u8>) -> Result<Seq<AddPathValue>, BgpParseError> {
    sp_list(s, sp_addpath_value_fn())
}

/// Reads one AddPathValue record.
pub fn parse_addpath_value(input: &[u8], pos: usize, end: usize) -> (r: Result<
    (usize, AddPathValue),
    BgpParseError,
>)
    requires
        pos <= end <= input.len(),
    ensures
        match r {
            Ok((n, v)) => pos < n <= end && sp_addpath_value(input@.subrange(pos as int, end as int))
                == Ok::<_, BgpParseError>(((n - pos) as int, v)),
            Err(e) => sp_addpath_value(input@.subrange(pos as int, end as int)) == Err::<
                (int, AddPathValue),
                _,
            >(e),
        },
{
    let ghost s = input@.subrange(pos as int, end as int);
    if end - pos < 4 {
        return Err(BgpParseError::Truncated { needed: 4 });
    }
    proof {
        assert(s.subrange(0, 2) =~= input@.subrange(pos as int, pos + 2));
        lemma_be_val_bound(input@.subrange(pos as int, pos + 2));
        lemma_pow256_consts();
        assert(s[2] == input@[pos + 2] && s[3] == input@[pos + 3]);
    }
    let afi = Afi::of_code(read_be(input, pos, 2) as u16);
    let safi = Safi::of_code(input[pos + 2]);
    let send_receive = AddPathSendReceive::of_code(input[pos + 3]);
    let v = AddPathValue { afi, safi, send_receive };
    Ok((pos + 4, v))
}

/// Parses a run of AddPathValue records covering `pos..end`.
pub fn parse_addpath_value_list(input: &[u8], pos: usize, end: usize) -> (r: Result<
    Vec<AddPathValue>,
    BgpParseError,
>)
    requires
        pos <= end <= input.len(),
    ensures
        match r {
            Ok(v) => sp_addpath_value_list(input@.subrange(pos as int, end as int)) == Ok::<
                _,
                BgpParseError,
            >(v@),
            Err(e) => sp_addpath_value_list(input@.subrange(pos as int, end as int)) == Err::<
                Seq<AddPathValue>,
                _,
            >(e),
        },
{
    let ghost whole = input@.subrange(pos as int, end as int);
    let ghost f = sp_addpath_value_fn();
    let mut acc: Vec<AddPathValue> = Vec::new();
    let mut cur: usize = pos;
    while cur < end
        invariant
            pos <= cur <= end <= input.len(),
            whole == input@.subrange(pos as int, end as int),
            f == sp_addpath_value_fn(),
            sp_list(whole, f) == match sp_list(input@.subrange(cur as int, end as int), f) {
                Ok(rest) => Ok::<Seq<AddPathValue>, BgpParseError>(acc@ + rest),
                Err(e) => Err(e),
            },
        decreases end - cur,
    {
        let ghost seg = input@.subrange(cur as int, end as int);
        match parse_addpath_value(input, cur, end) {
            Err(e) => {
                return Err(e);
            },
            Ok((n, v)) => {
                proof {
                    assert(seg.skip((n - cur) as int) =~= input@.subrange(n as int, end as int));
                    crate::list::lemma_sp_list_shift(
                        whole,
                        seg,
                        input@.subrange(n as int, end as int),
                        f,
                        acc@,
                        (n - cur) as int,
                        v,
                    );
                }
                let ghost pre = acc@;
                acc.push(v);
                proof {
                    assert(acc@ =~= pre + seq![v]);
                }
                cur = n;
            },
        }
    }
    proof {
        assert(input@.subrange(cur as int, end as int).len() == 0);
        assert(acc@ + Seq::<AddPathValue>::empty() =~= acc@);
    }
    Ok(acc)
}

/// Appends a run of AddPathValue records.
pub fn emit_addpath_value_list(out: &mut Vec<u8>, list: &Vec<AddPathValue>)
    requires
        forall|i: int|
            0 <= i < list@.len() ==> (#[trigger] list@[i]).afi.wf() && list@[i].safi.wf(),
    ensures
        final(out)@ == old(out)@ + enc_list(list@, enc_addpath_value_fn()),
{
    let mut i: usize = 0;
    proof {
        assert(list@.subrange(0, 0int) =~= Seq::<AddPathValue>::empty());
        lemma_pow256_consts();
    }
    while i < list.len()
        invariant
            i <= list.len(),
            crate::wire::pow256(2) == 0x1_0000,
            crate::wire::pow256(3) == 0x100_0000,
            forall|j: int|
                0 <= j < list@.len() ==> (#[trigger] list@[j]).afi.wf() && list@[j].safi.wf(),
            out@ == old(out)@ + enc_list(list@.subrange(0, i as int), enc_addpath_value_fn()),
        decreases list.len() - i,
    {
        let v = list[i];
        v.afi.emit(out);
        out.push(v.safi.code());
        out.push(v.send_receive.code());
        proof {
            lemma_enc_list_snoc(list@.subrange(0, i as int), list@[i as int], enc_addpath_value_fn());
            assert(list@.subrange(0, i + 1) =~= list@.subrange(0, i as int) + seq![list@[i as int]]);
            assert(out@ =~= old(out)@ + enc_list(list@.subrange(0, i + 1), enc_addpath_value_fn()));
        }
        i = i + 1;
    }
    proof {
        assert(list@.subrange(0, list@.len() as int) =~= list@);
    }
}

/// Emitting a well-formed AddPathValue record and parsing it back returns it.
pub proof fn lemma_addpath_value_round_trip(v: AddPathValue, tail: Seq<u8>)
    requires
        v.afi.wf(),
        v.safi.wf(),
        v.send_receive.wf(),

    ensures
        sp_addpath_value(enc_addpath_value_fn()(v) + tail) == Ok::<_, BgpParseError>((4int, v)),
        enc_addpath_value_fn()(v).len() == 4,
{
    let s = enc_addpath_value_fn()(v) + tail;
    lemma_pow256_consts();
    lemma_be_enc_len(v.afi.code_spec() as nat, 2);
    lemma_be_val_enc(v.afi.code_spec() as nat, 2);
    assert(s.subrange(0, 2) =~= be_enc(v.afi.code_spec() as nat, 2));
    assert(s[2] == v.safi.code_spec() && s[3] == v.send_receive.code_spec());
    assert(Afi::of_code_spec(v.afi.code_spec()) == v.afi);
    assert(Safi::of_code_spec(v.safi.code_spec()) == v.safi);
    assert(AddPathSendReceive::of_code_spec(v.send_receive.code_spec()) == v.send_receive);
}

/// A list of well-formed AddPathValue records parses back from its encoding.
pub proof fn lemma_addpath_value_list_round_trip(vs: Seq<AddPathValue>)
    requires
        forall|i: int|
            0 <= i < vs.len() ==> (#[trigger] vs[i]).afi.wf() && vs[i].safi.wf()
                && vs[i].send_receive.wf(),
    ensures
        sp_addpath_value_list(enc_list(vs, enc_addpath_value_fn())) == Ok::<_, BgpParseError>(vs),
{
    assert forall|i: int, tail: Seq<u8>| 0 <= i < vs.len() implies #[trigger] sp_addpath_value_fn()(
        enc_addpath_value_fn()(vs[i]) + tail,
    ) == Ok::<_, BgpParseError>((enc_addpath_value_fn()(vs[i]).len() as int, vs[i])) by {
        lemma_addpath_value_round_trip(vs[i], tail);
    }
    assert forall|i: int| 0 <= i < vs.len() implies #[trigger] enc_addpath_value_fn()(vs[i]).len() > 0 by {
        lemma_addpath_value_round_trip(vs[i], Seq::empty());
    }
    lemma_list_round_trip(vs, sp_addpath_value_fn(), enc_addpath_value_fn());
}

/// What one LLGRValue record parses to.
pub open spec fn sp_llgr_value(s: Seq<u8>) -> Result<(int, LLGRValue), BgpParseError> {
    if s.len() < 7 {
        Err(BgpParseError::Truncated { needed: 7 })
    } else {
        Ok(
            (
                7,
                LLGRValue {
                    afi: Afi::of_code_spec(be_val(s.subrange(0, 2)) as u16),
                    safi: Safi::of_code_spec(s[2]),
                    flags: s[3],
                    stale_time: be_val(s.subrange(4, 7)) as u32,
                },
            ),
        )
    }
}

pub open spec fn sp_llgr_value_fn() -> spec_fn(Seq<u8>) -> Result<(int, LLGRValue), BgpParseError> {
    |t: Seq<u8>| sp_llgr_value(t)
}

/// What a run of LLGRValue records parses to.
pub open spec fn sp_llgr_value_list(s: Seq<u8>) -> Result<Seq<LLGRValue>, BgpParseError> {
    sp_list(s, sp_llgr_value_fn())
}

/// Reads one LLGRValue record.
pub fn parse_llgr_value(input: &[u8], pos: usize, end: usize) -> (r: Result<
    (usize, LLGRValue),
    BgpParseError,
>)
    requires
        pos <= end <= input.len(),
    ensures
        match r {
            Ok((n, v)) => pos < n <= end && sp_llgr_value(input@.subrange(pos as int, end as int))
                == Ok::<_, BgpParseError>(((n - pos) as int, v)),
            Err(e) => sp_llgr_value(input@.subrange(pos as int, end as int)) == Err::<
                (int, LLGRValue),
                _,
            >(e),
        },
{
    let ghost s = input@.subrange(pos as int, end as int);
    if end - pos < 7 {
        return Err(BgpParseError::Truncated { needed: 7 });
    }
    proof {
        assert(s.subrange(0, 2) =~= input@.subrange(pos as int, pos + 2));
        lemma_be_val_bound(input@.subrange(pos as int, pos + 2));
        lemma_pow256_consts();
        assert(s[2] == input@[pos + 2] && s[3] == input@[pos + 3]);
        assert(s.subrange(4, 7) =~= input@.subrange(pos + 4, pos + 7));
        lemma_be_val_bound(input@.subrange(pos + 4, pos + 7));
    }
    let afi = Afi::of_code(read_be(input, pos, 2) as u16);
    let safi = Safi::of_code(input[pos + 2]);
    let flags = input[pos + 3];
    let stale_time = read_be(input, pos + 4, 3) as u32;
    let v = LLGRValue { afi, safi, flags, stale_time };
    Ok((pos + 7, v))
}

/// Parses a run of LLGRValue records covering `pos..end`.
pub fn parse_llgr_value_list(input: &[u8], pos: usize, end: usize) -> (r: Result<
    Vec<LLGRValue>,
    BgpParseError,
>)
    requires
        pos <= end <= input.len(),
    ensures
        match r {
            Ok(v) => sp_llgr_value_list(input@.subrange(pos as int, end as int)) == Ok::<
                _,
                BgpParseError,
            >(v@),
            Err(e) => sp_llgr_value_list(input@.subrange(pos as int, end as int)) == Err::<
                Seq<LLGRValue>,
                _,
            >(e),
        },
{
    let ghost whole = input@.subrange(pos as int, end as int);
    let ghost f = sp_llgr_value_fn();
    let mut acc: Vec<LLGRValue> = Vec::new();
    let mut cur: usize = pos;
    while cur < end
        invariant
            pos <= cur <= end <= input.len(),
            whole == input@.subrange(pos as int, end as int),
            f == sp_llgr_value_fn(),
            sp_list(whole, f) == match sp_list(input@.subrange(cur as int, end as int), f) {
                Ok(rest) => Ok::<Seq<LLGRValue>, BgpParseError>(acc@ + rest),
                Err(e) => Err(e),
            },
        decreases end - cur,
    {
        let ghost seg = input@.subrange(cur as int, end as int);
        match parse_llgr_value(input, cur, end) {
            Err(e) => {
                return Err(e);
            },
            Ok((n, v)) => {
                proof {
                    assert(seg.skip((n - cur) as int) =~= input@.subrange(n as int, end as int));
                    crate::list::lemma_sp_list_shift(
                        whole,
                        seg,
                        input@.subrange(n as int, end as int),
                        f,
                        acc@,
                        (n - cur) as int,
                        v,
                    );
                }
                let ghost pre = acc@;
                acc.push(v);
                proof {
                    assert(acc@ =~= pre + seq![v]);
                }
                cur = n;
            },
        }
    }
    proof {
        assert(input@.subrange(cur as int, end as int).len() == 0);
        assert(acc@ + Seq::<LLGRValue>::empty() =~= acc@);
    }
    Ok(acc)
}

/// Appends a run of LLGRValue records.
pub fn emit_llgr_value_list(out: &mut Vec<u8>, list: &Vec<LLGRValue>)
    requires
        forall|i: int|
            0 <= i < list@.len() ==> (#[trigger] list@[i]).afi.wf() && list@[i].safi.wf() && list@[i].stale_time < 0x100_0000,
    ensures
        final(out)@ == old(out)@ + enc_list(list@, enc_llgr_value_fn()),
{
    let mut i: usize = 0;
    proof {
        assert(list@.subrange(0, 0int) =~= Seq::<LLGRValue>::empty());
        lemma_pow256_consts();
    }
    while i < list.len()
        invariant
            i <= list.len(),
            crate::wire::pow256(2) == 0x1_0000,
            crate::wire::pow256(3) == 0x100_0000,
            forall|j: int|
                0 <= j < list@.len() ==> (#[trigger] list@[j]).afi.wf() && list@[j].safi.wf() && list@[j].stale_time < 0x100_0000,
            out@ == old(out)@ + enc_list(list@.subrange(0, i as int), enc_llgr_value_fn()),
        decreases list.len() - i,
    {
        let v = list[i];
        v.afi.emit(out);
        out.push(v.safi.code());
        out.push(v.flags);
        write_be(out, v.stale_time as u128, 3);
        proof {
            lemma_enc_list_snoc(list@.subrange(0, i as int), list@[i as int], enc_llgr_value_fn());
            assert(list@.subrange(0, i + 1) =~= list@.subrange(0, i as int) + seq![list@[i as int]]);
            assert(out@ =~= old(out)@ + enc_list(list@.subrange(0, i + 1), enc_llgr_value_fn()));
        }
        i = i + 1;
    }
    proof {
        assert(list@.subrange(0, list@.len() as int) =~= list@);
    }
}

/// Emitting a well-formed LLGRValue record and parsing it back returns it.
pub proof fn lemma_llgr_value_round_trip(v: LLGRValue, tail: Seq<u8>)
    requires
        v.afi.wf(),
        v.safi.wf(),
        v.stale_time < 0x100_0000,
    ensures
        sp_llgr_value(enc_llgr_value_fn()(v) + tail) == Ok::<_, BgpParseError>((7int, v)),
        enc_llgr_value_fn()(v).len() == 7,
{
    let s = enc_llgr_value_fn()(v) + tail;
    lemma_pow256_consts();
    lemma_be_enc_len(v.afi.code_spec() as nat, 2);
    lemma_be_val_enc(v.afi.code_spec() as nat, 2);
    assert(s.subrange(0, 2) =~= be_enc(v.afi.code_spec() as nat, 2));
    assert(s[2] == v.safi.code_spec() && s[3] == v.flags);
    lemma_be_enc_len(v.stale_time as nat, 3);
    lemma_be_val_enc(v.stale_time as nat, 3);
    assert(s.subrange(4, 7) =~= be_enc(v.stale_time as nat, 3));
    assert(Afi::of_code_spec(v.afi.code_spec()) == v.afi);
    assert(Safi::of_code_spec(v.safi.code_spec()) == v.safi);
}

/// A list of well-formed LLGRValue records parses back from its encoding.
pub proof fn lemma_llgr_value_list_round_trip(vs: Seq<LLGRValue>)
    requires
        forall|i: int|
            0 <= i < vs.len() ==> (#[trigger] vs[i]).afi.wf() && vs[i].safi.wf() && vs[i].stale_time < 0x100_0000,
    ensures
        sp_llgr_value_list(enc_list(vs, enc_llgr_value_fn())) == Ok::<_, BgpParseError>(vs),
{
    assert forall|i: int, tail: Seq<u8>| 0 <= i < vs.len() implies #[trigger] sp_llgr_value_fn()(
        enc_llgr_value_fn()(vs[i]) + tail,
    ) == Ok::<_, BgpParseError>((enc_llgr_value_fn()(vs[i]).len() as int, vs[i])) by {
        lemma_llgr_value_round_trip(vs[i], tail);
    }
    assert forall|i: int| 0 <= i < vs.len() implies #[trigger] enc_llgr_value_fn()(vs[i]).len() > 0 by {
        lemma_llgr_value_round_trip(vs[i], Seq::empty());
    }
    lemma_list_round_trip(vs, sp_llgr_value_fn(), enc_llgr_value_fn());
}

/// What one PathLimitValue record parses to.
pub open spec fn sp_pathlimit_value(s: Seq<u8>) -> Result<(int, PathLimitValue), BgpParseError> {
    if s.len() < 5 {
        Err(BgpParseError::Truncated { needed: 5 })
    } else {
        Ok(
            (
                5,
                PathLimitValue {
                    afi: Afi::of_code_spec(be_val(s.subrange(0, 2)) as u16),
                    safi: Safi::of_code_spec(s[2]),
                    path_limit: be_val(s.subrange(3, 5)) as u16,
                },
            ),
        )
    }
}

pub open spec fn sp_pathlimit_value_fn() -> spec_fn(Seq<u8>) -> Result<(int, PathLimitValue), BgpParseError> {
    |t: Seq<u8>| sp_pathlimit_value(t)
}

/// What a run of PathLimitValue records parses to.
pub open spec fn sp_pathlimit_value_list(s: Seq<u8>) -> Result<Seq<PathLimitValue>, BgpParseError> {
    sp_list(s, sp_pathlimit_value_fn())
}

/// Reads one PathLimitValue record.
pub fn parse_pathlimit_value(input: &[u8], pos: usize, end: usize) -> (r: Result<
    (usize, PathLimitValue),
    BgpParseError,
>)
    requires
        pos <= end <= input.len(),
    ensures
        match r {
            Ok((n, v)) => pos < n <= end && sp_pathlimit_value(input@.subrange(pos as int, end as int))
                == Ok::<_, BgpParseError>(((n - pos) as int, v)),
            Err(e) => sp_pathlimit_value(input@.subrange(pos as int, end as int)) == Err::<
                (int, PathLimitValue),
                _,
            >(e),
        },
{
    let ghost s = input@.subrange(pos as int, end as int);
    if end - pos < 5 {
        return Err(BgpParseError::Truncated { needed: 5 });
    }
    proof {
        assert(s.subrange(0, 2) =~= input@.subrange(pos as int, pos + 2));
        lemma_be_val_bound(input@.subrange(pos as int, pos + 2));
        lemma_pow256_consts();
        assert(s[2] == input@[pos + 2]);
        assert(s.subrange(3, 5) =~= input@.subrange(pos + 3, pos + 5));
        lemma_be_val_bound(input@.subrange(pos + 3, pos + 5));
    }
    let afi = Afi::of_code(read_be(input, pos, 2) as u16);
    let safi = Safi::of_code(input[pos + 2]);
    let path_limit = read_be(input, pos + 3, 2) as u16;
    let v = PathLimitValue { afi, safi, path_limit };
    Ok((pos + 5, v))
}

/// Parses a run of PathLimitValue records covering `pos..end`.
pub fn parse_pathlimit_value_list(input: &[u8], pos: usize, end: usize) -> (r: Result<
    Vec<PathLimitValue>,
    BgpParseError,
>)
    requires
        pos <= end <= input.len(),
    ensures
        match r {
            Ok(v) => sp_pathlimit_value_list(input@.subrange(pos as int, end as int)) == Ok::<
                _,
                BgpParseError,
            >(v@),
            Err(e) => sp_pathlimit_value_list(input@.subrange(pos as int, end as int)) == Err::<
                Seq<PathLimitValue>,
                _,
            >(e),
        },
{
    let ghost whole = input@.subrange(pos as int, end as int);
    let ghost f = sp_pathlimit_value_fn();
    let mut acc: Vec<PathLimitValue> = Vec::new();
    let mut cur: usize = pos;
    while cur < end
        invariant
            pos <= cur <= end <= input.len(),
            whole == input@.subrange(pos as int, end as int),
            f == sp_pathlimit_value_fn(),
            sp_list(whole, f) == match sp_list(input@.subrange(cur as int, end as int), f) {
                Ok(rest) => Ok::<Seq<PathLimitValue>, BgpParseError>(acc@ + rest),
                Err(e) => Err(e),
            },
        decreases end - cur,
    {
        let ghost seg = input@.subrange(cur as int, end as int);
        match parse_pathlimit_value(input, cur, end) {
            Err(e) => {
                return Err(e);
            },
            Ok((n, v)) => {
                proof {
                    assert(seg.skip((n - cur) as int) =~= input@.subrange(n as int, end as int));
                    crate::list::lemma_sp_list_shift(
                        whole,
                        seg,
                        input@.subrange(n as int, end as int),
                        f,
                        acc@,
                        (n - cur) as int,
                        v,
                    );
                }
                let ghost pre = acc@;
                acc.push(v);
                proof {
                    assert(acc@ =~= pre + seq![v]);
                }
                cur = n;
            },
        }
    }
    proof {
        assert(input@.subrange(cur as int, end as int).len() == 0);
        assert(acc@ + Seq::<PathLimitValue>::empty() =~= acc@);
    }
    Ok(acc)
}

/// Appends a run of PathLimitValue records.
pub fn emit_pathlimit_value_list(out: &mut Vec<u8>, list: &Vec<PathLimitValue>)
    requires
        forall|i: int|
            0 <= i < list@.len() ==> (#[trigger] list@[i]).afi.wf() && list@[i].safi.wf(),
    ensures
        final(out)@ == old(out)@ + enc_list(list@, enc_pathlimit_value_fn()),
{
    let mut i: usize = 0;
    proof {
        assert(list@.subrange(0, 0int) =~= Seq::<PathLimitValue>::empty());
        lemma_pow256_consts();
    }
    while i < list.len()
        invariant
            i <= list.len(),
            crate::wire::pow256(2) == 0x1_0000,
            crate::wire::pow256(3) == 0x100_0000,
            forall|j: int|
                0 <= j < list@.len() ==> (#[trigger] list@[j]).afi.wf() && list@[j].safi.wf(),
            out@ == old(out)@ + enc_list(list@.subrange(0, i as int), enc_pathlimit_value_fn()),
        decreases list.len() - i,
    {
        let v = list[i];
        v.afi.emit(out);
        out.push(v.safi.code());
        write_be(out, v.path_limit as u128, 2);
        proof {
            lemma_enc_list_snoc(list@.subrange(0, i as int), list@[i as int], enc_pathlimit_value_fn());
            assert(list@.subrange(0, i + 1) =~= list@.subrange(0, i as int) + seq![list@[i as int]]);
            assert(out@ =~= old(out)@ + enc_list(list@.subrange(0, i + 1), enc_pathlimit_value_fn()));
        }
        i = i + 1;
    }
    proof {
        assert(list@.subrange(0, list@.len() as int) =~= list@);
    }
}

/// Emitting a well-formed PathLimitValue record and parsing it back returns it.
pub proof fn lemma_pathlimit_value_round_trip(v: PathLimitValue, tail: Seq<u8>)
    requires
        v.afi.wf(),
        v.safi.wf(),

    ensures
        sp_pathlimit_value(enc_pathlimit_value_fn()(v) + tail) == Ok::<_, BgpParseError>((5int, v)),
        enc_pathlimit_value_fn()(v).len() == 5,
{
    let s = enc_pathlimit_value_fn()(v) + tail;
    lemma_pow256_consts();
    lemma_be_enc_len(v.afi.code_spec() as nat, 2);
    lemma_be_val_enc(v.afi.code_spec() as nat, 2);
    assert(s.subrange(0, 2) =~= be_enc(v.afi.code_spec() as nat, 2));
    assert(s[2] == v.safi.code_spec());
    lemma_be_enc_len(v.path_limit as nat, 2);
    lemma_be_val_enc(v.path_limit as nat, 2);
    assert(s.subrange(3, 5) =~= be_enc(v.path_limit as nat, 2));
    assert(Afi::of_code_spec(v.afi.code_spec()) == v.afi);
    assert(Safi::of_code_spec(v.safi.code_spec()) == v.safi);
}

/// A list of well-formed PathLimitValue records parses back from its encoding.
pub proof fn lemma_pathlimit_value_list_round_trip(vs: Seq<PathLimitValue>)
    requires
        forall|i: int|
            0 <= i < vs.len() ==> (#[trigger] vs[i]).afi.wf() && vs[i].safi.wf(),
    ensures
        sp_pathlimit_value_list(enc_list(vs, enc_pathlimit_value_fn())) == Ok::<_, BgpParseError>(vs),
{
    assert forall|i: int, tail: Seq<u8>| 0 <= i < vs.len() implies #[trigger] sp_pathlimit_value_fn()(
        enc_pathlimit_value_fn()(vs[i]) + tail,
    ) == Ok::<_, BgpParseError>((enc_pathlimit_value_fn()(vs[i]).len() as int, vs[i])) by {
        lemma_pathlimit_value_round_trip(vs[i], tail);
    }
    assert forall|i: int| 0 <= i < vs.len() implies #[trigger] enc_pathlimit_value_fn()(vs[i]).len() > 0 by {
        lemma_pathlimit_value_round_trip(vs[i], Seq::empty());
    }
    lemma_list_round_trip(vs, sp_pathlimit_value_fn(), enc_pathlimit_value_fn());
}

/// What one GrTuple record parses to.
pub open spec fn sp_gr_tuple(s: Seq<u8>) -> Result<(int, GrTuple), BgpParseError> {
    if s.len() < 4 {
        Err(BgpParseError::Truncated { needed: 4 })
    } else {
        Ok(
            (
                4,
                GrTuple {
                    afi: Afi::of_code_spec(be_val(s.subrange(0, 2)) as u16),
                    safi: Safi::of_code_spec(s[2]),
                    flags: s[3],
                },
            ),
        )
    }
}

pub open spec fn sp_gr_tuple_fn() -> spec_fn(Seq<u8>) -> Result<(int, GrTuple), BgpParseError> {
    |t: Seq<u8>| sp_gr_tuple(t)
}

/// What a run of GrTuple records parses to.
pub open spec fn sp_gr_tuple_list(s: Seq<u8>) -> Result<Seq<GrTuple>, BgpParseError> {
    sp_list(s, sp_gr_tuple_fn())
}

/// Reads one GrTuple record.
pub fn parse_gr_tuple(input: &[u8], pos: usize, end: usize) -> (r: Result<
    (usize, GrTuple),
    BgpParseError,
>)
    requires
        pos <= end <= input.len(),
    ensures
        match r {
            Ok((n, v)) => pos < n <= end && sp_gr_tuple(input@.subrange(pos as int, end as int))
                == Ok::<_, BgpParseError>(((n - pos) as int, v)),
            Err(e) => sp_gr_tuple(input@.subrange(pos as int, end as int)) == Err::<
                (int, GrTuple),
                _,
            >(e),
        },
{
    let ghost s = input@.subrange(pos as int, end as int);
    if end - pos < 4 {
        return Err(BgpParseError::Truncated { needed: 4 });
    }
    proof {
        assert(s.subrange(0, 2) =~= input@.subrange(pos as int, pos + 2));
        lemma_be_val_bound(input@.subrange(pos as int, pos + 2));
        lemma_pow256_consts();
        assert(s[2] == input@[pos + 2] && s[3] == input@[pos + 3]);
    }
    let afi = Afi::of_code(read_be(input, pos, 2) as u16);
    let safi = Safi::of_code(input[pos + 2]);
    let flags = input[pos + 3];
    let v = GrTuple { afi, safi, flags };
    Ok((pos + 4, v))
}

/// Parses a run of GrTuple records covering `pos..end`.
pub fn parse_gr_tuple_list(input: &[u8], pos: usize, end: usize) -> (r: Result<
    Vec<GrTuple>,
    BgpParseError,
>)
    requires
        pos <= end <= input.len(),
    ensures
        match r {
            Ok(v) => sp_gr_tuple_list(input@.subrange(pos as int, end as int)) == Ok::<
                _,
                BgpParseError,
            >(v@),
            Err(e) => sp_gr_tuple_list(input@.subrange(pos as int, end as int)) == Err::<
                Seq<GrTuple>,
                _,
            >(e),
        },
{
    let ghost whole = input@.subrange(pos as int, end as int);
    let ghost f = sp_gr_tuple_fn();
    let mut acc: Vec<GrTuple> = Vec::new();
    let mut cur: usize = pos;
    while cur < end
        invariant
            pos <= cur <= end <= input.len(),
            whole == input@.subrange(pos as int, end as int),
            f == sp_gr_tuple_fn(),
            sp_list(whole, f) == match sp_list(input@.subrange(cur as int, end as int), f) {
                Ok(rest) => Ok::<Seq<GrTuple>, BgpParseError>(acc@ + rest),
                Err(e) => Err(e),
            },
        decreases end - cur,
    {
        let ghost seg = input@.subrange(cur as int, end as int);
        match parse_gr_tuple(input, cur, end) {
            Err(e) => {
                return Err(e);
            },
            Ok((n, v)) => {
                proof {
                    assert(seg.skip((n - cur) as int) =~= input@.subrange(n as int, end as int));
                    crate::list::lemma_sp_list_shift(
                        whole,
                        seg,
                        input@.subrange(n as int, end as int),
                        f,
                        acc@,
                        (n - cur) as int,
                        v,
                    );
                }
                let ghost pre = acc@;
                acc.push(v);
                proof {
                    assert(acc@ =~= pre + seq![v]);
                }
                cur = n;
            },
        }
    }
    proof {
        assert(input@.subrange(cur as int, end as int).len() == 0);
        assert(acc@ + Seq::<GrTuple>::empty() =~= acc@);
    }
    Ok(acc)
}

/// Appends a run of GrTuple records.
pub fn emit_gr_tuple_list(out: &mut Vec<u8>, list: &Vec<GrTuple>)
    requires
        forall|i: int|
            0 <= i < list@.len() ==> (#[trigger] list@[i]).afi.wf() && list@[i].safi.wf(),
    ensures
        final(out)@ == old(out)@ + enc_list(list@, enc_gr_tuple_fn()),
{
    let mut i: usize = 0;
    proof {
        assert(list@.subrange(0, 0int) =~= Seq::<GrTuple>::empty());
        lemma_pow256_consts();
    }
    while i < list.len()
        invariant
            i <= list.len(),
            crate::wire::pow256(2) == 0x1_0000,
            crate::wire::pow256(3) == 0x100_0000,
            forall|j: int|
                0 <= j < list@.len() ==> (#[trigger] list@[j]).afi.wf() && list@[j].safi.wf(),
            out@ == old(out)@ + enc_list(list@.subrange(0, i as int), enc_gr_tuple_fn()),
        decreases list.len() - i,
    {
        let v = list[i];
        v.afi.emit(out);
        out.push(v.safi.code());
        out.push(v.flags);
        proof {
            lemma_enc_list_snoc(list@.subrange(0, i as int), list@[i as int], enc_gr_tuple_fn());
            assert(list@.subrange(0, i + 1) =~= list@.subrange(0, i as int) + seq![list@[i as int]]);
            assert(out@ =~= old(out)@ + enc_list(list@.subrange(0, i + 1), enc_gr_tuple_fn()));
        }
        i = i + 1;
    }
    proof {
        assert(list@.subrange(0, list@.len() as int) =~= list@);
    }
}

/// Emitting a well-formed GrTuple record and parsing it back returns it.
pub proof fn lemma_gr_tuple_round_trip(v: GrTuple, tail: Seq<u8>)
    requires
        v.afi.wf(),
        v.safi.wf(),

    ensures
        sp_gr_tuple(enc_gr_tuple_fn()(v) + tail) == Ok::<_, BgpParseError>((4int, v)),
        enc_gr_tuple_fn()(v).len() == 4,
{
    let s = enc_gr_tuple_fn()(v) + tail;
    lemma_pow256_consts();
    lemma_be_enc_len(v.afi.code_spec() as nat, 2);
    lemma_be_val_enc(v.afi.code_spec() as nat, 2);
    assert(s.subrange(0, 2) =~= be_enc(v.afi.code_spec() as nat, 2));
    assert(s[2] == v.safi.code_spec() && s[3] == v.flags);
    assert(Afi::of_code_spec(v.afi.code_spec()) == v.afi);
    assert(Safi::of_code_spec(v.safi.code_spec()) == v.safi);
}

/// A list of well-formed GrTuple records parses back from its encoding.
pub proof fn lemma_gr_tuple_list_round_trip(vs: Seq<GrTuple>)
    requires
        forall|i: int|
            0 <= i < vs.len() ==> (#[trigger] vs[i]).afi.wf() && vs[i].safi.wf(),
    ensures
        sp_gr_tuple_list(enc_list(vs, enc_gr_tuple_fn())) == Ok::<_, BgpParseError>(vs),
{
    assert forall|i: int, tail: Seq<u8>| 0 <= i < vs.len() implies #[trigger] sp_gr_tuple_fn()(
        enc_gr_tuple_fn()(vs[i]) + tail,
    ) == Ok::<_, BgpParseError>((enc_gr_tuple_fn()(vs[i]).len() as int, vs[i])) by {
        lemma_gr_tuple_round_trip(vs[i], tail);
    }
    assert forall|i: int| 0 <= i < vs.len() implies #[trigger] enc_gr_tuple_fn()(vs[i]).len() > 0 by {
        lemma_gr_tuple_round_trip(vs[i], Seq::empty());
    }
    lemma_list_round_trip(vs, sp_gr_tuple_fn(), enc_gr_tuple_fn());
}


/// What one capability value parses to, for a given code.
pub open spec fn sp_cap_payload(code: u8, p: Seq<u8>) -> Result<CapV, BgpParseError> {
    if code == 1 {
        if p.len() != 4 {
            Err(BgpParseError::BadLength)
        } else {
            Ok(
                CapV::MultiProtocol(
                    CapMultiProtocol {
                        afi: Afi::of_code_spec(be_val(p.subrange(0, 2)) as u16),
                        res: p[2],
                        safi: Safi::of_code_spec(p[3]),
                    },
                ),
            )
        }
    } else if code == 2 {
        if p.len() != 0 {
            Err(BgpParseError::BadLength)
        } else {
            Ok(CapV::RouteRefresh)
        }
    } else if code == 6 {
        if p.len() != 0 {
            Err(BgpParseError::BadLength)
        } else {
            Ok(CapV::ExtendedMessage)
        }
    } else if code == 64 {
        if p.len() == 2 {
            Ok(
                CapV::GracefulRestart {
                    restart_time: be_val(p.subrange(0, 2)) as u32,
                    tuples: Seq::empty(),
                },
            )
        } else if p.len() == 4 {
            Ok(
                CapV::GracefulRestart {
                    restart_time: be_val(p.subrange(0, 4)) as u32,
                    tuples: Seq::empty(),
                },
            )
        } else if p.len() >= 6 && (p.len() - 2) % 4 == 0 {
            match sp_gr_tuple_list(p.skip(2)) {
                Err(e) => Err(e),
                Ok(tuples) => Ok(
                    CapV::GracefulRestart {
                        restart_time: be_val(p.subrange(0, 2)) as u32,
                        tuples,
                    },
                ),
            }
        } else {
            Err(BgpParseError::BadLength)
        }
    } else if code == 65 {
        if p.len() != 4 {
            Err(BgpParseError::BadLength)
        } else {
            Ok(CapV::As4(CapabilityAs4 { asn: be_val(p.subrange(0, 4)) as u32 }))
        }
    } else if code == 67 {
        if p.len() != 0 {
            Err(BgpParseError::BadLength)
        } else {
            Ok(CapV::DynamicCapability)
        }
    } else if code == 69 {
        if p.len() % 4 != 0 {
            Err(BgpParseError::BadLength)
        } else {
            match sp_addpath_value_list(p) {
                Err(e) => Err(e),
                Ok(vs) => Ok(CapV::AddPath(vs)),
            }
        }
    } else if code == 70 {
        if p.len() != 0 {
            Err(BgpParseError::BadLength)
        } else {
            Ok(CapV::EnhancedRouteRefresh)
        }
    } else if code == 71 {
        if p.len() % 7 != 0 {
            Err(BgpParseError::BadLength)
        } else {
            match sp_llgr_value_list(p) {
                Err(e) => Err(e),
                Ok(vs) => Ok(CapV::Llgr(vs)),
            }
        }
    } else if code == 73 {
        if p.len() < 2 {
            Err(BgpParseError::BadLength)
        } else {
            let hl = p[0] as int;
            if p.len() < 2 + hl {
                Err(BgpParseError::BadLength)
            } else {
                let dl = p[1 + hl] as int;
                if p.len() != 2 + hl + dl {
                    Err(BgpParseError::BadLength)
                } else {
                    Ok(
                        CapV::Fqdn {
                            host: p.subrange(1, 1 + hl),
                            domain: p.subrange(2 + hl, 2 + hl + dl),
                        },
                    )
                }
            }
        }
    } else if code == 75 {
        Ok(CapV::SoftwareVersion(p))
    } else if code == 76 {
        if p.len() % 5 != 0 {
            Err(BgpParseError::BadLength)
        } else {
            match sp_pathlimit_value_list(p) {
                Err(e) => Err(e),
                Ok(vs) => Ok(CapV::PathLimit(vs)),
            }
        }
    } else if code == 128 {
        if p.len() != 0 {
            Err(BgpParseError::BadLength)
        } else {
            Ok(CapV::RouteRefreshCisco)
        }
    } else {
        Ok(CapV::Unknown { code, data: p })
    }
}

/// What one capability TLV parses to.
pub open spec fn sp_capability(s: Seq<u8>) -> Result<(int, CapV), BgpParseError> {
    if s.len() < 2 {
        Err(BgpParseError::Truncated { needed: 2 })
    } else {
        let code = s[0];
        let clen = s[1] as int;
        if s.len() < 2 + clen {
            Err(BgpParseError::Truncated { needed: (2 + clen) as usize })
        } else {
            match sp_cap_payload(code, s.subrange(2, 2 + clen)) {
                Err(e) => Err(e),
                Ok(v) => Ok((2 + clen, v)),
            }
        }
    }
}

pub open spec fn sp_capability_fn() -> spec_fn(Seq<u8>) -> Result<(int, CapV), BgpParseError> {
    |t: Seq<u8>| sp_capability(t)
}

pub open spec fn enc_capability_fn() -> spec_fn(CapV) -> Seq<u8> {
    |v: CapV| v.enc()
}

/// What a run of capability TLVs parses to.
pub open spec fn sp_capability_list(s: Seq<u8>) -> Result<Seq<CapV>, BgpParseError> {
    sp_list(s, sp_capability_fn())
}

/// The shapes of a vector of capabilities.
pub open spec fn cap_views(s: Seq<CapabilityPacket>) -> Seq<CapV> {
    s.map_values(|c: CapabilityPacket| c@)
}

impl CapabilityPacket {
    /// Reads one capability TLV.
    #[verifier::rlimit(90)]
    pub fn parse_cap(input: &[u8], pos: usize, end: usize) -> (r: Result<
        (usize, CapabilityPacket),
        BgpParseError,
    >)
        requires
            pos <= end <= input.len(),
        ensures
            match r {
                Ok((n, v)) => pos < n <= end && sp_capability(
                    input@.subrange(pos as int, end as int),
                ) == Ok::<_, BgpParseError>(((n - pos) as int, v@)),
                Err(e) => sp_capability(input@.subrange(pos as int, end as int)) == Err::<
                    (int, CapV),
                    _,
                >(e),
            },
    {
        let ghost s = input@.subrange(pos as int, end as int);
        if end - pos < 2 {
            return Err(BgpParseError::Truncated { needed: 2 });
        }
        let code = input[pos];
        let clen = input[pos + 1] as usize;
        proof {
            assert(s[0] == input@[pos as int] && s[1] == input@[pos + 1]);
        }
        if end - pos - 2 < clen {
            return Err(BgpParseError::Truncated { needed: 2 + clen });
        }
        proof {
            assert(s.subrange(2, 2 + clen) =~= input@.subrange(pos + 2, pos + 2 + clen));
        }
        match parse_cap_payload(input, pos + 2, pos + 2 + clen, code) {
            Err(e) => Err(e),
            Ok(v) => Ok((pos + 2 + clen, v)),
        }
    }

    /// Appends the whole TLV: code, length, value.
    #[verifier::rlimit(90)]
    pub fn encode(&self, out: &mut Vec<u8>)
        requires
            self@.wf(),
        ensures
            final(out)@ == old(out)@ + self@.enc(),
    {
        proof {
            lemma_pow256_consts();
        }
        let mut p: Vec<u8> = Vec::new();
        let code: u8;
        match self {
            CapabilityPacket::MultiProtocol(v) => {
                v.afi.emit(&mut p);
                p.push(v.res);
                p.push(v.safi.code());
                code = 1;
            },
            CapabilityPacket::RouteRefresh(_) => {
                code = 2;
            },
            CapabilityPacket::ExtendedMessage(_) => {
                code = 6;
            },
            CapabilityPacket::GracefulRestart(v) => {
                proof {
                    assert(self@ == (CapV::GracefulRestart {
                        restart_time: v.restart_time,
                        tuples: v.tuples@,
                    }));
                    assert forall|i: int| 0 <= i < v.tuples@.len() implies (
                    #[trigger] v.tuples@[i]).afi.wf() && v.tuples@[i].safi.wf() by {
                        assert(self@.wf());
                        assert(self@->GracefulRestart_tuples == v.tuples@);
                        assert(self@->GracefulRestart_tuples[i].afi.wf()
                            && self@->GracefulRestart_tuples[i].safi.wf());
                    }
                }
                if v.tuples.len() == 0 {
                    write_be(&mut p, v.restart_time as u128, 4);
                } else {
                    write_be(&mut p, v.restart_time as u128, 2);
                    emit_gr_tuple_list(&mut p, &v.tuples);
                }
                code = 64;
            },
            CapabilityPacket::As4(v) => {
                write_be(&mut p, v.asn as u128, 4);
                code = 65;
            },
            CapabilityPacket::DynamicCapability(_) => {
                code = 67;
            },
            CapabilityPacket::AddPath(v) => {
                proof {
                    assert(self@ == CapV::AddPath(v.values@));
                    assert forall|i: int| 0 <= i < v.values@.len() implies (
                    #[trigger] v.values@[i]).afi.wf() && v.values@[i].safi.wf() by {
                        assert(self@.wf());
                        assert(self@->AddPath_0 == v.values@);
                        assert(self@->AddPath_0[i].afi.wf() && self@->AddPath_0[i].safi.wf());
                    }
                }
                emit_addpath_value_list(&mut p, &v.values);
                code = 69;
            },
            CapabilityPacket::EnhancedRouteRefresh(_) => {
                code = 70;
            },
            CapabilityPacket::Llgr(v) => {
                proof {
                    assert(self@ == CapV::Llgr(v.values@));
                    assert forall|i: int| 0 <= i < v.values@.len() implies (
                    #[trigger] v.values@[i]).afi.wf() && v.values@[i].safi.wf()
                        && v.values@[i].stale_time < 0x100_0000 by {
                        assert(self@.wf());
                        assert(self@->Llgr_0 == v.values@);
                        assert(self@->Llgr_0[i].afi.wf() && self@->Llgr_0[i].safi.wf()
                            && self@->Llgr_0[i].stale_time < 0x100_0000);
                    }
                }
                emit_llgr_value_list(&mut p, &v.values);
                code = 71;
            },
            CapabilityPacket::Fqdn(v) => {
                p.push(v.host.len() as u8);
                write_bytes(&mut p, v.host.as_slice());
                p.push(v.domain.len() as u8);
                write_bytes(&mut p, v.domain.as_slice());
                code = 73;
            },
            CapabilityPacket::SoftwareVersion(v) => {
                write_bytes(&mut p, v.version.as_slice());
                code = 75;
            },
            CapabilityPacket::PathLimit(v) => {
                proof {
                    assert(self@ == CapV::PathLimit(v.values@));
                    assert forall|i: int| 0 <= i < v.values@.len() implies (
                    #[trigger] v.values@[i]).afi.wf() && v.values@[i].safi.wf() by {
                        assert(self@.wf());
                        assert(self@->PathLimit_0 == v.values@);
                        assert(self@->PathLimit_0[i].afi.wf() && self@->PathLimit_0[i].safi.wf());
                    }
                }
                emit_pathlimit_value_list(&mut p, &v.values);
                code = 76;
            },
            CapabilityPacket::RouteRefreshCisco(_) => {
                code = 128;
            },
            CapabilityPacket::Unknown(v) => {
                write_bytes(&mut p, v.data.as_slice());
                code = v.header.code;
            },
        }
        proof {
            assert(p@ =~= self@.payload_enc());
            assert(code == self@.code());
        }
        out.push(code);
        out.push(p.len() as u8);
        write_bytes(out, p.as_slice());
        proof {
            assert(final(out)@ =~= old(out)@ + self@.enc());
        }
    }
}

/// Reads one capability value covering `pos..end`, for a given code.
#[verifier::rlimit(90)]
fn parse_cap_payload(input: &[u8], pos: usize, end: usize, code: u8) -> (r: Result<
    CapabilityPacket,
    BgpParseError,
>)
    requires
        pos <= end <= input.len(),
    ensures
        match r {
            Ok(v) => sp_cap_payload(code, input@.subrange(pos as int, end as int)) == Ok::<
                _,
                BgpParseError,
            >(v@),
            Err(e) => sp_cap_payload(code, input@.subrange(pos as int, end as int)) == Err::<
                CapV,
                _,
            >(e),
        },
{
    let ghost p = input@.subrange(pos as int, end as int);
    let clen = end - pos;
    proof {
        lemma_pow256_consts();
    }
    if code == 1 {
        if clen != 4 {
            Err(BgpParseError::BadLength)
        } else {
            proof {
                assert(p.subrange(0, 2) =~= input@.subrange(pos as int, pos + 2));
                lemma_be_val_bound(input@.subrange(pos as int, pos + 2));
                assert(p[2] == input@[pos + 2] && p[3] == input@[pos + 3]);
            }
            let afi = Afi::of_code(read_be(input, pos, 2) as u16);
            let res = input[pos + 2];
            let safi = Safi::of_code(input[pos + 3]);
            Ok(CapabilityPacket::MultiProtocol(CapMultiProtocol { afi, res, safi }))
        }
    } else if code == 2 {
        if clen != 0 {
            Err(BgpParseError::BadLength)
        } else {
            Ok(CapabilityPacket::RouteRefresh(CapabilityRouteRefresh {  }))
        }
    } else if code == 6 {
        if clen != 0 {
            Err(BgpParseError::BadLength)
        } else {
            Ok(CapabilityPacket::ExtendedMessage(CapabilityExtendedMessage {  }))
        }
    } else if code == 64 {
        if clen == 2 {
            proof {
                assert(p.subrange(0, 2) =~= input@.subrange(pos as int, pos + 2));
                lemma_be_val_bound(input@.subrange(pos as int, pos + 2));
            }
            let restart_time = read_be(input, pos, 2) as u32;
            Ok(
                CapabilityPacket::GracefulRestart(
                    CapabilityGracefulRestart { restart_time, tuples: Vec::new() },
                ),
            )
        } else if clen == 4 {
            proof {
                assert(p.subrange(0, 4) =~= input@.subrange(pos as int, pos + 4));
                lemma_be_val_bound(input@.subrange(pos as int, pos + 4));
            }
            let restart_time = read_be(input, pos, 4) as u32;
            Ok(
                CapabilityPacket::GracefulRestart(
                    CapabilityGracefulRestart { restart_time, tuples: Vec::new() },
                ),
            )
        } else if clen >= 6 && (clen - 2) % 4 == 0 {
            proof {
                assert(p.subrange(0, 2) =~= input@.subrange(pos as int, pos + 2));
                lemma_be_val_bound(input@.subrange(pos as int, pos + 2));
                assert(p.skip(2) =~= input@.subrange(pos + 2, end as int));
            }
            let restart_time = read_be(input, pos, 2) as u32;
            match parse_gr_tuple_list(input, pos + 2, end) {
                Err(e) => Err(e),
                Ok(tuples) => Ok(
                    CapabilityPacket::GracefulRestart(
                        CapabilityGracefulRestart { restart_time, tuples },
                    ),
                ),
            }
        } else {
            Err(BgpParseError::BadLength)
        }
    } else if code == 65 {
        if clen != 4 {
            Err(BgpParseError::BadLength)
        } else {
            proof {
                assert(p.subrange(0, 4) =~= input@.subrange(pos as int, pos + 4));
                lemma_be_val_bound(input@.subrange(pos as int, pos + 4));
            }
            Ok(CapabilityPacket::As4(CapabilityAs4 { asn: read_be(input, pos, 4) as u32 }))
        }
    } else if code == 67 {
        if clen != 0 {
            Err(BgpParseError::BadLength)
        } else {
            Ok(CapabilityPacket::DynamicCapability(CapabilityDynamicCapability {  }))
        }
    } else if code == 69 {
        if clen % 4 != 0 {
            Err(BgpParseError::BadLength)
        } else {
            match parse_addpath_value_list(input, pos, end) {
                Err(e) => Err(e),
                Ok(vs) => Ok(CapabilityPacket::AddPath(CapabilityAddPath { values: vs })),
            }
        }
    } else if code == 70 {
        if clen != 0 {
            Err(BgpParseError::BadLength)
        } else {
            Ok(CapabilityPacket::EnhancedRouteRefresh(CapabilityEnhancedRouteRefresh {  }))
        }
    } else if code == 71 {
        if clen % 7 != 0 {
            Err(BgpParseError::BadLength)
        } else {
            match parse_llgr_value_list(input, pos, end) {
                Err(e) => Err(e),
                Ok(vs) => Ok(CapabilityPacket::Llgr(CapabilityLlgr { values: vs })),
            }
        }
    } else if code == 73 {
        if clen < 2 {
            Err(BgpParseError::BadLength)
        } else {
            let hl = input[pos] as usize;
            proof {
                assert(p[0] == input@[pos as int]);
            }
            if clen - 2 < hl {
                Err(BgpParseError::BadLength)
            } else {
                let dl = input[pos + 1 + hl] as usize;
                proof {
                    assert(p[1 + hl] == input@[pos + 1 + hl]);
                }
                if clen != 2 + hl + dl {
                    Err(BgpParseError::BadLength)
                } else {
                    let host = read_bytes(input, pos + 1, hl);
                    let domain = read_bytes(input, pos + 2 + hl, dl);
                    proof {
                        assert(host@ =~= p.subrange(1, 1 + hl));
                        assert(domain@ =~= p.subrange(2 + hl, 2 + hl + dl));
                    }
                    Ok(CapabilityPacket::Fqdn(CapabilityFqdn { host, domain }))
                }
            }
        }
    } else if code == 75 {
        let version = read_bytes(input, pos, clen);
        proof {
            assert(version@ =~= p);
        }
        Ok(CapabilityPacket::SoftwareVersion(CapabilitySoftwareVersion { version }))
    } else if code == 76 {
        if clen % 5 != 0 {
            Err(BgpParseError::BadLength)
        } else {
            match parse_pathlimit_value_list(input, pos, end) {
                Err(e) => Err(e),
                Ok(vs) => Ok(CapabilityPacket::PathLimit(CapabilityPathLimit { values: vs })),
            }
        }
    } else if code == 128 {
        if clen != 0 {
            Err(BgpParseError::BadLength)
        } else {
            Ok(CapabilityPacket::RouteRefreshCisco(CapabilityRouteRefreshCisco {  }))
        }
    } else {
        let data = read_bytes(input, pos, clen);
        proof {
            assert(data@ =~= p);
        }
        Ok(
            CapabilityPacket::Unknown(
                CapabilityUnknown { header: CapabilityHeader { code, length: clen as u8 }, data },
            ),
        )
    }
}


/// Emitting a well-formed capability TLV and parsing it back, whatever
/// follows it, returns the capability.
#[verifier::rlimit(90)]
pub proof fn lemma_capability_round_trip(v: CapV, tail: Seq<u8>)
    requires
        v.wf(),
    ensures
        sp_capability(v.enc() + tail) == Ok::<_, BgpParseError>((v.enc().len() as int, v)),
        v.enc().len() == 2 + v.payload_enc().len(),
{
    let p = v.payload_enc();
    let s = v.enc() + tail;
    lemma_pow256_consts();
    assert(s[0] == v.code() && s[1] == p.len() as u8);
    assert(s.subrange(2, 2 + p.len() as int) =~= p);
    match v {
        CapV::MultiProtocol(m) => {
            lemma_be_enc_len(m.afi.code_spec() as nat, 2);
            lemma_be_val_enc(m.afi.code_spec() as nat, 2);
            assert(p.subrange(0, 2) =~= be_enc(m.afi.code_spec() as nat, 2));
            assert(p[2] == m.res && p[3] == m.safi.code_spec());
            assert(Afi::of_code_spec(m.afi.code_spec()) == m.afi);
            assert(Safi::of_code_spec(m.safi.code_spec()) == m.safi);
        },
        CapV::RouteRefresh => {},
        CapV::ExtendedMessage => {},
        CapV::GracefulRestart { restart_time, tuples } => {
            if tuples.len() == 0 {
                lemma_be_enc_len(restart_time as nat, 4);
                lemma_be_val_enc(restart_time as nat, 4);
                assert(p.subrange(0, 4) =~= be_enc(restart_time as nat, 4));
                assert(tuples =~= Seq::<GrTuple>::empty());
            } else {
                lemma_be_enc_len(restart_time as nat, 2);
                lemma_be_val_enc(restart_time as nat, 2);
                assert forall|i: int| 0 <= i < tuples.len() implies (#[trigger] enc_gr_tuple_fn()(
                    tuples[i],
                )).len() == 4 by {
                    lemma_be_enc_len(tuples[i].afi.code_spec() as nat, 2);
                }
                crate::list::lemma_enc_list_fixed(tuples, enc_gr_tuple_fn(), 4);
                assert(p.len() == 2 + 4 * tuples.len());
                assert(p.len() >= 6 && (p.len() - 2) % 4 == 0) by (nonlinear_arith)
                    requires
                        p.len() == 2 + 4 * tuples.len(),
                        tuples.len() >= 1,
                ;
                assert(p.subrange(0, 2) =~= be_enc(restart_time as nat, 2));
                assert(p.skip(2) =~= enc_list(tuples, enc_gr_tuple_fn()));
                lemma_gr_tuple_list_round_trip(tuples);
            }
        },
        CapV::As4(a) => {
            lemma_be_enc_len(a.asn as nat, 4);
            lemma_be_val_enc(a.asn as nat, 4);
            assert(p.subrange(0, 4) =~= be_enc(a.asn as nat, 4));
        },
        CapV::DynamicCapability => {},
        CapV::AddPath(vs) => {
            assert forall|i: int| 0 <= i < vs.len() implies (#[trigger] enc_addpath_value_fn()(
                vs[i],
            )).len() == 4 by {
                lemma_be_enc_len(vs[i].afi.code_spec() as nat, 2);
            }
            crate::list::lemma_enc_list_fixed(vs, enc_addpath_value_fn(), 4);
            assert(p.len() % 4 == 0) by (nonlinear_arith)
                requires
                    p.len() == 4 * vs.len(),
            ;
            lemma_addpath_value_list_round_trip(vs);
        },
        CapV::EnhancedRouteRefresh => {},
        CapV::Llgr(vs) => {
            assert forall|i: int| 0 <= i < vs.len() implies (#[trigger] enc_llgr_value_fn()(
                vs[i],
            )).len() == 7 by {
                lemma_be_enc_len(vs[i].afi.code_spec() as nat, 2);
                lemma_be_enc_len(vs[i].stale_time as nat, 3);
            }
            crate::list::lemma_enc_list_fixed(vs, enc_llgr_value_fn(), 7);
            assert(p.len() % 7 == 0) by (nonlinear_arith)
                requires
                    p.len() == 7 * vs.len(),
            ;
            lemma_llgr_value_list_round_trip(vs);
        },
        CapV::Fqdn { host, domain } => {
            assert(p[0] == host.len() as u8);
            assert(p.subrange(1, 1 + host.len() as int) =~= host);
            assert(p[1 + host.len() as int] == domain.len() as u8);
            assert(p.subrange(
                2 + host.len() as int,
                2 + host.len() + domain.len() as int,
            ) =~= domain);
        },
        CapV::SoftwareVersion(_) => {},
        CapV::PathLimit(vs) => {
            assert forall|i: int| 0 <= i < vs.len() implies (#[trigger] enc_pathlimit_value_fn()(
                vs[i],
            )).len() == 5 by {
                lemma_be_enc_len(vs[i].afi.code_spec() as nat, 2);
                lemma_be_enc_len(vs[i].path_limit as nat, 2);
            }
            crate::list::lemma_enc_list_fixed(vs, enc_pathlimit_value_fn(), 5);
            assert(p.len() % 5 == 0) by (nonlinear_arith)
                requires
                    p.len() == 5 * vs.len(),
            ;
            lemma_pathlimit_value_list_round_trip(vs);
        },
        CapV::RouteRefreshCisco => {},
        CapV::Unknown { code, data } => {},
    }
    assert(sp_capability(s) == Ok::<_, BgpParseError>((v.enc().len() as int, v)));
}

} // verus!
