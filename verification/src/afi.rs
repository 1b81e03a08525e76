//! Address-family identifiers: the AFI / SAFI registry and the composite
//! (AFI, SAFI) key that selects a routing-information family.
use vstd::prelude::*;

use crate::error::BgpParseError;
use crate::wire::{be_enc, be_val, read_be, write_be};

verus! {

#[derive(Clone, Copy, Debug, Hash, PartialEq, Eq, Structural)]
pub enum Afi {
    Ip,
    Ip6,
    L2vpn,
    Unknown(u16),
}

#[derive(Clone, Copy, Debug, Hash, PartialEq, Eq, Structural)]
pub enum Safi {
    Unicast,
    Multicast,
    MplsLabel,
    Encap,
    Evpn,
    MplsVpn,
    Rtc,
    Flowspec,
    Unknown(u8),
}

impl Afi {
    /// The wire code of this AFI.
    pub open spec fn code_spec(self) -> u16 {
        match self {
            Afi::Ip => 1,
            Afi::Ip6 => 2,
            Afi::L2vpn => 25,
            Afi::Unknown(v) => v,
        }
    }

    /// The AFI a wire code denotes.
    pub open spec fn of_code_spec(v: u16) -> Afi {
        if v == 1 {
            Afi::Ip
        } else if v == 2 {
            Afi::Ip6
        } else if v == 25 {
            Afi::L2vpn
        } else {
            Afi::Unknown(v)
        }
    }

    /// An `Unknown` value never shadows a known code, so that encoding and
    /// decoding are mutually inverse.
    pub open spec fn wf(self) -> bool {
        match self {
            Afi::Unknown(v) => v != 1 && v != 2 && v != 25,
            _ => true,
        }
    }

    pub fn code(self) -> (r: u16)
        ensures
            r == self.code_spec(),
    {
        match self {
            Afi::Ip => 1,
            Afi::Ip6 => 2,
            Afi::L2vpn => 25,
            Afi::Unknown(v) => v,
        }
    }

    pub fn of_code(v: u16) -> (r: Afi)
        ensures
            r == Afi::of_code_spec(v),
            r.wf(),
    {
        if v == 1 {
            Afi::Ip
        } else if v == 2 {
            Afi::Ip6
        } else if v == 25 {
            Afi::L2vpn
        } else {
            Afi::Unknown(v)
        }
    }

    /// Reads a two-byte AFI.
    pub fn parse_be(input: &[u8], pos: usize, end: usize) -> (r: Result<
        (usize, Afi),
        BgpParseError,
    >)
        requires
            pos <= end <= input.len(),
        ensures
            match r {
                Ok((n, v)) => pos <= n <= end && sp_afi(input@.subrange(pos as int, end as int))
                    == Ok::<_, BgpParseError>(((n - pos) as int, v)),
                Err(e) => sp_afi(input@.subrange(pos as int, end as int)) == Err::<
                    (int, Afi),
                    _,
                >(e),
            },
    {
        if end - pos < 2 {
            return Err(BgpParseError::Truncated { needed: 2 });
        }
        let v = read_be(input, pos, 2);
        proof {
            assert(input@.subrange(pos as int, end as int).subrange(0, 2) =~= input@.subrange(
                pos as int,
                pos + 2,
            ));
            crate::wire::lemma_be_val_bound(input@.subrange(pos as int, pos + 2));
        }
        Ok((pos + 2, Afi::of_code(v as u16)))
    }

    /// Appends the two-byte code.
    pub fn emit(self, out: &mut Vec<u8>)
        ensures
            final(out)@ == old(out)@ + be_enc(self.code_spec() as nat, 2),
    {
        proof {
            assert(crate::wire::pow256(2) == 65536) by {
                reveal_with_fuel(crate::wire::pow256, 3);
            }
        }
        write_be(out, self.code() as u128, 2);
    }
}

/// What a two-byte AFI field parses to.
pub open spec fn sp_afi(s: Seq<u8>) -> Result<(int, Afi), BgpParseError> {
    if s.len() < 2 {
        Err(BgpParseError::Truncated { needed: 2 })
    } else {
        Ok((2, Afi::of_code_spec(be_val(s.subrange(0, 2)) as u16)))
    }
}

impl Safi {
    /// The wire code of this SAFI.
    pub open spec fn code_spec(self) -> u8 {
        match self {
            Safi::Unicast => 1,
            Safi::Multicast => 2,
            Safi::MplsLabel => 4,
            Safi::Encap => 7,
            Safi::Evpn => 70,
            Safi::MplsVpn => 128,
            Safi::Rtc => 132,
            Safi::Flowspec => 133,
            Safi::Unknown(v) => v,
        }
    }

    /// The SAFI a wire code denotes.
    pub open spec fn of_code_spec(v: u8) -> Safi {
        if v == 1 {
            Safi::Unicast
        } else if v == 2 {
            Safi::Multicast
        } else if v == 4 {
            Safi::MplsLabel
        } else if v == 7 {
            Safi::Encap
        } else if v == 70 {
            Safi::Evpn
        } else if v == 128 {
            Safi::MplsVpn
        } else if v == 132 {
            Safi::Rtc
        } else if v == 133 {
            Safi::Flowspec
        } else {
            Safi::Unknown(v)
        }
    }

    pub open spec fn wf(self) -> bool {
        match self {
            Safi::Unknown(v) => v != 1 && v != 2 && v != 4 && v != 7 && v != 70 && v != 128 && v
                != 132 && v != 133,
            _ => true,
        }
    }

    pub fn code(self) -> (r: u8)
        ensures
            r == self.code_spec(),
    {
        match self {
            Safi::Unicast => 1,
            Safi::Multicast => 2,
            Safi::MplsLabel => 4,
            Safi::Encap => 7,
            Safi::Evpn => 70,
            Safi::MplsVpn => 128,
            Safi::Rtc => 132,
            Safi::Flowspec => 133,
            Safi::Unknown(v) => v,
        }
    }

    pub fn of_code(v: u8) -> (r: Safi)
        ensures
            r == Safi::of_code_spec(v),
            r.wf(),
    {
        if v == 1 {
            Safi::Unicast
        } else if v == 2 {
            Safi::Multicast
        } else if v == 4 {
            Safi::MplsLabel
        } else if v == 7 {
            Safi::Encap
        } else if v == 70 {
            Safi::Evpn
        } else if v == 128 {
            Safi::MplsVpn
        } else if v == 132 {
            Safi::Rtc
        } else if v == 133 {
            Safi::Flowspec
        } else {
            Safi::Unknown(v)
        }
    }

    /// Reads a one-byte SAFI.
    pub fn parse_be(input: &[u8], pos: usize, end: usize) -> (r: Result<
        (usize, Safi),
        BgpParseError,
    >)
        requires
            pos <= end <= input.len(),
        ensures
            match r {
                Ok((n, v)) => pos <= n <= end && sp_safi(input@.subrange(pos as int, end as int))
                    == Ok::<_, BgpParseError>(((n - pos) as int, v)),
                Err(e) => sp_safi(input@.subrange(pos as int, end as int)) == Err::<
                    (int, Safi),
                    _,
                >(e),
            },
    {
        if end - pos < 1 {
            return Err(BgpParseError::Truncated { needed: 1 });
        }
        let v = input[pos];
        proof {
            assert(input@.subrange(pos as int, end as int)[0] == input@[pos as int]);
        }
        Ok((pos + 1, Safi::of_code(v)))
    }
}

/// What a one-byte SAFI field parses to.
pub open spec fn sp_safi(s: Seq<u8>) -> Result<(int, Safi), BgpParseError> {
    if s.len() < 1 {
        Err(BgpParseError::Truncated { needed: 1 })
    } else {
        Ok((1, Safi::of_code_spec(s[0])))
    }
}

/// Encoding a well-formed AFI and reading it back is the identity.
pub proof fn lemma_afi_round_trip(a: Afi, tail: Seq<u8>)
    requires
        a.wf(),
    ensures
        sp_afi(be_enc(a.code_spec() as nat, 2) + tail) == Ok::<_, BgpParseError>((2int, a)),
{
    let e = be_enc(a.code_spec() as nat, 2);
    crate::wire::lemma_be_enc_len(a.code_spec() as nat, 2);
    assert(crate::wire::pow256(2) == 65536) by {
        reveal_with_fuel(crate::wire::pow256, 3);
    }
    crate::wire::lemma_be_val_enc(a.code_spec() as nat, 2);
    assert((e + tail).subrange(0, 2) =~= e);
}

/// Encoding a well-formed SAFI and reading it back is the identity.
pub proof fn lemma_safi_round_trip(sa: Safi, tail: Seq<u8>)
    requires
        sa.wf(),
    ensures
        sp_safi(seq![sa.code_spec()] + tail) == Ok::<_, BgpParseError>((1int, sa)),
{
    assert((seq![sa.code_spec()] + tail)[0] == sa.code_spec());
}

/// The composite key that selects one routing-information family.
#[derive(Clone, Copy, Debug, Hash, PartialEq, Eq, Structural)]
pub struct AfiSafi {
    pub afi: Afi,
    pub safi: Safi,
}

impl AfiSafi {
    pub fn new(afi: Afi, safi: Safi) -> (r: AfiSafi)
        ensures
            r.afi == afi,
            r.safi == safi,
    {
        AfiSafi { afi, safi }
    }
}

/// A set of (AFI, SAFI) keys kept in insertion order.
#[derive(Clone, Debug)]
pub struct AfiSafis(pub Vec<AfiSafi>);

impl AfiSafis {
    pub fn new() -> (r: AfiSafis)
        ensures
            r.0@ =~= Seq::<AfiSafi>::empty(),
    {
        AfiSafis(Vec::new())
    }

    pub fn has(&self, afi_safi: &AfiSafi) -> (r: bool)
        ensures
            r == self.0@.contains(*afi_safi),
    {
        let mut i: usize = 0;
        while i < self.0.len()
            invariant
                i <= self.0.len(),
                forall|j: int| 0 <= j < i ==> self.0@[j] != *afi_safi,
            decreases self.0.len() - i,
        {
            if self.0[i] == *afi_safi {
                return true;
            }
            i = i + 1;
        }
        false
    }

    pub fn push(&mut self, afi_safi: AfiSafi)
        ensures
            final(self).0@ == old(self).0@.push(afi_safi),
    {
        self.0.push(afi_safi);
    }

    /// Removes the first occurrence, keeping the order of the rest; reports
    /// whether anything was removed.
    pub fn remove(&mut self, afi_safi: &AfiSafi) -> (r: bool)
        ensures
            r == old(self).0@.contains(*afi_safi),
            r ==> exists|k: int|
                0 <= k < old(self).0@.len() && old(self).0@[k] == *afi_safi && final(self).0@
                    == old(self).0@.remove(k),
            !r ==> final(self).0@ == old(self).0@,
    {
        let mut i: usize = 0;
        while i < self.0.len()
            invariant
                i <= self.0.len(),
                self.0@ == old(self).0@,
                forall|j: int| 0 <= j < i ==> self.0@[j] != *afi_safi,
            decreases self.0.len() - i,
        {
            if self.0[i] == *afi_safi {
                self.0.remove(i);
                return true;
            }
            i = i + 1;
        }
        false
    }
}

} // verus!
