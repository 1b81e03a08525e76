//! The per-parse context: which optional modes the two peers negotiated.
//! It is passed explicitly into the packet parser and emitter and never
//! outlives one call.
use vstd::prelude::*;

use crate::afi::{Afi, AfiSafi, Safi};

verus! {

/// A negotiated mode, split by direction.
#[derive(Clone, Copy, Debug, PartialEq, Eq, Structural, Default)]
pub struct Direct {
    pub recv: bool,
    pub send: bool,
}

/// The negotiated modes one parse or emit call runs under: the four-octet-AS
/// mode, and the Add-Path mode for each address family. The family map is an
/// association list read by first match: the earliest entry for a key is the
/// one in force, and later entries for the same key are inert.
#[derive(Clone, Debug)]
pub struct ParseOption {
    pub as4: Direct,
    pub add_path: Vec<(AfiSafi, Direct)>,
}

/// The mathematical shape of a parse context.
#[verifier::ext_equal]
pub ghost struct ParseOptionV {
    pub as4: Direct,
    pub add_path: Seq<(AfiSafi, Direct)>,
}

impl View for ParseOption {
    type V = ParseOptionV;

    open spec fn view(&self) -> ParseOptionV {
        ParseOptionV { as4: self.as4, add_path: self.add_path@ }
    }
}

/// The first entry for `key`, if any: the lookup every Add-Path decision goes
/// through, so first match is the defined semantics of the map.
pub open spec fn ap_lookup(m: Seq<(AfiSafi, Direct)>, key: AfiSafi) -> Option<Direct>
    decreases m.len(),
{
    if m.len() == 0 {
        None
    } else if m[0].0 == key {
        Some(m[0].1)
    } else {
        ap_lookup(m.skip(1), key)
    }
}

/// Whether Add-Path receive is on for a family under an optional context.
pub open spec fn sp_ap_recv(o: Option<ParseOptionV>, afi: Afi, safi: Safi) -> bool {
    match o {
        None => false,
        Some(c) => match ap_lookup(c.add_path, AfiSafi { afi, safi }) {
            None => false,
            Some(d) => d.recv,
        },
    }
}

/// Whether Add-Path send is on for a family under an optional context.
pub open spec fn sp_ap_send(o: Option<ParseOptionV>, afi: Afi, safi: Safi) -> bool {
    match o {
        None => false,
        Some(c) => match ap_lookup(c.add_path, AfiSafi { afi, safi }) {
            None => false,
            Some(d) => d.send,
        },
    }
}

/// The shape of an optional borrowed context.
pub open spec fn opt_view(opt: Option<&ParseOption>) -> Option<ParseOptionV> {
    match opt {
        None => None,
        Some(c) => Some(c@),
    }
}

impl ParseOption {
    pub fn new() -> (r: ParseOption)
        ensures
            r@.as4 == (Direct { recv: false, send: false }),
            r@.add_path =~= Seq::<(AfiSafi, Direct)>::empty(),
    {
        ParseOption { as4: Direct { recv: false, send: false }, add_path: Vec::new() }
    }

    /// Whether the four-octet-AS mode was negotiated in both directions.
    pub fn is_as4(&self) -> (r: bool)
        ensures
            r == (self@.as4.recv && self@.as4.send),
    {
        self.as4.recv && self.as4.send
    }

    fn lookup(&self, afi: Afi, safi: Safi) -> (r: Option<Direct>)
        ensures
            r == ap_lookup(self@.add_path, AfiSafi { afi, safi }),
    {
        let key = AfiSafi { afi, safi };
        let mut i: usize = 0;
        proof {
            assert(self@.add_path.skip(0int) =~= self@.add_path);
        }
        while i < self.add_path.len()
            invariant
                i <= self.add_path.len(),
                key == (AfiSafi { afi: afi, safi: safi }),
                ap_lookup(self@.add_path, key) == ap_lookup(self@.add_path.skip(i as int), key),
            decreases self.add_path.len() - i,
        {
            let (k, d) = self.add_path[i];
            proof {
                assert(self@.add_path.skip(i as int)[0] == self@.add_path[i as int]);
                assert(self@.add_path.skip(i as int).skip(1) =~= self@.add_path.skip(i + 1));
            }
            if k == key {
                proof {
                    assert(ap_lookup(self@.add_path.skip(i as int), key) == Some(d));
                    assert(ap_lookup(self@.add_path, key) == Some(d));
                    assert(key == (AfiSafi { afi: afi, safi: safi }));
                    assert(ap_lookup(self@.add_path, AfiSafi { afi, safi }) == Some(d));
                }
                return Some(d);
            }
            i = i + 1;
        }
        proof {
            assert(self@.add_path.skip(i as int).len() == 0);
        }
        None
    }

    /// Whether Add-Path receive was negotiated for the family.
    pub fn is_add_path_recv(&self, afi: Afi, safi: Safi) -> (r: bool)
        ensures
            r == sp_ap_recv(Some(self@), afi, safi),
    {
        match self.lookup(afi, safi) {
            None => false,
            Some(d) => d.recv,
        }
    }

    /// Whether Add-Path send was negotiated for the family.
    pub fn is_add_path_send(&self, afi: Afi, safi: Safi) -> (r: bool)
        ensures
            r == sp_ap_send(Some(self@), afi, safi),
    {
        match self.lookup(afi, safi) {
            None => false,
            Some(d) => d.send,
        }
    }

    /// Records a negotiated Add-Path mode for a family.
    pub fn set_add_path(&mut self, afi: Afi, safi: Safi, direct: Direct)
        ensures
            final(self)@.add_path == old(self)@.add_path.push(((AfiSafi { afi, safi }), direct)),
            final(self)@.as4 == old(self)@.as4,
    {
        self.add_path.push((AfiSafi { afi, safi }, direct));
    }

    /// Forgets every negotiated mode.
    pub fn clear(&mut self)
        ensures
            final(self)@.as4 == (Direct { recv: false, send: false }),
            final(self)@.add_path =~= Seq::<(AfiSafi, Direct)>::empty(),
    {
        self.as4 = Direct { recv: false, send: false };
        self.add_path = Vec::new();
    }
}

/// Reads Add-Path receive from an optional context.
pub fn opt_add_path_recv(opt: Option<&ParseOption>, afi: Afi, safi: Safi) -> (r: bool)
    ensures
        r == sp_ap_recv(opt_view(opt), afi, safi),
{
    match opt {
        None => false,
        Some(c) => c.is_add_path_recv(afi, safi),
    }
}

/// Reads Add-Path send from an optional context.
pub fn opt_add_path_send(opt: Option<&ParseOption>, afi: Afi, safi: Safi) -> (r: bool)
    ensures
        r == sp_ap_send(opt_view(opt), afi, safi),
{
    match opt {
        None => false,
        Some(c) => c.is_add_path_send(afi, safi),
    }
}

} // verus!
