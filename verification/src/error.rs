//! The error taxonomy of the codec. Every parser reports exactly one of these
//! kinds, with the offending attribute type code attached where it is known.
use vstd::prelude::*;

verus! {

#[derive(Clone, Copy, Debug, PartialEq, Eq, Structural)]
pub enum BgpParseError {
    /// The input slice is shorter than a declared or fixed length; `needed` is
    /// the number of bytes the pending item required from the current offset.
    Truncated { needed: usize },
    /// A header length out of range, or an attribute length inconsistent with
    /// its fixed width.
    BadLength,
    /// An attribute flag byte does not match the required mask for its type.
    FlagViolation { typ: u8 },
    /// A field value outside its legal set; `typ` is the attribute type code
    /// when one is known, and zero otherwise.
    BadValue { typ: u8 },
    /// An MP_REACH / MP_UNREACH body for a family without a handler.
    UnsupportedFamily { afi: u16, safi: u8 },
    /// An unknown attribute type whose flag byte lacks the optional bit.
    OptionalMissing { typ: u8 },
    /// A structural violation, such as an EVPN route overrunning its body.
    Malformed,
}

} // verus!
