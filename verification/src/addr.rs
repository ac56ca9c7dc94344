//! Protocol and hardware addresses, and the pair of both that identifies a
//! node which is known from the start.

use vstd::prelude::*;
use vstd::slice::slice_subrange;
use vstd::string::StringSliceAdditionalSpecFns;
use crate::text::{
    field, field_end, find_field_end, has_field, hex_run, hexadecimal, octet_of, parse_octet,
    without_plus,
};
use pnet::util::{MacAddr, ParseMacAddrErr};

verus! {

/// The byte that separates the octets of a written protocol address.
pub const DOT: u8 = 46;

/// The byte that separates the octets of a written hardware address.
pub const COLON: u8 = 58;

/// An IPv4 address, octet by octet in the order in which it is written and
/// sent.
#[derive(Clone, Copy, Debug, PartialEq, Eq, Hash, Structural)]
pub struct ProtoAddr(pub u8, pub u8, pub u8, pub u8);

/// An Ethernet address, octet by octet in the order in which it is written
/// and sent.
#[derive(Clone, Copy, Debug, PartialEq, Eq, Hash, Structural)]
pub struct HwAddr(pub u8, pub u8, pub u8, pub u8, pub u8, pub u8);

/// A node whose two addresses are known without looking at the wire: this
/// host, or its gateway.
#[derive(Clone, Copy, Debug, PartialEq, Eq, Hash, Structural)]
pub struct KnownPair {
    pub proto: ProtoAddr,
    pub hardw: HwAddr,
}

/// The protocol address that `text` spells in dotted decimal: four octets
/// with a dot between each two and nothing before, between or after. `None`
/// for any other text.
pub open spec fn proto_addr_of(text: Seq<u8>) -> Option<ProtoAddr> {
    let e0 = field_end(text, 0, DOT);
    let e1 = field_end(text, e0 + 1, DOT);
    let e2 = field_end(text, e1 + 1, DOT);
    let e3 = field_end(text, e2 + 1, DOT);
    if e0 < text.len() && e1 < text.len() && e2 < text.len() && e3 == text.len() {
        match (
            octet_of(text.subrange(0, e0)),
            octet_of(text.subrange(e0 + 1, e1)),
            octet_of(text.subrange(e1 + 1, e2)),
            octet_of(text.subrange(e2 + 1, e3)),
        ) {
            (Some(a), Some(b), Some(c), Some(d)) => Some(ProtoAddr(a, b, c, d)),
            _ => None,
        }
    } else {
        None
    }
}

impl ProtoAddr {
    /// Reads a protocol address written in dotted decimal, such as
    /// `10.0.0.5`.
    pub fn parse(text: &[u8]) -> (addr: Option<ProtoAddr>)
        ensures
            addr == proto_addr_of(text@),
    {
        let n = text.len();
        let e0 = find_field_end(text, 0, DOT);
        if e0 >= n {
            return None;
        }
        let e1 = find_field_end(text, e0 + 1, DOT);
        if e1 >= n {
            return None;
        }
        let e2 = find_field_end(text, e1 + 1, DOT);
        if e2 >= n {
            return None;
        }
        let e3 = find_field_end(text, e2 + 1, DOT);
        if e3 != n {
            return None;
        }
        let a = parse_octet(slice_subrange(text, 0, e0));
        let b = parse_octet(slice_subrange(text, e0 + 1, e1));
        let c = parse_octet(slice_subrange(text, e1 + 1, e2));
        let d = parse_octet(slice_subrange(text, e2 + 1, e3));
        match (a, b, c, d) {
            (Some(a), Some(b), Some(c), Some(d)) => Some(ProtoAddr(a, b, c, d)),
            _ => None,
        }
    }

    /// The four octets as a sequence.
    pub open spec fn octets(self) -> Seq<u8> {
        seq![self.0, self.1, self.2, self.3]
    }

    pub fn new(a: u8, b: u8, c: u8, d: u8) -> (addr: ProtoAddr)
        ensures
            addr == ProtoAddr(a, b, c, d),
    {
        ProtoAddr(a, b, c, d)
    }
}

/// Why a text is no hardware address.
#[derive(Clone, Copy, Debug, PartialEq, Eq, Structural)]
pub enum MacParseError {
    /// More than six parts between colons.
    TooManyComponents,
    /// Fewer than six parts between colons.
    TooFewComponents,
    /// A part that is no octet in hexadecimal.
    InvalidComponent,
}

/// The octet that `part` spells in hexadecimal: one or more digits of either
/// case, with or without a `+` in front, that stand for no more than 255.
/// Zeros in front do not count.
pub open spec fn hex_octet_of(part: Seq<u8>) -> Option<u8> {
    let digits = without_plus(part);
    if digits.len() > 0 && hex_run(digits) == digits.len() && hexadecimal(digits) <= 255 {
        Some(hexadecimal(digits) as u8)
    } else {
        None
    }
}

/// Whether one of the first six parts of `text` between colons spells no
/// octet.
pub open spec fn has_bad_part(text: Seq<u8>) -> bool {
    exists|i: nat|
        i < 6 && has_field(text, i, COLON) && hex_octet_of(#[trigger] field(text, i, COLON))
            is None
}

/// The hardware address that `text` spells, such as `aa:bb:cc:dd:ee:ff`:
/// six octets in hexadecimal with a colon between each two. Of the errors, a
/// bad part among the first six comes before a wrong number of parts.
pub open spec fn hw_addr_of(text: Seq<u8>) -> Result<HwAddr, MacParseError> {
    if has_bad_part(text) {
        Err(MacParseError::InvalidComponent)
    } else if has_field(text, 6, COLON) {
        Err(MacParseError::TooManyComponents)
    } else if !has_field(text, 5, COLON) {
        Err(MacParseError::TooFewComponents)
    } else {
        Ok(
            HwAddr(
                hex_octet_of(field(text, 0, COLON)).unwrap(),
                hex_octet_of(field(text, 1, COLON)).unwrap(),
                hex_octet_of(field(text, 2, COLON)).unwrap(),
                hex_octet_of(field(text, 3, COLON)).unwrap(),
                hex_octet_of(field(text, 4, COLON)).unwrap(),
                hex_octet_of(field(text, 5, COLON)).unwrap(),
            ),
        )
    }
}

/// `MacAddr::from_str`. It goes through the parts of the text between
/// colons from the left: a seventh part is too many; a part that is empty,
/// or that `u8::from_str_radix` does not read in base 16, is invalid; fewer
/// than six parts at the end are too few. Each of its three errors is handed
/// on as the error of the same name.
#[verifier::external_body]
fn hw_addr_from_text(text: &str) -> (addr: Result<HwAddr, MacParseError>)
    ensures
        addr == hw_addr_of(text.spec_bytes()),
{
    match text.parse::<MacAddr>() {
        Ok(m) => Ok(HwAddr(m.0, m.1, m.2, m.3, m.4, m.5)),
        Err(ParseMacAddrErr::TooManyComponents) => Err(MacParseError::TooManyComponents),
        Err(ParseMacAddrErr::TooFewComponents) => Err(MacParseError::TooFewComponents),
        Err(ParseMacAddrErr::InvalidComponent) => Err(MacParseError::InvalidComponent),
    }
}

impl HwAddr {
    /// Reads a hardware address written as six octets in hexadecimal with
    /// colons between them.
    pub fn parse(text: &str) -> (addr: Result<HwAddr, MacParseError>)
        ensures
            addr == hw_addr_of(text.spec_bytes()),
    {
        hw_addr_from_text(text)
    }

    /// The six octets as a sequence.
    pub open spec fn octets(self) -> Seq<u8> {
        seq![self.0, self.1, self.2, self.3, self.4, self.5]
    }

    /// The address that every station on the link listens to.
    pub open spec fn spec_broadcast() -> HwAddr {
        HwAddr(0xff, 0xff, 0xff, 0xff, 0xff, 0xff)
    }

    /// The all-zero address, which stands for "not known" inside a request.
    pub open spec fn spec_zero() -> HwAddr {
        HwAddr(0, 0, 0, 0, 0, 0)
    }

    pub fn new(a: u8, b: u8, c: u8, d: u8, e: u8, f: u8) -> (addr: HwAddr)
        ensures
            addr == HwAddr(a, b, c, d, e, f),
    {
        HwAddr(a, b, c, d, e, f)
    }

    #[verifier::when_used_as_spec(spec_broadcast)]
    pub fn broadcast() -> (addr: HwAddr)
        ensures
            addr == Self::spec_broadcast(),
    {
        HwAddr(0xff, 0xff, 0xff, 0xff, 0xff, 0xff)
    }

    #[verifier::when_used_as_spec(spec_zero)]
    pub fn zero() -> (addr: HwAddr)
        ensures
            addr == Self::spec_zero(),
    {
        HwAddr(0, 0, 0, 0, 0, 0)
    }
}

impl KnownPair {
    pub fn new(proto: ProtoAddr, hardw: HwAddr) -> (pair: KnownPair)
        ensures
            pair.proto == proto,
            pair.hardw == hardw,
    {
        KnownPair { proto, hardw }
    }
}

} // verus!
