//! The gateway of an interface and the hardware address of a neighbour,
//! read from the text of the two tables in which the system lists its routes
//! and its neighbours.
//!
//! Both tables are lines of text. In the table of routes, fields stand
//! between tabs: the line of an interface starts with its name, and its
//! third field is the gateway as a 32-bit number in hexadecimal, the first
//! octet of the address in the lowest eight bits. In the table of
//! neighbours, fields stand in columns: the first sixteen bytes of a line
//! hold the protocol address, and bytes 41 to 57 the hardware address.

use vstd::prelude::*;
use vstd::string::{StringExecFns, StringSliceAdditionalSpecFns};
use vstd::slice::slice_subrange;
use vstd::utf8::{
    encode_utf8_valid_utf8, is_char_boundary_iff_not_is_continuation_byte,
    is_char_boundary_start_end_of_seq, is_continuation_byte,
};
use crate::addr::{hw_addr_of, HwAddr, MacParseError, ProtoAddr};
use crate::text::{
    field, field_start, find_field_end, has_field, hex_u32_of, lemma_no_later_field,
    parse_hex_u32, same_bytes, trim_bounds, trimmed, IntParseError,
};

verus! {

/// The byte that ends a line.
pub const NEWLINE: u8 = 10;

/// The byte that stands between the fields of a route.
pub const TAB: u8 = 9;

/// The width of the column that holds a neighbour's protocol address.
pub const NEIGHBOUR_KEY_LEN: usize = 16;

/// Where the column that holds a neighbour's hardware address starts.
pub const NEIGHBOUR_HW_FROM: usize = 41;

/// Where the column that holds a neighbour's hardware address ends.
pub const NEIGHBOUR_HW_TO: usize = 58;

/// The error of the standard library's input and output. Nothing of it is
/// read here: it is carried to the caller.
#[verifier::external_type_specification]
#[verifier::external_body]
pub struct ExIoError(std::io::Error);

/// Why a number or an address in a table could not be read.
#[derive(Clone, Copy, Debug, PartialEq, Eq)]
pub enum ProcParseError {
    Mac(MacParseError),
    Int(IntParseError),
}

/// Why a table did not give what was asked of it.
#[derive(Debug)]
pub enum ProcFileError {
    /// The table could not be read.
    IO(std::io::Error),
    /// The table holds no such line, or the line no such field; the text
    /// says which.
    Missing(String),
    /// The field is there and could not be read.
    Parse(ProcParseError),
}

impl From<std::io::Error> for ProcFileError {
    fn from(e: std::io::Error) -> (error: ProcFileError) {
        ProcFileError::IO(e)
    }
}

impl vstd::std_specs::convert::FromSpecImpl<std::io::Error> for ProcFileError {
    open spec fn obeys_from_spec() -> bool {
        true
    }

    open spec fn from_spec(e: std::io::Error) -> ProcFileError {
        ProcFileError::IO(e)
    }
}

impl From<IntParseError> for ProcFileError {
    fn from(e: IntParseError) -> (error: ProcFileError) {
        ProcFileError::Parse(ProcParseError::Int(e))
    }
}

impl vstd::std_specs::convert::FromSpecImpl<IntParseError> for ProcFileError {
    open spec fn obeys_from_spec() -> bool {
        true
    }

    open spec fn from_spec(e: IntParseError) -> ProcFileError {
        ProcFileError::Parse(ProcParseError::Int(e))
    }
}

impl From<MacParseError> for ProcFileError {
    fn from(e: MacParseError) -> (error: ProcFileError) {
        ProcFileError::Parse(ProcParseError::Mac(e))
    }
}

impl vstd::std_specs::convert::FromSpecImpl<MacParseError> for ProcFileError {
    open spec fn obeys_from_spec() -> bool {
        true
    }

    open spec fn from_spec(e: MacParseError) -> ProcFileError {
        ProcFileError::Parse(ProcParseError::Mac(e))
    }
}

impl From<String> for ProcFileError {
    fn from(s: String) -> (error: ProcFileError) {
        ProcFileError::Missing(s)
    }
}

impl vstd::std_specs::convert::FromSpecImpl<String> for ProcFileError {
    open spec fn obeys_from_spec() -> bool {
        true
    }

    open spec fn from_spec(s: String) -> ProcFileError {
        ProcFileError::Missing(s)
    }
}

/// What is shown for a number that could not be read.
pub open spec fn int_error_text(why: IntParseError) -> Seq<char> {
    match why {
        IntParseError::Empty => "cannot parse integer from empty string"@,
        IntParseError::InvalidDigit => "invalid digit found in string"@,
        IntParseError::PosOverflow => "number too large to fit in target type"@,
    }
}

/// What is shown for a hardware address that could not be read.
pub open spec fn mac_error_text(why: MacParseError) -> Seq<char> {
    match why {
        MacParseError::TooManyComponents => "too many components in /proc/net/arp entry"@,
        MacParseError::TooFewComponents => "too few components in /proc/net/arp entry"@,
        MacParseError::InvalidComponent => "invalid component in /proc/net/arp entry"@,
    }
}

/// `io::Error`'s text for a reader. What it says is the standard library's
/// business.
#[verifier::external_body]
fn io_error_text(e: &std::io::Error) -> (text: String) {
    e.to_string()
}

impl ProcFileError {
    /// The error as a line of text for a reader.
    pub fn message(&self) -> (text: String)
        ensures
            match *self {
                ProcFileError::IO(_) => true,
                ProcFileError::Missing(what) => text@ == "missing "@ + what@,
                ProcFileError::Parse(ProcParseError::Int(why)) => text@ == int_error_text(why),
                ProcFileError::Parse(ProcParseError::Mac(why)) => text@ == mac_error_text(why),
            },
    {
        match self {
            ProcFileError::IO(e) => io_error_text(e),
            ProcFileError::Missing(what) => {
                let mut text = String::from_str("missing ");
                text.append(what.as_str());
                text
            },
            ProcFileError::Parse(ProcParseError::Int(why)) => match why {
                IntParseError::Empty => String::from_str("cannot parse integer from empty string"),
                IntParseError::InvalidDigit => String::from_str("invalid digit found in string"),
                IntParseError::PosOverflow => String::from_str(
                    "number too large to fit in target type",
                ),
            },
            ProcFileError::Parse(ProcParseError::Mac(why)) => match why {
                MacParseError::TooManyComponents => String::from_str(
                    "too many components in /proc/net/arp entry",
                ),
                MacParseError::TooFewComponents => String::from_str(
                    "too few components in /proc/net/arp entry",
                ),
                MacParseError::InvalidComponent => String::from_str(
                    "invalid component in /proc/net/arp entry",
                ),
            },
        }
    }
}

/// What a table gives when it is asked.
pub enum Lookup<T> {
    /// The line is there and its field reads as this.
    Found(T),
    /// No line is the one asked for.
    NoEntry,
    /// The first line asked for is too short to hold the field.
    NoField,
    /// The field is no number.
    BadNumber(IntParseError),
    /// The field is no hardware address.
    BadAddress(MacParseError),
}

/// Line number `n` of `table`, counting from 0, without the byte that ends
/// it.
pub open spec fn line(table: Seq<u8>, n: nat) -> Seq<u8> {
    field(table, n, NEWLINE)
}

/// Whether `table` has a line number `n`. Text that ends with the end of a
/// line has one more, empty line after it.
pub open spec fn has_line(table: Seq<u8>, n: nat) -> bool {
    has_field(table, n, NEWLINE)
}

/// Whether `row` is a route of the interface `name`: it starts with the
/// name.
pub open spec fn is_route_of(row: Seq<u8>, name: Seq<u8>) -> bool {
    name.len() <= row.len() && row.take(name.len() as int) == name
}

/// Whether line `n` is the first route of `name` in `table`.
pub open spec fn is_first_route(table: Seq<u8>, name: Seq<u8>, n: nat) -> bool {
    &&& has_line(table, n)
    &&& is_route_of(line(table, n), name)
    &&& forall|m: nat| m < n ==> !is_route_of(#[trigger] line(table, m), name)
}

/// The address that a gateway field stands for: the lowest eight bits are
/// the first octet.
pub open spec fn gateway_of_word(word: u32) -> ProtoAddr {
    ProtoAddr(
        (word % 256) as u8,
        (word / 256 % 256) as u8,
        (word / 65536 % 256) as u8,
        (word / 16777216) as u8,
    )
}

/// What the third field of a route gives.
pub open spec fn gateway_of_route(row: Seq<u8>) -> Lookup<ProtoAddr> {
    if !has_field(row, 2, TAB) {
        Lookup::NoField
    } else {
        match hex_u32_of(field(row, 2, TAB)) {
            Ok(word) => Lookup::Found(gateway_of_word(word)),
            Err(why) => Lookup::BadNumber(why),
        }
    }
}

/// What the table of routes gives for the interface `name`: the gateway of
/// the first route that starts with the name.
pub open spec fn gateway_in(table: Seq<u8>, name: Seq<u8>) -> Lookup<ProtoAddr> {
    if exists|n: nat| is_first_route(table, name, n) {
        gateway_of_route(line(table, choose|n: nat| is_first_route(table, name, n)))
    } else {
        Lookup::NoEntry
    }
}

proof fn lemma_first_route_is_chosen(table: Seq<u8>, name: Seq<u8>, n: nat)
    requires
        is_first_route(table, name, n),
    ensures
        (choose|k: nat| is_first_route(table, name, k)) == n,
{
    let k = choose|k: nat| is_first_route(table, name, k);
    if k < n {
        assert(!is_route_of(line(table, k), name));
    } else if n < k {
        assert(!is_route_of(line(table, n), name));
    }
}

fn starts_with(row: &[u8], name: &[u8]) -> (b: bool)
    ensures
        b == is_route_of(row@, name@),
{
    if name.len() > row.len() {
        return false;
    }
    same_bytes(slice_subrange(row, 0, name.len()), name)
}

fn gateway_of(row: &[u8]) -> (found: Lookup<ProtoAddr>)
    ensures
        found == gateway_of_route(row@),
{
    let n = row.len();
    let e0 = find_field_end(row, 0, TAB);
    assert(field_start(row@, 1, TAB) == e0 + 1) by {
        assert(field_start(row@, 0, TAB) == 0);
    }
    if e0 >= n {
        return Lookup::NoField;
    }
    let e1 = find_field_end(row, e0 + 1, TAB);
    assert(field_start(row@, 2, TAB) == e1 + 1);
    if e1 >= n {
        return Lookup::NoField;
    }
    let e2 = find_field_end(row, e1 + 1, TAB);
    let column = slice_subrange(row, e1 + 1, e2);
    match parse_hex_u32(column) {
        Ok(word) => Lookup::Found(
            ProtoAddr(
                (word % 256) as u8,
                (word / 256 % 256) as u8,
                (word / 65536 % 256) as u8,
                (word / 16777216) as u8,
            ),
        ),
        Err(why) => Lookup::BadNumber(why),
    }
}

/// Finds the gateway of the interface `name` in the text of the table of
/// routes.
pub fn get_gateway(table: &str, name: &str) -> (gateway: Result<ProtoAddr, ProcFileError>)
    ensures
        match gateway_in(table.spec_bytes(), name.spec_bytes()) {
            Lookup::Found(addr) => gateway matches Ok(found) && found == addr,
            Lookup::NoEntry => gateway matches Err(ProcFileError::Missing(what)) && what@
                == name@ + " entry in /proc/net/route"@,
            Lookup::NoField => gateway matches Err(ProcFileError::Missing(what)) && what@
                == "gateway column in /proc/net/route"@,
            Lookup::BadNumber(why) => gateway matches Err(
                ProcFileError::Parse(ProcParseError::Int(kind)),
            ) && kind == why,
            Lookup::BadAddress(_) => false,
        },
{
    let bytes = table.as_bytes();
    let key = name.as_bytes();
    let mut start: usize = 0;
    let ghost mut n: nat = 0;
    loop
        invariant
            bytes@ == table.spec_bytes(),
            key@ == name.spec_bytes(),
            start <= bytes@.len(),
            start == field_start(bytes@, n, NEWLINE),
            forall|m: nat| m < n ==> !is_route_of(#[trigger] line(bytes@, m), key@),
        decreases bytes@.len() - start,
    {
        let end = find_field_end(bytes, start, NEWLINE);
        let row = slice_subrange(bytes, start, end);
        assert(row@ == line(bytes@, n));
        if starts_with(row, key) {
            proof {
                assert(is_first_route(bytes@, key@, n));
                lemma_first_route_is_chosen(bytes@, key@, n);
            }
            return match gateway_of(row) {
                Lookup::Found(addr) => Ok(addr),
                Lookup::BadNumber(why) => Err(ProcFileError::from(why)),
                _ => Err(
                    ProcFileError::Missing(String::from_str("gateway column in /proc/net/route")),
                ),
            };
        }
        if end >= bytes.len() {
            proof {
                assert(!has_line(bytes@, n + 1));
                assert forall|k: nat| !is_first_route(bytes@, key@, k) by {
                    if k > n {
                        lemma_no_later_field(bytes@, n + 1, k, NEWLINE);
                    }
                }
            }
            let mut what = String::from_str(name);
            what.append(" entry in /proc/net/route");
            return Err(ProcFileError::Missing(what));
        }
        start = end + 1;
        proof {
            n = n + 1;
        }
    }
}

/// Whether a piece of text may be cut out of `row` at `at`: not in the
/// middle of a character that takes more than one byte.
pub open spec fn boundary(row: Seq<u8>, at: int) -> bool {
    at == row.len() || (0 <= at < row.len() && !is_continuation_byte(row[at]))
}

/// The protocol address that a line of the table of neighbours is for: its
/// first sixteen bytes without the white space around them. A line that is
/// shorter, or that cannot be cut there, is for nothing.
pub open spec fn neighbour_key(row: Seq<u8>) -> Seq<u8> {
    if row.len() >= NEIGHBOUR_KEY_LEN && boundary(row, NEIGHBOUR_KEY_LEN as int) {
        trimmed(row.take(NEIGHBOUR_KEY_LEN as int))
    } else {
        Seq::empty()
    }
}

/// Whether line `n` is the first line for `name` in `table`.
pub open spec fn is_first_neighbour(table: Seq<u8>, name: Seq<u8>, n: nat) -> bool {
    &&& has_line(table, n)
    &&& neighbour_key(line(table, n)) == name
    &&& forall|m: nat| m < n ==> neighbour_key(#[trigger] line(table, m)) != name
}

/// What the column of the hardware address gives in a line of the table of
/// neighbours.
pub open spec fn hw_addr_of_neighbour(row: Seq<u8>) -> Lookup<HwAddr> {
    if row.len() >= NEIGHBOUR_HW_TO && boundary(row, NEIGHBOUR_HW_FROM as int) && boundary(
        row,
        NEIGHBOUR_HW_TO as int,
    ) {
        match hw_addr_of(row.subrange(NEIGHBOUR_HW_FROM as int, NEIGHBOUR_HW_TO as int)) {
            Ok(addr) => Lookup::Found(addr),
            Err(why) => Lookup::BadAddress(why),
        }
    } else {
        Lookup::NoField
    }
}

/// What the table of neighbours gives for the protocol address that `name`
/// spells: the hardware address in the first line that is for it.
pub open spec fn neighbour_in(table: Seq<u8>, name: Seq<u8>) -> Lookup<HwAddr> {
    if exists|n: nat| is_first_neighbour(table, name, n) {
        hw_addr_of_neighbour(line(table, choose|n: nat| is_first_neighbour(table, name, n)))
    } else {
        Lookup::NoEntry
    }
}

proof fn lemma_first_neighbour_is_chosen(table: Seq<u8>, name: Seq<u8>, n: nat)
    requires
        is_first_neighbour(table, name, n),
    ensures
        (choose|k: nat| is_first_neighbour(table, name, k)) == n,
{
    let k = choose|k: nat| is_first_neighbour(table, name, k);
    if k < n {
        assert(neighbour_key(line(table, k)) != name);
    } else if n < k {
        assert(neighbour_key(line(table, n)) != name);
    }
}

fn continues(byte: u8) -> (b: bool)
    ensures
        b == is_continuation_byte(byte),
{
    0x80 <= byte && byte <= 0xbf
}

fn cuts_at(row: &[u8], at: usize) -> (b: bool)
    requires
        at <= row@.len(),
    ensures
        b == boundary(row@, at as int),
{
    at == row.len() || !continues(row[at])
}

fn is_neighbour(row: &[u8], name: &[u8]) -> (b: bool)
    ensures
        b == (neighbour_key(row@) == name@),
{
    if row.len() >= NEIGHBOUR_KEY_LEN && cuts_at(row, NEIGHBOUR_KEY_LEN) {
        let column = slice_subrange(row, 0, NEIGHBOUR_KEY_LEN);
        assert(column@ =~= row@.take(NEIGHBOUR_KEY_LEN as int));
        let (lo, hi) = trim_bounds(column);
        same_bytes(slice_subrange(column, lo, hi), name)
    } else {
        assert(name@.len() == 0 <==> name@ =~= Seq::<u8>::empty());
        name.len() == 0
    }
}

/// Finds the hardware address of the neighbour whose protocol address
/// `name` spells in the text of the table of neighbours.
pub fn get_arp_entry(table: &str, name: &str) -> (found: Result<HwAddr, ProcFileError>)
    ensures
        match neighbour_in(table.spec_bytes(), name.spec_bytes()) {
            Lookup::Found(addr) => found matches Ok(mac) && mac == addr,
            Lookup::NoEntry => found matches Err(ProcFileError::Missing(what)) && what@ == name@
                + " entry in /proc/net/arp"@,
            Lookup::NoField => found matches Err(ProcFileError::Missing(what)) && what@
                == "HW address column in /proc/net/arp"@,
            Lookup::BadAddress(why) => found matches Err(
                ProcFileError::Parse(ProcParseError::Mac(kind)),
            ) && kind == why,
            Lookup::BadNumber(_) => false,
        },
{
    let bytes = table.as_bytes();
    let key = name.as_bytes();
    let mut start: usize = 0;
    let ghost mut n: nat = 0;
    loop
        invariant
            bytes@ == table.spec_bytes(),
            key@ == name.spec_bytes(),
            start <= bytes@.len(),
            start == field_start(bytes@, n, NEWLINE),
            forall|m: nat| m < n ==> neighbour_key(#[trigger] line(bytes@, m)) != key@,
        decreases bytes@.len() - start,
    {
        let end = find_field_end(bytes, start, NEWLINE);
        let row = slice_subrange(bytes, start, end);
        assert(row@ == line(bytes@, n));
        if is_neighbour(row, key) {
            proof {
                assert(is_first_neighbour(bytes@, key@, n));
                lemma_first_neighbour_is_chosen(bytes@, key@, n);
            }
            if row.len() >= NEIGHBOUR_HW_TO && cuts_at(row, NEIGHBOUR_HW_FROM) && cuts_at(
                row,
                NEIGHBOUR_HW_TO,
            ) {
                let from = start + NEIGHBOUR_HW_FROM;
                let to = start + NEIGHBOUR_HW_TO;
                proof {
                    encode_utf8_valid_utf8(table@);
                    assert(row@[NEIGHBOUR_HW_FROM as int] == bytes@[from as int]);
                    is_char_boundary_iff_not_is_continuation_byte(bytes@, from as int);
                    if to < bytes@.len() {
                        if (to as int) < end {
                            assert(row@[NEIGHBOUR_HW_TO as int] == bytes@[to as int]);
                        }
                        is_char_boundary_iff_not_is_continuation_byte(bytes@, to as int);
                    } else {
                        is_char_boundary_start_end_of_seq(bytes@);
                    }
                }
                let (head, _) = table.split_at(to);
                proof {
                    encode_utf8_valid_utf8(head@);
                    assert(head.spec_bytes()[from as int] == bytes@[from as int]);
                    is_char_boundary_iff_not_is_continuation_byte(head.spec_bytes(), from as int);
                }
                let (_, column) = head.split_at(from);
                proof {
                    assert(column.spec_bytes() =~= row@.subrange(
                        NEIGHBOUR_HW_FROM as int,
                        NEIGHBOUR_HW_TO as int,
                    ));
                }
                return match HwAddr::parse(column) {
                    Ok(addr) => Ok(addr),
                    Err(why) => Err(ProcFileError::from(why)),
                };
            }
            return Err(
                ProcFileError::Missing(String::from_str("HW address column in /proc/net/arp")),
            );
        }
        if end >= bytes.len() {
            proof {
                assert(!has_line(bytes@, n + 1));
                assert forall|k: nat| !is_first_neighbour(bytes@, key@, k) by {
                    if k > n {
                        lemma_no_later_field(bytes@, n + 1, k, NEWLINE);
                    }
                }
            }
            let mut what = String::from_str(name);
            what.append(" entry in /proc/net/arp");
            return Err(ProcFileError::Missing(what));
        }
        start = end + 1;
        proof {
            n = n + 1;
        }
    }
}

} // verus!
