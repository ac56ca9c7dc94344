//! Ethernet frames and the ARP messages inside them, as bytes on the wire
//! and as values.
//!
//! The bytes are taken apart and put together by `pnet`'s packet types; what
//! those do is written down here as functions on byte sequences, and the rest
//! of the library is proved against that.

use vstd::prelude::*;
use crate::addr::{HwAddr, ProtoAddr};
use pnet::packet::{FromPacket, Packet};
use pnet::packet::arp::{ArpOperation, ArpPacket, MutableArpPacket};
use pnet::packet::ethernet::{EtherType, EthernetPacket, MutableEthernetPacket};
use pnet::util::MacAddr;

verus! {

/// The length of an Ethernet header: two hardware addresses and the type of
/// the payload.
pub const ETHERNET_HEADER_LEN: usize = 14;

/// The length of an ARP message for IPv4 over Ethernet.
pub const ARP_LEN: usize = 28;

/// The length of the smallest frame that holds an ARP message.
pub const ARP_FRAME_LEN: usize = 42;

/// The Ethernet payload type of ARP.
pub const ETHERTYPE_ARP: u16 = 0x0806;

/// The ARP operation "who has this address?".
pub const ARP_REQUEST: u16 = 1;

/// The ARP operation "this address is at ...".
pub const ARP_REPLY: u16 = 2;

/// The fields of an Ethernet frame.
#[derive(Clone, Debug, PartialEq, Eq)]
pub struct EthernetFrame {
    pub destination: HwAddr,
    pub source: HwAddr,
    pub ethertype: u16,
    pub payload: Vec<u8>,
}

/// What this library reads of an ARP message: the operation, who sent it and
/// whom it asks for or answers.
#[derive(Clone, Copy, Debug, PartialEq, Eq)]
pub struct ArpMessage {
    pub operation: u16,
    pub sender_hw: HwAddr,
    pub sender_proto: ProtoAddr,
    pub target_proto: ProtoAddr,
}

/// The number that two bytes hold, the first one counting 256 times.
pub open spec fn be16(hi: u8, lo: u8) -> u16 {
    (hi as int * 256 + lo as int) as u16
}

/// The hardware address in the six bytes from `at` on.
pub open spec fn hw_at(bytes: Seq<u8>, at: int) -> HwAddr {
    HwAddr(bytes[at], bytes[at + 1], bytes[at + 2], bytes[at + 3], bytes[at + 4], bytes[at + 5])
}

/// The protocol address in the four bytes from `at` on.
pub open spec fn proto_at(bytes: Seq<u8>, at: int) -> ProtoAddr {
    ProtoAddr(bytes[at], bytes[at + 1], bytes[at + 2], bytes[at + 3])
}

/// The two bytes that hold `value`, the first one counting 256 times.
pub open spec fn be16_bytes(value: u16) -> Seq<u8> {
    seq![(value / 256) as u8, (value % 256) as u8]
}

/// The fourteen bytes of an Ethernet header.
pub open spec fn ethernet_header(destination: HwAddr, source: HwAddr, ethertype: u16) -> Seq<u8> {
    destination.octets() + source.octets() + be16_bytes(ethertype)
}

/// The ARP message at the start of `payload`, if `payload` is long enough to
/// hold one.
pub open spec fn arp_of(payload: Seq<u8>) -> Option<ArpMessage> {
    if payload.len() >= ARP_LEN {
        Some(
            ArpMessage {
                operation: be16(payload[6], payload[7]),
                sender_hw: hw_at(payload, 8),
                sender_proto: proto_at(payload, 14),
                target_proto: proto_at(payload, 24),
            },
        )
    } else {
        None
    }
}

/// The ARP message that `frame` carries: `frame` has a whole Ethernet
/// header, says that its payload is ARP, and the payload is long enough.
pub open spec fn arp_in_frame(frame: Seq<u8>) -> Option<ArpMessage> {
    if frame.len() >= ETHERNET_HEADER_LEN && be16(frame[12], frame[13]) == ETHERTYPE_ARP {
        arp_of(frame.skip(ETHERNET_HEADER_LEN as int))
    } else {
        None
    }
}

/// `payload` with the four fields of `message` written over bytes 6 to 17
/// and 24 to 27; every other byte stays.
pub open spec fn arp_written(payload: Seq<u8>, message: ArpMessage) -> Seq<u8> {
    payload.subrange(0, 6) + be16_bytes(message.operation) + message.sender_hw.octets()
        + message.sender_proto.octets() + payload.subrange(18, 24)
        + message.target_proto.octets() + payload.skip(ARP_LEN as int)
}

/// `EthernetPacket::new` and `from_packet`: a buffer shorter than the
/// header is no frame; otherwise bytes 0 to 5 are the destination, 6 to 11
/// the source, 12 and 13 the payload type with the high byte first, and the
/// rest is the payload.
#[verifier::external_body]
fn ethernet_fields(frame: &[u8]) -> (fields: Option<EthernetFrame>)
    ensures
        fields is Some <==> frame@.len() >= ETHERNET_HEADER_LEN,
        fields matches Some(f) ==> f.destination == hw_at(frame@, 0) && f.source == hw_at(
            frame@,
            6,
        ) && f.ethertype == be16(frame@[12], frame@[13]) && f.payload@ == frame@.skip(
            ETHERNET_HEADER_LEN as int,
        ),
{
    EthernetPacket::new(frame).map(
        |p| {
            let e = p.from_packet();
            let (d, s) = (e.destination, e.source);
            EthernetFrame {
                destination: HwAddr(d.0, d.1, d.2, d.3, d.4, d.5),
                source: HwAddr(s.0, s.1, s.2, s.3, s.4, s.5),
                ethertype: e.ethertype.0,
                payload: e.payload,
            }
        },
    )
}

/// `ArpPacket::new` and `from_packet`: a buffer shorter than 28 bytes is
/// no message; otherwise bytes 6 and 7 are the operation with the high byte
/// first, 8 to 13 the sender's hardware address, 14 to 17 its protocol
/// address, and 24 to 27 the target's protocol address.
#[verifier::external_body]
fn arp_fields(payload: &[u8]) -> (fields: Option<ArpMessage>)
    ensures
        fields == arp_of(payload@),
{
    ArpPacket::new(payload).map(
        |p| {
            let a = p.from_packet();
            let (h, s, t) = (a.sender_hw_addr, a.sender_proto_addr.octets(), a.target_proto_addr.octets());
            ArpMessage {
                operation: a.operation.0,
                sender_hw: HwAddr(h.0, h.1, h.2, h.3, h.4, h.5),
                sender_proto: ProtoAddr(s[0], s[1], s[2], s[3]),
                target_proto: ProtoAddr(t[0], t[1], t[2], t[3]),
            }
        },
    )
}

/// `MutableEthernetPacket::new` with `set_destination`, `set_source` and
/// `set_ethertype`: the first fourteen bytes of the buffer become the header,
/// the rest stays.
#[verifier::external_body]
fn write_ethernet_header(frame: &mut Vec<u8>, destination: HwAddr, source: HwAddr, ethertype: u16)
    requires
        old(frame)@.len() >= ETHERNET_HEADER_LEN,
    ensures
        final(frame)@ == ethernet_header(destination, source, ethertype) + old(frame)@.skip(
            ETHERNET_HEADER_LEN as int,
        ),
{
    let (d, s) = (destination, source);
    let mut p = MutableEthernetPacket::new(frame).unwrap();
    p.set_destination(MacAddr(d.0, d.1, d.2, d.3, d.4, d.5));
    p.set_source(MacAddr(s.0, s.1, s.2, s.3, s.4, s.5));
    p.set_ethertype(EtherType(ethertype));
}

/// `MutableArpPacket::new` with `set_operation`, `set_sender_hw_addr`,
/// `set_sender_proto_addr` and `set_target_proto_addr`: each writes its own
/// field of the buffer and no other byte.
#[verifier::external_body]
fn write_arp(payload: &mut Vec<u8>, message: ArpMessage)
    requires
        old(payload)@.len() >= ARP_LEN,
    ensures
        final(payload)@ == arp_written(old(payload)@, message),
{
    let (h, s, t) = (message.sender_hw, message.sender_proto, message.target_proto);
    let mut p = MutableArpPacket::new(payload).unwrap();
    p.set_operation(ArpOperation(message.operation));
    p.set_sender_hw_addr(MacAddr(h.0, h.1, h.2, h.3, h.4, h.5));
    p.set_sender_proto_addr([s.0, s.1, s.2, s.3].into());
    p.set_target_proto_addr([t.0, t.1, t.2, t.3].into());
}

/// Takes an Ethernet frame apart. `None` for a buffer that is too short to
/// hold the header.
pub fn decode_ethernet(frame: &[u8]) -> (fields: Option<EthernetFrame>)
    ensures
        fields is Some <==> frame@.len() >= ETHERNET_HEADER_LEN,
        fields matches Some(f) ==> f.destination == hw_at(frame@, 0) && f.source == hw_at(
            frame@,
            6,
        ) && f.ethertype == be16(frame@[12], frame@[13]) && f.payload@ == frame@.skip(
            ETHERNET_HEADER_LEN as int,
        ),
{
    ethernet_fields(frame)
}

/// Reads the ARP message that a frame carries. `None` for anything else:
/// a buffer too short for an Ethernet header, another payload type, or a
/// payload too short for ARP.
pub fn decode_arp(frame: &[u8]) -> (message: Option<ArpMessage>)
    ensures
        message == arp_in_frame(frame@),
{
    match ethernet_fields(frame) {
        Some(fields) => {
            if fields.ethertype == ETHERTYPE_ARP {
                arp_fields(fields.payload.as_slice())
            } else {
                None
            }
        },
        None => None,
    }
}

/// The frame, 42 bytes long, that carries `message` from `source` to
/// `destination`. The ARP fields that `message` does not hold are zero.
pub open spec fn arp_frame(destination: HwAddr, source: HwAddr, message: ArpMessage) -> Seq<u8> {
    ethernet_header(destination, source, ETHERTYPE_ARP) + seq![0u8, 0u8, 0u8, 0u8, 0u8, 0u8]
        + be16_bytes(message.operation) + message.sender_hw.octets()
        + message.sender_proto.octets() + seq![0u8, 0u8, 0u8, 0u8, 0u8, 0u8]
        + message.target_proto.octets()
}

fn zeroes(n: usize) -> (buffer: Vec<u8>)
    ensures
        buffer@.len() == n,
        forall|i: int| 0 <= i < n ==> buffer@[i] == 0u8,
{
    let mut buffer: Vec<u8> = Vec::new();
    while buffer.len() < n
        invariant
            buffer@.len() <= n,
            forall|i: int| 0 <= i < buffer@.len() ==> buffer@[i] == 0u8,
        decreases n - buffer@.len(),
    {
        buffer.push(0u8);
    }
    buffer
}

/// Builds the smallest frame that carries `message` from `source` to
/// `destination`.
pub fn encode_arp(destination: HwAddr, source: HwAddr, message: ArpMessage) -> (frame: Vec<u8>)
    ensures
        frame@ == arp_frame(destination, source, message),
        frame@.len() == ARP_FRAME_LEN,
{
    let mut frame = zeroes(ETHERNET_HEADER_LEN);
    write_ethernet_header(&mut frame, destination, source, ETHERTYPE_ARP);
    let mut body = zeroes(ARP_LEN);
    write_arp(&mut body, message);
    frame.extend_from_slice(body.as_slice());
    assert(frame@ =~= arp_frame(destination, source, message));
    frame
}

/// A frame built by `encode_arp` reads back as the message it was built
/// from.
pub proof fn lemma_arp_frame_decodes(destination: HwAddr, source: HwAddr, message: ArpMessage)
    ensures
        arp_in_frame(arp_frame(destination, source, message)) == Some(message),
{
    let frame = arp_frame(destination, source, message);
    assert(frame.len() == 42);
    assert(be16(frame[12], frame[13]) == ETHERTYPE_ARP);
    let payload = frame.skip(ETHERNET_HEADER_LEN as int);
    assert(payload.len() == 28);
    let op = message.operation;
    assert(be16((op / 256) as u8, (op % 256) as u8) == op);
    assert(payload[6] == (op / 256) as u8);
    assert(payload[7] == (op % 256) as u8);
    assert(hw_at(payload, 8) == message.sender_hw);
    assert(proto_at(payload, 14) == message.sender_proto);
    assert(proto_at(payload, 24) == message.target_proto);
}

} // verus!
