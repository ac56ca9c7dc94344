use pnet::packet::arp::{ArpOperations, ArpPacket};
use pnet::packet::ethernet::{EtherTypes, EthernetPacket};
use pnet::packet::Packet;
use pnet::util::MacAddr;
use rustneedle::addr::{HwAddr, KnownPair, ProtoAddr};
use rustneedle::probe::{arp_request, Probe, ProbeStep};
use rustneedle::wire::{decode_arp, decode_ethernet, ARP_REQUEST};

fn myself() -> KnownPair {
    KnownPair::new(ProtoAddr::new(10, 0, 0, 2), HwAddr::new(2, 0, 0, 0, 0, 2))
}

#[test]
fn one_target_and_one_word_that_is_none() {
    let (probe, rejected) = Probe::configure(myself(), &["10.0.0.5", "not-an-address"]);
    assert_eq!(rejected, vec![1]);
    assert_eq!(probe.targets, vec![ProtoAddr::new(10, 0, 0, 5)]);
    let frames = probe.sweep();
    assert_eq!(frames.len(), 1);
    let fields = decode_ethernet(&frames[0]).unwrap();
    assert_eq!(fields.destination, HwAddr::broadcast());
    let message = decode_arp(&frames[0]).unwrap();
    assert_eq!(message.operation, ARP_REQUEST);
    assert_eq!(message.target_proto, ProtoAddr::new(10, 0, 0, 5));
}

#[test]
fn the_request_byte_by_byte() {
    let frame = arp_request(&myself(), ProtoAddr::new(10, 0, 0, 5));
    let expected: Vec<u8> = vec![
        0xff, 0xff, 0xff, 0xff, 0xff, 0xff, 2, 0, 0, 0, 0, 2, 0x08, 0x06, 0, 0, 0, 0, 0, 0, 0, 1,
        2, 0, 0, 0, 0, 2, 10, 0, 0, 2, 0, 0, 0, 0, 0, 0, 10, 0, 0, 5,
    ];
    assert_eq!(frame, expected);
}

#[test]
fn pnet_reads_the_request() {
    let frame = arp_request(&myself(), ProtoAddr::new(10, 0, 0, 5));
    let ethernet = EthernetPacket::new(&frame).unwrap();
    assert_eq!(ethernet.get_destination(), MacAddr::broadcast());
    assert_eq!(ethernet.get_source(), MacAddr::new(2, 0, 0, 0, 0, 2));
    assert_eq!(ethernet.get_ethertype(), EtherTypes::Arp);
    let arp = ArpPacket::new(ethernet.payload()).unwrap();
    assert_eq!(arp.get_operation(), ArpOperations::Request);
    assert_eq!(arp.get_sender_hw_addr(), MacAddr::new(2, 0, 0, 0, 0, 2));
    assert_eq!(arp.get_sender_proto_addr().octets(), [10, 0, 0, 2]);
    assert_eq!(arp.get_target_hw_addr(), MacAddr::zero());
    assert_eq!(arp.get_target_proto_addr().octets(), [10, 0, 0, 5]);
}

#[test]
fn targets_keep_the_order_of_the_words() {
    let words = ["10.0.0.9", "", "10.0.0.1", "10.0.0.256", "10.0.0.9", "x"];
    let (probe, rejected) = Probe::configure(myself(), &words);
    assert_eq!(
        probe.targets,
        vec![ProtoAddr::new(10, 0, 0, 9), ProtoAddr::new(10, 0, 0, 1), ProtoAddr::new(10, 0, 0, 9)]
    );
    assert_eq!(rejected, vec![1, 3, 5]);
    assert_eq!(probe.myself, myself());
}

#[test]
fn no_words_no_targets() {
    let (probe, rejected) = Probe::configure(myself(), &[]);
    assert_eq!(probe.targets, Vec::<ProtoAddr>::new());
    assert_eq!(rejected, Vec::<usize>::new());
    assert_eq!(probe.sweep(), Vec::<Vec<u8>>::new());
}

#[test]
fn a_sweep_asks_for_each_target_in_order() {
    let (probe, _) = Probe::configure(myself(), &["10.0.0.5", "10.0.0.6", "10.0.0.7"]);
    let frames = probe.sweep();
    assert_eq!(frames.len(), 3);
    for (i, frame) in frames.iter().enumerate() {
        assert_eq!(frame, &arp_request(&myself(), ProtoAddr::new(10, 0, 0, 5 + i as u8)));
    }
}

#[test]
fn the_loop_ends_on_the_kill_signal_and_sweeps_without_it() {
    let (probe, _) = Probe::configure(myself(), &["10.0.0.5", "10.0.0.6"]);
    assert_eq!(probe.after_kill_check(true), ProbeStep::Stop);
    assert_eq!(probe.after_kill_check(false), ProbeStep::Send(probe.sweep()));
    assert_eq!(probe.after_kill_check(false), ProbeStep::Send(probe.sweep()));
}
