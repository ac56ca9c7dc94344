use std::sync::Arc;
use rustneedle::addr::{HwAddr, KnownPair, ProtoAddr};
use rustneedle::discovery::{Discoverer, Discovery, Inbound, Next};
use rustneedle::hosts::{HostEntry, NetHosts};
use rustneedle::wire::{encode_arp, ArpMessage, ARP_REPLY, ARP_REQUEST};

const GATEWAY: ProtoAddr = ProtoAddr(10, 0, 0, 1);
const MYSELF: ProtoAddr = ProtoAddr(10, 0, 0, 2);

fn module() -> Discoverer {
    let gateway = KnownPair::new(GATEWAY, HwAddr::new(2, 0, 0, 0, 0, 1));
    let myself = KnownPair::new(MYSELF, HwAddr::new(2, 0, 0, 0, 0, 2));
    Discoverer::new(gateway, myself)
}

fn hw(last: u8) -> HwAddr {
    HwAddr::new(2, 0, 0, 0, 0, last)
}

fn frame(operation: u16, sender: ProtoAddr, sender_hw: HwAddr, target: ProtoAddr) -> Vec<u8> {
    let message = ArpMessage { operation, sender_hw, sender_proto: sender, target_proto: target };
    encode_arp(HwAddr::broadcast(), sender_hw, message)
}

#[test]
fn request_then_reply_resolves_the_host() {
    let module = module();
    let mut table = NetHosts::new();
    let asked = ProtoAddr::new(10, 0, 0, 4);
    let mac = HwAddr::new(0xaa, 0xbb, 0xcc, 0xdd, 0xee, 0xff);

    let request = frame(ARP_REQUEST, ProtoAddr::new(10, 0, 0, 3), hw(3), asked);
    let found = module.observe(&mut table, &request);
    assert_eq!(found, Discovery::NewHost { addr: asked, mac: None });
    assert_eq!(table.entries(), vec![HostEntry { addr: asked, mac: None }]);

    let reply = frame(ARP_REPLY, asked, mac, ProtoAddr::new(10, 0, 0, 3));
    let found = module.observe(&mut table, &reply);
    assert_eq!(found, Discovery::Updated { addr: asked, mac });
    assert_eq!(table.entries(), vec![HostEntry { addr: asked, mac: Some(mac) }]);
}

#[test]
fn a_reply_from_an_unseen_host_gives_it_a_row() {
    let module = module();
    let mut table = NetHosts::new();
    let sender = ProtoAddr::new(10, 0, 0, 7);
    let found = module.observe(&mut table, &frame(ARP_REPLY, sender, hw(7), MYSELF));
    assert_eq!(found, Discovery::NewHost { addr: sender, mac: Some(hw(7)) });
    assert_eq!(table.entries(), vec![HostEntry { addr: sender, mac: Some(hw(7)) }]);
}

#[test]
fn a_reply_overwrites_a_stale_address() {
    let module = module();
    let mut table = NetHosts::new();
    let sender = ProtoAddr::new(10, 0, 0, 7);
    module.observe(&mut table, &frame(ARP_REPLY, sender, hw(7), MYSELF));
    let found = module.observe(&mut table, &frame(ARP_REPLY, sender, hw(8), MYSELF));
    assert_eq!(found, Discovery::Updated { addr: sender, mac: hw(8) });
    assert_eq!(table.entries(), vec![HostEntry { addr: sender, mac: Some(hw(8)) }]);
}

#[test]
fn an_operation_that_is_no_request_counts_as_a_reply() {
    let module = module();
    let mut table = NetHosts::new();
    let sender = ProtoAddr::new(10, 0, 0, 7);
    let found = module.observe(&mut table, &frame(9, sender, hw(7), ProtoAddr::new(10, 0, 0, 8)));
    assert_eq!(found, Discovery::NewHost { addr: sender, mac: Some(hw(7)) });
    assert_eq!(table.mac(ProtoAddr::new(10, 0, 0, 8)), None);
}

#[test]
fn a_request_for_a_known_host_changes_nothing() {
    let module = module();
    let mut table = NetHosts::new();
    let asked = ProtoAddr::new(10, 0, 0, 4);
    module.observe(&mut table, &frame(ARP_REPLY, asked, hw(4), MYSELF));
    let found = module.observe(&mut table, &frame(ARP_REQUEST, ProtoAddr::new(10, 0, 0, 3), hw(3), asked));
    assert_eq!(found, Discovery::Ignored);
    assert_eq!(table.entries(), vec![HostEntry { addr: asked, mac: Some(hw(4)) }]);
}

#[test]
fn a_request_does_not_give_its_sender_a_row() {
    let module = module();
    let mut table = NetHosts::new();
    let sender = ProtoAddr::new(10, 0, 0, 3);
    module.observe(&mut table, &frame(ARP_REQUEST, sender, hw(3), ProtoAddr::new(10, 0, 0, 4)));
    assert!(!table.contains(sender));
    assert!(table.contains(ProtoAddr::new(10, 0, 0, 4)));
}

#[test]
fn frames_from_this_host_and_from_the_gateway_change_nothing() {
    let module = module();
    let mut table = NetHosts::new();
    let other = ProtoAddr::new(10, 0, 0, 9);
    for sender in [GATEWAY, MYSELF] {
        for operation in [ARP_REQUEST, ARP_REPLY, 7] {
            let found = module.observe(&mut table, &frame(operation, sender, hw(1), other));
            assert_eq!(found, Discovery::Ignored);
            assert_eq!(table.len(), 0);
        }
    }
}

#[test]
fn a_request_for_this_host_or_the_gateway_gives_them_no_row() {
    let module = module();
    let mut table = NetHosts::new();
    let sender = ProtoAddr::new(10, 0, 0, 3);
    for asked in [GATEWAY, MYSELF] {
        let found = module.observe(&mut table, &frame(ARP_REQUEST, sender, hw(3), asked));
        assert_eq!(found, Discovery::Ignored);
        assert_eq!(table.len(), 0);
    }
}

#[test]
fn the_same_reply_twice_is_the_same_as_once() {
    let module = module();
    let reply = frame(ARP_REPLY, ProtoAddr::new(10, 0, 0, 4), hw(4), MYSELF);
    let mut once = NetHosts::new();
    once.insert(ProtoAddr::new(10, 0, 0, 9));
    module.observe(&mut once, &reply);
    let mut twice = NetHosts::new();
    twice.insert(ProtoAddr::new(10, 0, 0, 9));
    module.observe(&mut twice, &reply);
    module.observe(&mut twice, &reply);
    assert_eq!(once.entries(), twice.entries());
    assert_eq!(
        twice.entries(),
        vec![
            HostEntry { addr: ProtoAddr::new(10, 0, 0, 9), mac: None },
            HostEntry { addr: ProtoAddr::new(10, 0, 0, 4), mac: Some(hw(4)) },
        ]
    );
}

#[test]
fn the_same_request_twice_is_the_same_as_once() {
    let module = module();
    let request = frame(ARP_REQUEST, ProtoAddr::new(10, 0, 0, 3), hw(3), ProtoAddr::new(10, 0, 0, 4));
    let mut table = NetHosts::new();
    assert_eq!(
        module.observe(&mut table, &request),
        Discovery::NewHost { addr: ProtoAddr::new(10, 0, 0, 4), mac: None }
    );
    assert_eq!(module.observe(&mut table, &request), Discovery::Ignored);
    assert_eq!(table.len(), 1);
}

#[test]
fn what_is_no_arp_frame_is_passed_over() {
    let module = module();
    let mut table = NetHosts::new();
    let good = frame(ARP_REPLY, ProtoAddr::new(10, 0, 0, 4), hw(4), MYSELF);
    let mut other_type = good.clone();
    other_type[13] = 0x00;
    let malformed: Vec<Vec<u8>> = vec![vec![], vec![0xff; 5], good[..14].to_vec(), good[..41].to_vec(), other_type];
    for bytes in malformed {
        assert_eq!(module.observe(&mut table, &bytes), Discovery::Ignored);
        assert_eq!(table.len(), 0);
    }
}

#[test]
fn a_padded_frame_is_read() {
    let module = module();
    let mut table = NetHosts::new();
    let mut padded = frame(ARP_REPLY, ProtoAddr::new(10, 0, 0, 4), hw(4), MYSELF);
    padded.resize(60, 0);
    assert_eq!(
        module.observe(&mut table, &padded),
        Discovery::NewHost { addr: ProtoAddr::new(10, 0, 0, 4), mac: Some(hw(4)) }
    );
}

#[test]
fn learn_takes_the_message_itself() {
    let module = module();
    let mut table = NetHosts::new();
    let message = ArpMessage {
        operation: ARP_REQUEST,
        sender_hw: hw(3),
        sender_proto: ProtoAddr::new(10, 0, 0, 3),
        target_proto: ProtoAddr::new(10, 0, 0, 4),
    };
    assert_eq!(
        module.learn(&mut table, message),
        Discovery::NewHost { addr: ProtoAddr::new(10, 0, 0, 4), mac: None }
    );
    assert_eq!(table.mac(ProtoAddr::new(10, 0, 0, 4)), Some(None));
}

#[test]
fn rows_stay_in_the_order_of_first_sighting() {
    let module = module();
    let mut table = NetHosts::new();
    let a = ProtoAddr::new(10, 0, 0, 20);
    let b = ProtoAddr::new(10, 0, 0, 10);
    module.observe(&mut table, &frame(ARP_REQUEST, ProtoAddr::new(10, 0, 0, 3), hw(3), a));
    module.observe(&mut table, &frame(ARP_REPLY, b, hw(10), MYSELF));
    module.observe(&mut table, &frame(ARP_REPLY, a, hw(20), MYSELF));
    assert_eq!(table.hosts(), vec![a, b]);
    assert_eq!(table.mac(a), Some(Some(hw(20))));
    assert_eq!(table.mac(b), Some(Some(hw(10))));
}

#[test]
fn the_loop_ends_on_the_kill_signal() {
    assert_eq!(Discoverer::after_kill_check(true), Next::Stop);
    assert_eq!(Discoverer::after_kill_check(false), Next::Receive);
}

#[test]
fn the_loop_looks_for_the_kill_signal_after_every_wait() {
    let module = module();
    let mut table = NetHosts::new();
    let reply = frame(ARP_REPLY, ProtoAddr::new(10, 0, 0, 4), hw(4), MYSELF);
    let step = module.after_receive(&mut table, &Inbound::Frame(Arc::new(reply)));
    assert_eq!(step, (Next::CheckKill, Discovery::NewHost { addr: ProtoAddr::new(10, 0, 0, 4), mac: Some(hw(4)) }));
    assert_eq!(table.len(), 1);
    assert_eq!(module.after_receive(&mut table, &Inbound::Quiet), (Next::CheckKill, Discovery::Ignored));
    assert_eq!(table.len(), 1);
}

#[test]
fn the_loop_ends_when_the_queue_is_closed() {
    let module = module();
    let mut table = NetHosts::new();
    assert_eq!(module.after_receive(&mut table, &Inbound::Closed), (Next::Stop, Discovery::Ignored));
    assert_eq!(table.len(), 0);
}

#[test]
fn a_kill_signal_ends_the_loop_although_frames_keep_coming() {
    let module = module();
    let mut table = NetHosts::new();
    let mut next = Discoverer::after_kill_check(false);
    let mut waits = 0;
    // the signal is sent while the third frame is taken in
    while next != Next::Stop {
        next = match next {
            Next::CheckKill => Discoverer::after_kill_check(waits >= 3),
            Next::Receive => {
                waits += 1;
                let other = frame(ARP_REPLY, ProtoAddr::new(10, 0, 1, waits as u8), hw(9), MYSELF);
                module.after_receive(&mut table, &Inbound::Frame(Arc::new(other))).0
            }
            Next::Stop => Next::Stop,
        };
        assert!(waits <= 3);
    }
    assert_eq!(waits, 3);
    assert_eq!(table.len(), 3);
}
