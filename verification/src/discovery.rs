//! Passive host discovery: what one ARP frame that passed by tells about
//! the hosts on the link.
//!
//! A frame from this host or from the gateway tells nothing new and is
//! passed over. In any other frame, a request shows that the address asked
//! for exists, and anything that is no request shows where its sender is.

use std::sync::Arc;
use vstd::prelude::*;
use crate::addr::{HwAddr, KnownPair, ProtoAddr};
use crate::hosts::{addresses, distinct, known, lemma_with_host, lemma_with_mac, macs, with_host, with_mac, HostEntry, NetHosts};
use crate::wire::{arp_in_frame, decode_arp, ArpMessage, ARP_REQUEST};

verus! {

/// What a frame added to the table.
#[derive(Clone, Copy, Debug, PartialEq, Eq)]
#[allow(inconsistent_fields)]
pub enum Discovery {
    /// Nothing: the table is as it was.
    Ignored,
    /// A host that had no row before. `mac` is `None` where only a request
    /// for it was seen.
    NewHost { addr: ProtoAddr, mac: Option<HwAddr> },
    /// A host that had a row already and is now known to be at `mac`.
    Updated { addr: ProtoAddr, mac: HwAddr },
}

/// What is to be done after a step of the discovery loop.
#[derive(Clone, Copy, Debug, PartialEq, Eq)]
pub enum Next {
    /// Look, without waiting, whether the loop was told to end.
    CheckKill,
    /// Wait for the next frame.
    Receive,
    /// Leave the loop.
    Stop,
}

/// How a wait for the next frame ended.
#[derive(Clone, Debug, PartialEq, Eq)]
pub enum Inbound {
    /// A frame arrived. Its bytes are shared with the other consumers.
    Frame(Arc<Vec<u8>>),
    /// The wait ran out with no frame.
    Quiet,
    /// The sending end of the queue is gone: no frame will arrive any more.
    Closed,
}

/// Whether `addr` is one of the two addresses that are known from the start.
pub open spec fn is_own(gateway: ProtoAddr, myself: ProtoAddr, addr: ProtoAddr) -> bool {
    addr == gateway || addr == myself
}

/// Whether `message` is passed over because this host or the gateway sent it.
pub open spec fn passed_over(gateway: ProtoAddr, myself: ProtoAddr, message: ArpMessage) -> bool {
    is_own(gateway, myself, message.sender_proto)
}

/// The table after `message` was seen.
pub open spec fn learned(
    hosts: Seq<HostEntry>,
    gateway: ProtoAddr,
    myself: ProtoAddr,
    message: ArpMessage,
) -> Seq<HostEntry> {
    if passed_over(gateway, myself, message) {
        hosts
    } else if message.operation == ARP_REQUEST {
        if is_own(gateway, myself, message.target_proto) {
            hosts
        } else {
            with_host(hosts, message.target_proto)
        }
    } else {
        with_mac(hosts, message.sender_proto, message.sender_hw)
    }
}

/// What seeing `message` added to the table `hosts`.
pub open spec fn sighting(
    hosts: Seq<HostEntry>,
    gateway: ProtoAddr,
    myself: ProtoAddr,
    message: ArpMessage,
) -> Discovery {
    if passed_over(gateway, myself, message) {
        Discovery::Ignored
    } else if message.operation == ARP_REQUEST {
        if is_own(gateway, myself, message.target_proto) || known(hosts, message.target_proto) {
            Discovery::Ignored
        } else {
            Discovery::NewHost { addr: message.target_proto, mac: None }
        }
    } else if known(hosts, message.sender_proto) {
        Discovery::Updated { addr: message.sender_proto, mac: message.sender_hw }
    } else {
        Discovery::NewHost { addr: message.sender_proto, mac: Some(message.sender_hw) }
    }
}

/// The table after the bytes `frame` were seen: a frame that carries no ARP
/// message leaves it as it is.
pub open spec fn observed(
    hosts: Seq<HostEntry>,
    gateway: ProtoAddr,
    myself: ProtoAddr,
    frame: Seq<u8>,
) -> Seq<HostEntry> {
    match arp_in_frame(frame) {
        Some(message) => learned(hosts, gateway, myself, message),
        None => hosts,
    }
}

/// No row of `hosts` is for this host or for the gateway.
pub open spec fn only_others(hosts: Seq<HostEntry>, gateway: ProtoAddr, myself: ProtoAddr) -> bool {
    forall|a: ProtoAddr| known(hosts, a) ==> !is_own(gateway, myself, a)
}

/// The discovery module: it knows this host and the gateway, and writes what
/// it learns into the table that it is handed.
#[derive(Clone, Copy, Debug, PartialEq, Eq)]
pub struct Discoverer {
    pub gateway: KnownPair,
    pub myself: KnownPair,
}

impl Discoverer {
    pub fn new(gateway: KnownPair, myself: KnownPair) -> (module: Discoverer)
        ensures
            module.gateway == gateway,
            module.myself == myself,
    {
        Discoverer { gateway, myself }
    }

    /// Takes in one ARP message and says what it added.
    pub fn learn(&self, table: &mut NetHosts, message: ArpMessage) -> (found: Discovery)
        ensures
            final(table)@ == learned(old(table)@, self.gateway.proto, self.myself.proto, message),
            found == sighting(old(table)@, self.gateway.proto, self.myself.proto, message),
            distinct(old(table)@),
            distinct(final(table)@),
    {
        let sender = message.sender_proto;
        let target = message.target_proto;
        let was_known = table.contains(sender);
        if sender == self.gateway.proto || sender == self.myself.proto {
            Discovery::Ignored
        } else if message.operation == ARP_REQUEST {
            if target == self.gateway.proto || target == self.myself.proto || table.contains(
                target,
            ) {
                Discovery::Ignored
            } else {
                table.insert(target);
                Discovery::NewHost { addr: target, mac: None }
            }
        } else {
            table.set_host(sender, message.sender_hw);
            if was_known {
                Discovery::Updated { addr: sender, mac: message.sender_hw }
            } else {
                Discovery::NewHost { addr: sender, mac: Some(message.sender_hw) }
            }
        }
    }

    /// Takes in one captured frame and says what it added. A frame that is
    /// too short, carries something other than ARP, or whose ARP message is
    /// cut off is passed over: that is no error.
    pub fn observe(&self, table: &mut NetHosts, frame: &[u8]) -> (found: Discovery)
        ensures
            final(table)@ == observed(old(table)@, self.gateway.proto, self.myself.proto, frame@),
            found == match arp_in_frame(frame@) {
                Some(message) => sighting(
                    old(table)@,
                    self.gateway.proto,
                    self.myself.proto,
                    message,
                ),
                None => Discovery::Ignored,
            },
    {
        match decode_arp(frame) {
            Some(message) => self.learn(table, message),
            None => Discovery::Ignored,
        }
    }

    /// The step after the look at the kill signal: leave when it was there,
    /// else wait for a frame.
    pub fn after_kill_check(killed: bool) -> (next: Next)
        ensures
            next == next_after_kill_check(killed),
    {
        if killed {
            Next::Stop
        } else {
            Next::Receive
        }
    }

    /// The step after a wait for a frame. A frame is taken in; after it, as
    /// after a wait that ran out, the loop looks at the kill signal before it
    /// waits again. A closed queue ends the loop.
    pub fn after_receive(&self, table: &mut NetHosts, inbound: &Inbound) -> (step: (Next, Discovery))
        ensures
            step.0 == next_after_wait(*inbound),
            match *inbound {
                Inbound::Frame(frame) => {
                    &&& final(table)@ == observed(
                        old(table)@,
                        self.gateway.proto,
                        self.myself.proto,
                        frame@,
                    )
                    &&& step.1 == match arp_in_frame(frame@) {
                        Some(message) => sighting(
                            old(table)@,
                            self.gateway.proto,
                            self.myself.proto,
                            message,
                        ),
                        None => Discovery::Ignored,
                    }
                },
                _ => {
                    &&& step.1 == Discovery::Ignored
                    &&& final(table)@ == old(table)@
                },
            },
    {
        match inbound {
            Inbound::Frame(frame) => {
                let found = self.observe(table, frame.as_slice());
                (Next::CheckKill, found)
            },
            Inbound::Quiet => (Next::CheckKill, Discovery::Ignored),
            Inbound::Closed => (Next::Stop, Discovery::Ignored),
        }
    }
}

/// What the loop does after its look at the kill signal.
pub open spec fn next_after_kill_check(killed: bool) -> Next {
    if killed {
        Next::Stop
    } else {
        Next::Receive
    }
}

/// What the loop does after a wait for a frame, however the wait ended.
pub open spec fn next_after_wait(inbound: Inbound) -> Next {
    match inbound {
        Inbound::Closed => Next::Stop,
        _ => Next::CheckKill,
    }
}

/// A loop that was told to end does so within one wait: no wait is
/// followed by another without a look at the kill signal in between, whether
/// it ended with a frame or without, and the look ends the loop once the
/// signal is there. A closed queue ends the loop without the signal.
pub proof fn lemma_kill_is_seen_after_one_wait(inbound: Inbound)
    ensures
        next_after_kill_check(true) == Next::Stop,
        next_after_wait(inbound) != Next::Receive,
        inbound == Inbound::Closed ==> next_after_wait(inbound) == Next::Stop,
        inbound != Inbound::Closed ==> next_after_wait(inbound) == Next::CheckKill,
{
}

/// A frame that carries a request from another host, for an address that
/// is neither this host's nor the gateway's and has no row yet, gives that
/// address a row without a hardware address, and changes nothing else.
pub proof fn lemma_request_adds_unresolved(
    hosts: Seq<HostEntry>,
    gateway: ProtoAddr,
    myself: ProtoAddr,
    frame: Seq<u8>,
)
    requires
        distinct(hosts),
        arp_in_frame(frame) matches Some(message) && message.operation == ARP_REQUEST
            && !passed_over(gateway, myself, message) && !is_own(
            gateway,
            myself,
            message.target_proto,
        ) && !known(hosts, message.target_proto),
    ensures
        observed(hosts, gateway, myself, frame) == hosts.push(
            HostEntry { addr: arp_in_frame(frame).unwrap().target_proto, mac: None },
        ),
        macs(observed(hosts, gateway, myself, frame)) == macs(hosts).insert(
            arp_in_frame(frame).unwrap().target_proto,
            None,
        ),
{
    lemma_with_host(hosts, arp_in_frame(frame).unwrap().target_proto);
}

/// A frame that carries anything but a request, from another host, sets
/// the row of its sender to the sender's hardware address, whatever the row
/// held before and whether or not there was one, and changes nothing else.
pub proof fn lemma_reply_sets_sender(
    hosts: Seq<HostEntry>,
    gateway: ProtoAddr,
    myself: ProtoAddr,
    frame: Seq<u8>,
)
    requires
        distinct(hosts),
        arp_in_frame(frame) matches Some(message) && message.operation != ARP_REQUEST
            && !passed_over(gateway, myself, message),
    ensures
        macs(observed(hosts, gateway, myself, frame)) == macs(hosts).insert(
            arp_in_frame(frame).unwrap().sender_proto,
            Some(arp_in_frame(frame).unwrap().sender_hw),
        ),
        known(hosts, arp_in_frame(frame).unwrap().sender_proto) ==> addresses(
            observed(hosts, gateway, myself, frame),
        ) == addresses(hosts),
{
    let message = arp_in_frame(frame).unwrap();
    lemma_with_mac(hosts, message.sender_proto, message.sender_hw);
}

/// A frame whose sender is this host or the gateway never changes the
/// table, whatever else it holds.
pub proof fn lemma_own_traffic_changes_nothing(
    hosts: Seq<HostEntry>,
    gateway: ProtoAddr,
    myself: ProtoAddr,
    frame: Seq<u8>,
)
    requires
        arp_in_frame(frame) matches Some(message) && passed_over(gateway, myself, message),
    ensures
        observed(hosts, gateway, myself, frame) == hosts,
{
}

/// Seeing the same frame a second time changes nothing: the table after
/// two sightings is the table after one.
pub proof fn lemma_replay_changes_nothing(
    hosts: Seq<HostEntry>,
    gateway: ProtoAddr,
    myself: ProtoAddr,
    frame: Seq<u8>,
)
    requires
        distinct(hosts),
    ensures
        observed(observed(hosts, gateway, myself, frame), gateway, myself, frame) == observed(
            hosts,
            gateway,
            myself,
            frame,
        ),
{
    match arp_in_frame(frame) {
        Some(message) => {
            let once = learned(hosts, gateway, myself, message);
            if passed_over(gateway, myself, message) {
            } else if message.operation == ARP_REQUEST {
                if !is_own(gateway, myself, message.target_proto) {
                    lemma_with_host(hosts, message.target_proto);
                }
            } else {
                let addr = message.sender_proto;
                let row = HostEntry { addr, mac: Some(message.sender_hw) };
                lemma_with_mac(hosts, addr, message.sender_hw);
                let at = crate::hosts::position(once, addr);
                assert(0 <= at < once.len() && once[at].addr == addr);
                if known(hosts, addr) {
                    let p = crate::hosts::position(hosts, addr);
                    assert(once[p].addr == addr);
                    crate::hosts::lemma_position_unique(once, p);
                } else {
                    let n = hosts.len() as int;
                    assert(once[n].addr == addr);
                    crate::hosts::lemma_position_unique(once, n);
                }
                assert(once[at] == row);
                assert(once.update(at, row) =~= once);
            }
        },
        None => {},
    }
}

/// A table without a row for this host or the gateway has none after any
/// frame either; no address has two rows, and every address that had a row
/// keeps one.
pub proof fn lemma_only_others_kept(
    hosts: Seq<HostEntry>,
    gateway: ProtoAddr,
    myself: ProtoAddr,
    frame: Seq<u8>,
)
    requires
        distinct(hosts),
        only_others(hosts, gateway, myself),
    ensures
        distinct(observed(hosts, gateway, myself, frame)),
        only_others(observed(hosts, gateway, myself, frame), gateway, myself),
        forall|a: ProtoAddr| known(hosts, a) ==> known(observed(hosts, gateway, myself, frame), a),
{
    let after = observed(hosts, gateway, myself, frame);
    match arp_in_frame(frame) {
        Some(message) => {
            lemma_with_host(hosts, message.target_proto);
            lemma_with_mac(hosts, message.sender_proto, message.sender_hw);
        },
        None => {},
    }
    assert forall|a: ProtoAddr| known(after, a) implies !is_own(gateway, myself, a) by {
        if !known(hosts, a) {
            let message = arp_in_frame(frame).unwrap();
            assert(a == message.target_proto || a == message.sender_proto);
        }
    }
}

/// Rows are never taken out and never change their place or their
/// address: after any frame the table starts with the rows it had, each for
/// the address it was for.
pub proof fn lemma_rows_keep_their_place(
    hosts: Seq<HostEntry>,
    gateway: ProtoAddr,
    myself: ProtoAddr,
    frame: Seq<u8>,
)
    ensures
        observed(hosts, gateway, myself, frame).len() >= hosts.len(),
        addresses(observed(hosts, gateway, myself, frame)).take(hosts.len() as int) == addresses(
            hosts,
        ),
{
    let after = observed(hosts, gateway, myself, frame);
    assert(addresses(after).take(hosts.len() as int) =~= addresses(hosts));
}

} // verus!
