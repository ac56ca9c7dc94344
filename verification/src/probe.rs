//! Active probing: the ARP requests with which this host asks a list of
//! addresses who has them.
//!
//! The addresses come as text. A word that spells no address is reported by
//! its place in the list and left out; the others are asked in the order in
//! which they were given, once in each sweep.

use vstd::prelude::*;
use vstd::string::StringSliceAdditionalSpecFns;
use crate::addr::{proto_addr_of, HwAddr, KnownPair, ProtoAddr};
use crate::discovery::observed;
use crate::hosts::HostEntry;
use crate::wire::{
    arp_frame, arp_in_frame, encode_arp, lemma_arp_frame_decodes, ArpMessage, ARP_FRAME_LEN,
    ARP_REQUEST,
};

verus! {

/// The addresses among `texts`, in the order of `texts`.
pub open spec fn accepted_of(texts: Seq<Seq<u8>>) -> Seq<ProtoAddr>
    decreases texts.len(),
{
    if texts.len() == 0 {
        Seq::empty()
    } else {
        let before = accepted_of(texts.drop_last());
        match proto_addr_of(texts.last()) {
            Some(addr) => before.push(addr),
            None => before,
        }
    }
}

/// The places in `texts`, counted from 0 and in rising order, of the words
/// that spell no address.
pub open spec fn rejected_of(texts: Seq<Seq<u8>>) -> Seq<usize>
    decreases texts.len(),
{
    if texts.len() == 0 {
        Seq::empty()
    } else {
        let before = rejected_of(texts.drop_last());
        match proto_addr_of(texts.last()) {
            Some(addr) => before,
            None => before.push((texts.len() - 1) as usize),
        }
    }
}

/// The words of `tokens` as bytes.
pub open spec fn texts_of(tokens: Seq<&str>) -> Seq<Seq<u8>> {
    Seq::new(tokens.len(), |i: int| tokens[i].spec_bytes())
}

/// The request with which `myself` asks who has `target`.
pub open spec fn request_for(myself: KnownPair, target: ProtoAddr) -> ArpMessage {
    ArpMessage {
        operation: ARP_REQUEST,
        sender_hw: myself.hardw,
        sender_proto: myself.proto,
        target_proto: target,
    }
}

/// The frame that carries that request to every station on the link.
pub open spec fn request_frame(myself: KnownPair, target: ProtoAddr) -> Seq<u8> {
    arp_frame(HwAddr::spec_broadcast(), myself.hardw, request_for(myself, target))
}

/// Builds the frame with which `myself` asks who has `target`: 42 bytes,
/// sent from `myself` to the broadcast address.
pub fn arp_request(myself: &KnownPair, target: ProtoAddr) -> (frame: Vec<u8>)
    ensures
        frame@ == request_frame(*myself, target),
        frame@.len() == ARP_FRAME_LEN,
{
    let message = ArpMessage {
        operation: ARP_REQUEST,
        sender_hw: myself.hardw,
        sender_proto: myself.proto,
        target_proto: target,
    };
    encode_arp(HwAddr::broadcast(), myself.hardw, message)
}

/// What the probe loop does after its look at the kill signal.
#[derive(Debug, PartialEq, Eq)]
pub enum ProbeStep {
    /// Leave the loop.
    Stop,
    /// Put these frames on the outbound queue, in this order, then look at
    /// the kill signal again.
    Send(Vec<Vec<u8>>),
}

/// The probe module: who asks, and for whom.
#[derive(Debug, PartialEq, Eq)]
pub struct Probe {
    pub myself: KnownPair,
    pub targets: Vec<ProtoAddr>,
}

impl Probe {
    /// Reads the list of targets. Returns the module and the places of the
    /// words that were left out because they spell no address.
    pub fn configure(myself: KnownPair, tokens: &[&str]) -> (made: (Probe, Vec<usize>))
        ensures
            made.0.myself == myself,
            made.0.targets@ == accepted_of(texts_of(tokens@)),
            made.1@ == rejected_of(texts_of(tokens@)),
    {
        let ghost texts = texts_of(tokens@);
        let mut targets: Vec<ProtoAddr> = Vec::new();
        let mut rejected: Vec<usize> = Vec::new();
        let mut i: usize = 0;
        while i < tokens.len()
            invariant
                i <= tokens@.len(),
                texts == texts_of(tokens@),
                targets@ == accepted_of(texts.take(i as int)),
                rejected@ == rejected_of(texts.take(i as int)),
            decreases tokens@.len() - i,
        {
            assert(texts.take(i + 1).drop_last() =~= texts.take(i as int));
            assert(texts.take(i + 1).last() == tokens@[i as int].spec_bytes());
            match ProtoAddr::parse(tokens[i].as_bytes()) {
                Some(addr) => targets.push(addr),
                None => rejected.push(i),
            }
            i += 1;
        }
        assert(texts.take(i as int) =~= texts);
        (Probe { myself, targets }, rejected)
    }

    /// One sweep: a request for each target, in the order of the targets.
    pub fn sweep(&self) -> (frames: Vec<Vec<u8>>)
        ensures
            frames@.len() == self.targets@.len(),
            forall|i: int|
                0 <= i < frames@.len() ==> (#[trigger] frames@[i])@ == request_frame(
                    self.myself,
                    self.targets@[i],
                ),
    {
        let mut frames: Vec<Vec<u8>> = Vec::new();
        let mut i: usize = 0;
        while i < self.targets.len()
            invariant
                i <= self.targets@.len(),
                frames@.len() == i,
                forall|k: int|
                    0 <= k < i ==> (#[trigger] frames@[k])@ == request_frame(
                        self.myself,
                        self.targets@[k],
                    ),
            decreases self.targets@.len() - i,
        {
            frames.push(arp_request(&self.myself, self.targets[i]));
            i += 1;
        }
        frames
    }

    /// The step after the look at the kill signal, which is taken once
    /// before each sweep: leave when it was there, else send one sweep.
    pub fn after_kill_check(&self, killed: bool) -> (step: ProbeStep)
        ensures
            killed ==> step == ProbeStep::Stop,
            !killed ==> (step matches ProbeStep::Send(frames) && frames@.len()
                == self.targets@.len() && forall|i: int|
                0 <= i < frames@.len() ==> (#[trigger] frames@[i])@ == request_frame(
                    self.myself,
                    self.targets@[i],
                )),
    {
        if killed {
            ProbeStep::Stop
        } else {
            ProbeStep::Send(self.sweep())
        }
    }
}

/// The frame built for a target reads back as the request it was built
/// for, and the discovery module of the same host passes it over: a host
/// learns nothing from its own probes.
pub proof fn lemma_own_probe_is_passed_over(
    hosts: Seq<HostEntry>,
    gateway: ProtoAddr,
    myself: KnownPair,
    target: ProtoAddr,
)
    ensures
        arp_in_frame(request_frame(myself, target)) == Some(request_for(myself, target)),
        observed(hosts, gateway, myself.proto, request_frame(myself, target)) == hosts,
{
    lemma_arp_frame_decodes(HwAddr::spec_broadcast(), myself.hardw, request_for(myself, target));
}

} // verus!
