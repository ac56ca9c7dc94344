//! The two loops that stand between the link and the modules: one hands
//! every captured frame to all consumers that have registered, the other
//! puts queued frames on the wire.
//!
//! Reading from the link, writing to it and waiting on queues is done by the
//! caller. Each loop says what is to be done next, takes in how that ended,
//! and decides from there.

use std::sync::Arc;
use std::sync::mpsc::Sender;
use vstd::prelude::*;
use vstd::slice::slice_to_vec;
use crate::fanout::{prune, survivors};

verus! {

/// The sending end of a queue of the standard library. What it holds and
/// whether its receiving end still lives cannot be seen from here.
#[verifier::external_type_specification]
#[verifier::external_body]
#[verifier::reject_recursive_types(T)]
pub struct ExSender<T>(Sender<T>);

/// `Arc::clone`: one more handle to the same frame. The bytes are not
/// copied.
#[verifier::external_body]
fn share(frame: &Arc<Vec<u8>>) -> (handle: Arc<Vec<u8>>)
    ensures
        handle == *frame,
{
    frame.clone()
}

/// `Sender::send`, which never waits: whether the queue took the frame. It
/// does not once its receiving end is gone; nothing else is known of the
/// result.
#[verifier::external_body]
fn offer(endpoint: &Sender<Arc<Vec<u8>>>, frame: Arc<Vec<u8>>) -> (taken: bool) {
    endpoint.send(frame).is_ok()
}

/// What the receive loop waits for.
#[derive(Clone, Copy, Debug, PartialEq, Eq, Structural)]
pub enum RecvAction {
    /// Look, without waiting, whether the loop was told to end.
    CheckKill,
    /// Look, without waiting, whether a consumer asks to be registered.
    PollRegistration,
    /// Read one frame from the link, waiting for it.
    ReadFrame,
    /// Leave the loop.
    Stop,
}

/// The state of the receive loop: the consumers in the order in which they
/// registered, and what the loop waits for.
pub struct RecvState<T> {
    pub consumers: Seq<T>,
    pub awaiting: RecvAction,
}

/// What happened to the receive loop.
pub enum RecvEvent<T> {
    /// The kill signal was looked at, and was there or not.
    KillChecked(bool),
    /// The registrations were looked at, and a consumer asked or none did.
    Registered(Option<T>),
    /// A read from the link ended: it failed, or it gave a frame that was
    /// handed round and taken or not as the flags say, consumer by consumer.
    Read(Option<Seq<bool>>),
}

/// The state after `event`. An event that the loop did not wait for leaves
/// it as it is.
pub open spec fn recv_step<T>(state: RecvState<T>, event: RecvEvent<T>) -> RecvState<T> {
    match (state.awaiting, event) {
        (RecvAction::CheckKill, RecvEvent::KillChecked(killed)) => RecvState {
            consumers: state.consumers,
            awaiting: if killed {
                RecvAction::Stop
            } else {
                RecvAction::PollRegistration
            },
        },
        (RecvAction::PollRegistration, RecvEvent::Registered(Some(endpoint))) => RecvState {
            consumers: state.consumers.push(endpoint),
            awaiting: RecvAction::PollRegistration,
        },
        (RecvAction::PollRegistration, RecvEvent::Registered(None)) => RecvState {
            consumers: state.consumers,
            awaiting: RecvAction::ReadFrame,
        },
        (RecvAction::ReadFrame, RecvEvent::Read(Some(delivered))) => RecvState {
            consumers: survivors(state.consumers, delivered),
            awaiting: RecvAction::CheckKill,
        },
        (RecvAction::ReadFrame, RecvEvent::Read(None)) => RecvState {
            consumers: state.consumers,
            awaiting: RecvAction::CheckKill,
        },
        _ => state,
    }
}

/// The state after a run of events.
pub open spec fn recv_run<T>(state: RecvState<T>, events: Seq<RecvEvent<T>>) -> RecvState<T>
    decreases events.len(),
{
    if events.len() == 0 {
        state
    } else {
        recv_step(recv_run(state, events.drop_last()), events.last())
    }
}

/// What happens to the loop in one turn in which it is not told to end:
/// the consumers of `newcomers` register one after the other, then a frame
/// is read and handed round.
pub open spec fn turn_events<T>(newcomers: Seq<T>, delivered: Seq<bool>) -> Seq<RecvEvent<T>> {
    seq![RecvEvent::KillChecked(false)] + Seq::new(
        newcomers.len(),
        |i: int| RecvEvent::Registered(Some(newcomers[i])),
    ) + seq![RecvEvent::Registered(None), RecvEvent::Read(Some(delivered))]
}

/// Consumers that register are put behind those that are there, in the
/// order in which they came, before the next frame is handed round: after
/// one turn the list holds, in that order, those of the old and the new
/// consumers that took the frame, and the loop looks at the kill signal
/// again.
pub proof fn lemma_turn_admits_then_prunes<T>(
    consumers: Seq<T>,
    newcomers: Seq<T>,
    delivered: Seq<bool>,
)
    ensures
        recv_run(
            RecvState { consumers, awaiting: RecvAction::CheckKill },
            turn_events(newcomers, delivered),
        ) == (RecvState {
            consumers: survivors(consumers + newcomers, delivered),
            awaiting: RecvAction::CheckKill,
        }),
{
    let start = RecvState { consumers, awaiting: RecvAction::CheckKill };
    let events = turn_events(newcomers, delivered);
    let admitted = seq![RecvEvent::<T>::KillChecked(false)] + Seq::new(
        newcomers.len(),
        |i: int| RecvEvent::Registered(Some(newcomers[i])),
    );
    lemma_admitted(consumers, newcomers, newcomers.len() as int);
    assert(admitted.take(1 + newcomers.len() as int) =~= admitted);
    assert(newcomers.take(newcomers.len() as int) =~= newcomers);
    let all = consumers + newcomers;
    assert(recv_run(start, admitted) == (RecvState {
        consumers: all,
        awaiting: RecvAction::PollRegistration,
    }));
    let polled = admitted.push(RecvEvent::Registered(None));
    assert(polled.drop_last() =~= admitted);
    assert(polled.last() == RecvEvent::<T>::Registered(None));
    assert(recv_run(start, polled) == (RecvState { consumers: all, awaiting: RecvAction::ReadFrame }));
    assert(events =~= polled.push(RecvEvent::Read(Some(delivered))));
    assert(events.drop_last() =~= polled);
    assert(events.last() == RecvEvent::<T>::Read(Some(delivered)));
}

proof fn lemma_admitted<T>(consumers: Seq<T>, newcomers: Seq<T>, k: int)
    requires
        0 <= k <= newcomers.len(),
    ensures
        recv_run(
            RecvState { consumers, awaiting: RecvAction::CheckKill },
            (seq![RecvEvent::<T>::KillChecked(false)] + Seq::new(
                newcomers.len(),
                |i: int| RecvEvent::Registered(Some(newcomers[i])),
            )).take(1 + k),
        ) == (RecvState {
            consumers: consumers + newcomers.take(k),
            awaiting: RecvAction::PollRegistration,
        }),
    decreases k,
{
    let start = RecvState { consumers, awaiting: RecvAction::CheckKill };
    let all = seq![RecvEvent::<T>::KillChecked(false)] + Seq::new(
        newcomers.len(),
        |i: int| RecvEvent::Registered(Some(newcomers[i])),
    );
    let events = all.take(1 + k);
    if k == 0 {
        assert(events.drop_last() =~= Seq::<RecvEvent<T>>::empty());
        assert(events.last() == RecvEvent::<T>::KillChecked(false));
        assert(recv_run(start, events.drop_last()) == start);
        assert(consumers + newcomers.take(0) =~= consumers);
    } else {
        lemma_admitted(consumers, newcomers, k - 1);
        assert(events.drop_last() =~= all.take(k));
        assert(events.last() == RecvEvent::Registered(Some(newcomers[k - 1])));
        assert((consumers + newcomers.take(k - 1)).push(newcomers[k - 1]) =~= consumers
            + newcomers.take(k));
    }
}

/// The receive loop. Its view is its state.
pub struct RecvLoop {
    consumers: Vec<Sender<Arc<Vec<u8>>>>,
    awaiting: RecvAction,
}

impl View for RecvLoop {
    type V = RecvState<Sender<Arc<Vec<u8>>>>;

    closed spec fn view(&self) -> RecvState<Sender<Arc<Vec<u8>>>> {
        RecvState { consumers: self.consumers@, awaiting: self.awaiting }
    }
}

impl RecvLoop {
    /// A loop without consumers, about to look at the kill signal.
    pub fn new() -> (lp: RecvLoop)
        ensures
            lp@.consumers == Seq::<Sender<Arc<Vec<u8>>>>::empty(),
            lp@.awaiting == RecvAction::CheckKill,
    {
        RecvLoop { consumers: Vec::new(), awaiting: RecvAction::CheckKill }
    }

    /// What the loop waits for.
    pub fn awaiting(&self) -> (action: RecvAction)
        ensures
            action == self@.awaiting,
    {
        self.awaiting
    }

    /// The number of consumers.
    pub fn len(&self) -> (n: usize)
        ensures
            n == self@.consumers.len(),
    {
        self.consumers.len()
    }

    /// Puts `endpoint` at the end of the list of consumers.
    pub fn register(&mut self, endpoint: Sender<Arc<Vec<u8>>>)
        ensures
            final(self)@.consumers == old(self)@.consumers.push(endpoint),
            final(self)@.awaiting == old(self)@.awaiting,
    {
        self.consumers.push(endpoint);
    }

    /// Hands one captured frame round: it is offered once to every
    /// consumer, in the order of the list, all of them sharing the same
    /// bytes. Those that could not take it leave the list. The result says,
    /// consumer by consumer, whether the frame was taken.
    pub fn fan_out(&mut self, raw: &[u8]) -> (delivered: Vec<bool>)
        ensures
            delivered@.len() == old(self)@.consumers.len(),
            final(self)@.consumers == survivors(old(self)@.consumers, delivered@),
            final(self)@.awaiting == old(self)@.awaiting,
    {
        let frame = Arc::new(slice_to_vec(raw));
        let mut delivered: Vec<bool> = Vec::new();
        let mut i: usize = 0;
        while i < self.consumers.len()
            invariant
                i <= self.consumers@.len(),
                delivered@.len() == i,
                self.consumers@ == old(self).consumers@,
                self.awaiting == old(self).awaiting,
            decreases self.consumers@.len() - i,
        {
            let taken = offer(&self.consumers[i], share(&frame));
            delivered.push(taken);
            i += 1;
        }
        prune(&mut self.consumers, &delivered);
        delivered
    }

    /// Takes in the look at the kill signal: the loop ends when the signal
    /// was there, and else goes on to the registrations. A loop that did not
    /// wait for this stays as it is.
    pub fn on_kill_check(&mut self, killed: bool) -> (next: RecvAction)
        ensures
            final(self)@ == recv_step(old(self)@, RecvEvent::KillChecked(killed)),
            next == final(self)@.awaiting,
    {
        if self.awaiting == RecvAction::CheckKill {
            self.awaiting = if killed {
                RecvAction::Stop
            } else {
                RecvAction::PollRegistration
            };
        }
        self.awaiting
    }

    /// Takes in the look at the registrations. A consumer that asked is put
    /// at the end of the list and the loop looks for the next one; when none
    /// asked, the loop goes on to read a frame. A loop that did not wait for
    /// this stays as it is, and a consumer that it was handed is let go.
    pub fn on_registration(&mut self, polled: Option<Sender<Arc<Vec<u8>>>>) -> (next: RecvAction)
        ensures
            final(self)@ == recv_step(old(self)@, RecvEvent::Registered(polled)),
            next == final(self)@.awaiting,
    {
        if self.awaiting == RecvAction::PollRegistration {
            match polled {
                Some(endpoint) => {
                    self.consumers.push(endpoint);
                },
                None => {
                    self.awaiting = RecvAction::ReadFrame;
                },
            }
        }
        self.awaiting
    }

    /// Takes in the read from the link. A frame is handed round as
    /// `fan_out` does; a read that failed is passed over. Either way the loop
    /// starts over with the look at the kill signal. A loop that did not
    /// wait for this stays as it is. The second result says, consumer by
    /// consumer, whether the frame was taken; it is empty where no frame was
    /// handed round.
    pub fn on_read(&mut self, read: Option<&[u8]>) -> (step: (RecvAction, Vec<bool>))
        ensures
            final(self)@ == recv_step(
                old(self)@,
                RecvEvent::Read(
                    match read {
                        Some(_) => Some(step.1@),
                        None => None,
                    },
                ),
            ),
            step.0 == final(self)@.awaiting,
            step.1@.len() == (if old(self)@.awaiting == RecvAction::ReadFrame && read is Some {
                old(self)@.consumers.len()
            } else {
                0
            }),
    {
        if self.awaiting == RecvAction::ReadFrame {
            self.awaiting = RecvAction::CheckKill;
            match read {
                Some(raw) => {
                    let delivered = self.fan_out(raw);
                    (self.awaiting, delivered)
                },
                None => (self.awaiting, Vec::new()),
            }
        } else {
            (self.awaiting, Vec::new())
        }
    }
}

/// What the transmit loop waits for.
#[derive(Clone, Copy, Debug, PartialEq, Eq, Structural)]
pub enum SendAction {
    /// Look, without waiting, whether the loop was told to end.
    CheckKill,
    /// Take the next frame from the outbound queue, without waiting.
    PollQueue,
    /// Write the frame that the loop holds to the link.
    Write,
    /// Leave the loop.
    Stop,
}

/// Why a frame did not get onto the wire.
#[derive(Clone, Copy, Debug, PartialEq, Eq, Structural)]
pub enum TransmitFault {
    /// The link did not take the frame.
    Refused,
    /// The write was tried and failed.
    Failed,
}

/// One frame that did not get onto the wire.
#[derive(Debug, PartialEq, Eq)]
pub struct TransmitError {
    pub frame: Vec<u8>,
    pub fault: TransmitFault,
}

/// The state of the transmit loop, with the frame that it holds while it
/// waits for a write.
pub enum SendPhase {
    CheckKill,
    PollQueue,
    Write(Seq<u8>),
    Stop,
}

/// What happened to the transmit loop.
pub enum SendEvent {
    /// The kill signal was looked at, and was there or not.
    KillChecked(bool),
    /// The outbound queue was looked at, and gave a frame or none.
    Dequeued(Option<Seq<u8>>),
    /// The write of the held frame ended well or not.
    Written(Option<TransmitFault>),
}

/// The state after `event`. An event that the loop did not wait for leaves
/// it as it is.
pub open spec fn send_step(phase: SendPhase, event: SendEvent) -> SendPhase {
    match (phase, event) {
        (SendPhase::CheckKill, SendEvent::KillChecked(killed)) => if killed {
            SendPhase::Stop
        } else {
            SendPhase::PollQueue
        },
        (SendPhase::PollQueue, SendEvent::Dequeued(Some(frame))) => SendPhase::Write(frame),
        (SendPhase::PollQueue, SendEvent::Dequeued(None)) => SendPhase::CheckKill,
        (SendPhase::Write(_), SendEvent::Written(_)) => SendPhase::PollQueue,
        _ => phase,
    }
}

/// The frame whose write `event` ends, with the fault if there was one.
pub open spec fn send_attempt(phase: SendPhase, event: SendEvent) -> Option<
    (Seq<u8>, Option<TransmitFault>),
> {
    match (phase, event) {
        (SendPhase::Write(frame), SendEvent::Written(fault)) => Some((frame, fault)),
        _ => None,
    }
}

/// What the loop waits for in a state.
pub open spec fn send_awaits(phase: SendPhase) -> SendAction {
    match phase {
        SendPhase::CheckKill => SendAction::CheckKill,
        SendPhase::PollQueue => SendAction::PollQueue,
        SendPhase::Write(_) => SendAction::Write,
        SendPhase::Stop => SendAction::Stop,
    }
}

/// The transmit loop.
pub struct SendLoop {
    awaiting: SendAction,
    held: Vec<u8>,
}

impl View for SendLoop {
    type V = SendPhase;

    closed spec fn view(&self) -> SendPhase {
        match self.awaiting {
            SendAction::CheckKill => SendPhase::CheckKill,
            SendAction::PollQueue => SendPhase::PollQueue,
            SendAction::Write => SendPhase::Write(self.held@),
            SendAction::Stop => SendPhase::Stop,
        }
    }
}

impl SendLoop {
    /// A loop about to look at the kill signal.
    pub fn new() -> (lp: SendLoop)
        ensures
            lp@ == SendPhase::CheckKill,
    {
        SendLoop { awaiting: SendAction::CheckKill, held: Vec::new() }
    }

    /// What the loop waits for.
    pub fn awaiting(&self) -> (action: SendAction)
        ensures
            action == send_awaits(self@),
    {
        self.awaiting
    }

    /// The frame to write, while the loop waits for a write.
    pub fn frame(&self) -> (held: Option<&Vec<u8>>)
        ensures
            match self@ {
                SendPhase::Write(frame) => held matches Some(bytes) && bytes@ == frame,
                _ => held is None,
            },
    {
        if self.awaiting == SendAction::Write {
            Some(&self.held)
        } else {
            None
        }
    }

    /// Takes in the look at the kill signal: the loop ends when the signal
    /// was there, and else goes on to the outbound queue.
    pub fn on_kill_check(&mut self, killed: bool) -> (next: SendAction)
        ensures
            final(self)@ == send_step(old(self)@, SendEvent::KillChecked(killed)),
            next == send_awaits(final(self)@),
    {
        if self.awaiting == SendAction::CheckKill {
            self.awaiting = if killed {
                SendAction::Stop
            } else {
                SendAction::PollQueue
            };
        }
        self.awaiting
    }

    /// Takes in the look at the outbound queue: a frame is held for
    /// writing; an empty queue leads back to the look at the kill signal.
    pub fn on_dequeue(&mut self, polled: Option<Vec<u8>>) -> (next: SendAction)
        ensures
            final(self)@ == send_step(
                old(self)@,
                SendEvent::Dequeued(
                    match polled {
                        Some(frame) => Some(frame@),
                        None => None,
                    },
                ),
            ),
            next == send_awaits(final(self)@),
    {
        if self.awaiting == SendAction::PollQueue {
            match polled {
                Some(frame) => {
                    self.held = frame;
                    self.awaiting = SendAction::Write;
                },
                None => {
                    self.awaiting = SendAction::CheckKill;
                },
            }
        }
        self.awaiting
    }

    /// Takes in how the write ended. The loop goes on to the next frame of
    /// the queue whether or not the write went well; a frame that did not
    /// get onto the wire is handed back with the fault, for the caller to
    /// report.
    pub fn on_written(&mut self, fault: Option<TransmitFault>) -> (step: (
        SendAction,
        Option<TransmitError>,
    ))
        ensures
            final(self)@ == send_step(old(self)@, SendEvent::Written(fault)),
            step.0 == send_awaits(final(self)@),
            match (send_attempt(old(self)@, SendEvent::Written(fault)), fault) {
                (Some((frame, _)), Some(why)) => step.1 matches Some(error) && error.frame@
                    == frame && error.fault == why,
                _ => step.1 is None,
            },
    {
        if self.awaiting == SendAction::Write {
            self.awaiting = SendAction::PollQueue;
            match fault {
                Some(why) => {
                    let mut frame: Vec<u8> = Vec::new();
                    core::mem::swap(&mut frame, &mut self.held);
                    (self.awaiting, Some(TransmitError { frame, fault: why }))
                },
                None => (self.awaiting, None),
            }
        } else {
            (self.awaiting, None)
        }
    }
}

/// The state after a run of events.
pub open spec fn send_run(phase: SendPhase, events: Seq<SendEvent>) -> SendPhase
    decreases events.len(),
{
    if events.len() == 0 {
        phase
    } else {
        send_step(send_run(phase, events.drop_last()), events.last())
    }
}

/// The frames whose writes were tried during a run of events, in the order
/// of the tries, each with the fault if there was one.
pub open spec fn send_attempts(phase: SendPhase, events: Seq<SendEvent>) -> Seq<
    (Seq<u8>, Option<TransmitFault>),
>
    decreases events.len(),
{
    if events.len() == 0 {
        Seq::empty()
    } else {
        let before = send_attempts(phase, events.drop_last());
        match send_attempt(send_run(phase, events.drop_last()), events.last()) {
            Some(attempt) => before.push(attempt),
            None => before,
        }
    }
}

/// What happens to the loop while it drains a queue that holds `frames`:
/// each frame is taken from the queue and its write ends as `faults` says.
pub open spec fn drain_events(frames: Seq<Seq<u8>>, faults: Seq<Option<TransmitFault>>) -> Seq<
    SendEvent,
>
    decreases frames.len(),
{
    if frames.len() == 0 {
        Seq::empty()
    } else {
        drain_events(frames.drop_last(), faults.drop_last()).push(
            SendEvent::Dequeued(Some(frames.last())),
        ).push(SendEvent::Written(faults.last()))
    }
}

/// Frames go onto the wire in the order in which the queue gives them,
/// each of them once, and a write that fails does not keep the next frame
/// from being written: after the queue is drained the loop has tried to
/// write every frame, in order, and looks at the queue again.
pub proof fn lemma_transmit_in_order(frames: Seq<Seq<u8>>, faults: Seq<Option<TransmitFault>>)
    requires
        faults.len() == frames.len(),
    ensures
        send_run(SendPhase::PollQueue, drain_events(frames, faults)) == SendPhase::PollQueue,
        send_attempts(SendPhase::PollQueue, drain_events(frames, faults)) == Seq::new(
            frames.len(),
            |i: int| (frames[i], faults[i]),
        ),
    decreases frames.len(),
{
    let start = SendPhase::PollQueue;
    let events = drain_events(frames, faults);
    let tried = Seq::new(frames.len(), |i: int| (frames[i], faults[i]));
    if frames.len() == 0 {
        assert(send_attempts(start, events) =~= tried);
    } else {
        let shorter = drain_events(frames.drop_last(), faults.drop_last());
        lemma_transmit_in_order(frames.drop_last(), faults.drop_last());
        let taken = shorter.push(SendEvent::Dequeued(Some(frames.last())));
        assert(taken.drop_last() =~= shorter);
        assert(events.drop_last() =~= taken);
        assert(send_run(start, taken) == SendPhase::Write(frames.last()));
        assert(send_attempts(start, taken) == send_attempts(start, shorter));
        assert(send_attempts(start, events) =~= tried);
    }
}

} // verus!
