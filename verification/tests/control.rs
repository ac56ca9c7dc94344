use std::sync::mpsc::{channel, TryRecvError};
use std::sync::Arc;
use rustneedle::control::{RecvAction, RecvLoop, SendAction, SendLoop, TransmitError, TransmitFault};
use rustneedle::fanout::prune;

#[test]
fn a_dropped_consumer_leaves_and_the_others_get_the_frame() {
    let (a_tx, a_rx) = channel();
    let (b_tx, b_rx) = channel();
    let (c_tx, c_rx) = channel();
    let mut lp = RecvLoop::new();
    lp.register(a_tx);
    lp.register(b_tx);
    lp.register(c_tx);
    assert_eq!(lp.len(), 3);
    drop(b_rx);

    let delivered = lp.fan_out(&[1, 2, 3]);
    assert_eq!(delivered, vec![true, false, true]);
    assert_eq!(lp.len(), 2);
    let at_a: Arc<Vec<u8>> = a_rx.try_recv().unwrap();
    let at_c: Arc<Vec<u8>> = c_rx.try_recv().unwrap();
    assert_eq!(*at_a, vec![1, 2, 3]);
    assert_eq!(*at_c, vec![1, 2, 3]);
    assert_eq!(a_rx.try_recv().err(), Some(TryRecvError::Empty));
    assert_eq!(c_rx.try_recv().err(), Some(TryRecvError::Empty));

    // the list is now A, C in that order: with C gone the failure is at place 1
    drop(c_rx);
    assert_eq!(lp.fan_out(&[4]), vec![true, false]);
    assert_eq!(lp.len(), 1);
    assert_eq!(*a_rx.try_recv().unwrap(), vec![4]);
}

#[test]
fn every_open_consumer_gets_each_frame_once_and_in_order() {
    let mut lp = RecvLoop::new();
    let mut receivers = Vec::new();
    for _ in 0..5 {
        let (tx, rx) = channel();
        lp.register(tx);
        receivers.push(rx);
    }
    assert_eq!(lp.fan_out(&[0xaa]), vec![true; 5]);
    assert_eq!(lp.fan_out(&[0xbb, 0xcc]), vec![true; 5]);
    assert_eq!(lp.len(), 5);
    for rx in &receivers {
        assert_eq!(*rx.try_recv().unwrap(), vec![0xaa]);
        assert_eq!(*rx.try_recv().unwrap(), vec![0xbb, 0xcc]);
        assert_eq!(rx.try_recv().err(), Some(TryRecvError::Empty));
    }
}

#[test]
fn consumers_share_the_bytes_of_a_frame() {
    let (a_tx, a_rx) = channel();
    let (b_tx, b_rx) = channel();
    let mut lp = RecvLoop::new();
    lp.register(a_tx);
    lp.register(b_tx);
    lp.fan_out(&[7, 7, 7]);
    let at_a: Arc<Vec<u8>> = a_rx.try_recv().unwrap();
    let at_b: Arc<Vec<u8>> = b_rx.try_recv().unwrap();
    assert!(Arc::ptr_eq(&at_a, &at_b));
    assert_eq!(Arc::strong_count(&at_a), 2);
}

#[test]
fn a_frame_without_consumers_goes_nowhere() {
    let mut lp = RecvLoop::new();
    assert_eq!(lp.fan_out(&[1]), Vec::<bool>::new());
    assert_eq!(lp.len(), 0);
}

#[test]
fn all_consumers_gone_empties_the_list() {
    let mut lp = RecvLoop::new();
    for _ in 0..3 {
        let (tx, rx) = channel::<Arc<Vec<u8>>>();
        lp.register(tx);
        drop(rx);
    }
    assert_eq!(lp.fan_out(&[1]), vec![false, false, false]);
    assert_eq!(lp.len(), 0);
}

#[test]
fn pruning_keeps_the_others_in_order() {
    let mut list = vec!['a', 'b', 'c', 'd', 'e'];
    prune(&mut list, &vec![true, false, false, true, true]);
    assert_eq!(list, vec!['a', 'd', 'e']);
    let mut list = vec!['a', 'b', 'c'];
    prune(&mut list, &vec![false, true, false]);
    assert_eq!(list, vec!['b']);
    let mut list = vec!['a', 'b', 'c'];
    prune(&mut list, &vec![true, true, true]);
    assert_eq!(list, vec!['a', 'b', 'c']);
    let mut list: Vec<char> = vec![];
    prune(&mut list, &vec![]);
    assert_eq!(list, Vec::<char>::new());
}

#[test]
fn pruning_keeps_what_nothing_is_said_of() {
    let mut list = vec![1, 2, 3, 4];
    prune(&mut list, &vec![false, true]);
    assert_eq!(list, vec![2, 3, 4]);
    let mut list = vec![1, 2];
    prune(&mut list, &vec![true, false, false, false]);
    assert_eq!(list, vec![1]);
}

#[test]
fn the_receive_loop_step_by_step() {
    let (a_tx, a_rx) = channel();
    let (b_tx, b_rx) = channel();
    let mut lp = RecvLoop::new();
    assert_eq!(lp.awaiting(), RecvAction::CheckKill);
    assert_eq!(lp.on_kill_check(false), RecvAction::PollRegistration);
    assert_eq!(lp.on_registration(Some(a_tx)), RecvAction::PollRegistration);
    assert_eq!(lp.on_registration(Some(b_tx)), RecvAction::PollRegistration);
    assert_eq!(lp.on_registration(None), RecvAction::ReadFrame);
    assert_eq!(lp.len(), 2);
    let (next, delivered) = lp.on_read(Some(&[9, 9]));
    assert_eq!(next, RecvAction::CheckKill);
    assert_eq!(delivered, vec![true, true]);
    assert_eq!(*a_rx.try_recv().unwrap(), vec![9, 9]);
    assert_eq!(*b_rx.try_recv().unwrap(), vec![9, 9]);
    assert_eq!(lp.on_kill_check(true), RecvAction::Stop);
    assert_eq!(lp.awaiting(), RecvAction::Stop);
}

#[test]
fn a_failed_read_is_passed_over() {
    let (a_tx, a_rx) = channel();
    let mut lp = RecvLoop::new();
    lp.on_kill_check(false);
    lp.on_registration(Some(a_tx));
    lp.on_registration(None);
    let (next, delivered) = lp.on_read(None);
    assert_eq!(next, RecvAction::CheckKill);
    assert_eq!(delivered, Vec::<bool>::new());
    assert_eq!(lp.len(), 1);
    assert_eq!(a_rx.try_recv().err(), Some(TryRecvError::Empty));
}

#[test]
fn the_receive_loop_takes_only_what_it_waits_for() {
    let (a_tx, a_rx) = channel();
    let mut lp = RecvLoop::new();
    // waiting for the kill check: a registration and a frame change nothing
    assert_eq!(lp.on_registration(Some(a_tx)), RecvAction::CheckKill);
    assert_eq!(lp.len(), 0);
    assert_eq!(lp.on_read(Some(&[1])).0, RecvAction::CheckKill);
    assert_eq!(a_rx.try_recv().err(), Some(TryRecvError::Disconnected));
    lp.on_kill_check(false);
    assert_eq!(lp.on_kill_check(true), RecvAction::PollRegistration);
    assert_eq!(lp.on_read(Some(&[1])), (RecvAction::PollRegistration, vec![]));
}

#[test]
fn a_stopped_receive_loop_stays_stopped() {
    let (a_tx, _a_rx) = channel();
    let mut lp = RecvLoop::new();
    lp.on_kill_check(true);
    assert_eq!(lp.on_kill_check(false), RecvAction::Stop);
    assert_eq!(lp.on_registration(Some(a_tx)), RecvAction::Stop);
    assert_eq!(lp.on_read(Some(&[1])), (RecvAction::Stop, vec![]));
    assert_eq!(lp.len(), 0);
}

#[test]
fn the_kill_signal_is_seen_before_registrations_and_frames() {
    let mut lp = RecvLoop::new();
    assert_eq!(lp.awaiting(), RecvAction::CheckKill);
    assert_eq!(lp.on_kill_check(true), RecvAction::Stop);
}

#[test]
fn frames_are_written_in_the_order_of_the_queue() {
    let queue: Vec<Vec<u8>> = vec![vec![1], vec![2, 2], vec![3, 3, 3]];
    let mut lp = SendLoop::new();
    assert_eq!(lp.awaiting(), SendAction::CheckKill);
    assert_eq!(lp.frame(), None);
    assert_eq!(lp.on_kill_check(false), SendAction::PollQueue);
    let mut wire: Vec<Vec<u8>> = Vec::new();
    for frame in queue.iter() {
        assert_eq!(lp.on_dequeue(Some(frame.clone())), SendAction::Write);
        wire.push(lp.frame().unwrap().clone());
        assert_eq!(lp.on_written(None), (SendAction::PollQueue, None));
    }
    assert_eq!(lp.on_dequeue(None), SendAction::CheckKill);
    assert_eq!(wire, queue);
    assert_eq!(lp.on_kill_check(true), SendAction::Stop);
}

#[test]
fn a_failed_write_is_reported_and_the_next_frame_is_written() {
    let mut lp = SendLoop::new();
    lp.on_kill_check(false);
    assert_eq!(lp.on_dequeue(Some(vec![1, 1])), SendAction::Write);
    assert_eq!(lp.frame(), Some(&vec![1, 1]));
    let (next, report) = lp.on_written(Some(TransmitFault::Failed));
    assert_eq!(next, SendAction::PollQueue);
    assert_eq!(report, Some(TransmitError { frame: vec![1, 1], fault: TransmitFault::Failed }));
    assert_eq!(lp.on_dequeue(Some(vec![2])), SendAction::Write);
    assert_eq!(lp.frame(), Some(&vec![2]));
    let (next, report) = lp.on_written(Some(TransmitFault::Refused));
    assert_eq!(next, SendAction::PollQueue);
    assert_eq!(report, Some(TransmitError { frame: vec![2], fault: TransmitFault::Refused }));
    assert_eq!(lp.on_dequeue(Some(vec![3])), SendAction::Write);
    assert_eq!(lp.on_written(None), (SendAction::PollQueue, None));
}

#[test]
fn the_transmit_loop_takes_only_what_it_waits_for() {
    let mut lp = SendLoop::new();
    assert_eq!(lp.on_dequeue(Some(vec![1])), SendAction::CheckKill);
    assert_eq!(lp.on_written(Some(TransmitFault::Failed)), (SendAction::CheckKill, None));
    assert_eq!(lp.frame(), None);
    lp.on_kill_check(false);
    assert_eq!(lp.on_kill_check(true), SendAction::PollQueue);
    assert_eq!(lp.on_written(None), (SendAction::PollQueue, None));
    lp.on_dequeue(Some(vec![5]));
    assert_eq!(lp.on_dequeue(Some(vec![6])), SendAction::Write);
    assert_eq!(lp.frame(), Some(&vec![5]));
    assert_eq!(lp.on_kill_check(true), SendAction::Write);
}

#[test]
fn a_stopped_transmit_loop_stays_stopped() {
    let mut lp = SendLoop::new();
    assert_eq!(lp.on_kill_check(true), SendAction::Stop);
    assert_eq!(lp.on_kill_check(false), SendAction::Stop);
    assert_eq!(lp.on_dequeue(Some(vec![1])), SendAction::Stop);
    assert_eq!(lp.on_written(None), (SendAction::Stop, None));
    assert_eq!(lp.frame(), None);
}
