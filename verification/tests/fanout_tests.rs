//! Scenario tests: a synchronous driver steps the fanout core the way the
//! asynchronous shell would, with mock consumers that buffer items, report
//! backpressure at capacity, or fail on demand.

use std::cell::RefCell;
use std::rc::Rc;

use fanout::fanout::{
    ApplyOutcome, ControlMessage, Fanout, ReadyStep, SendOutcome, SinkPoll, StepOutcome,
    SweepOutcome, SweepStep,
};

#[derive(Clone, Copy, PartialEq)]
enum ErrorWhen {
    Send,
    Poll,
}

struct MockState {
    capacity: usize,
    buffered: Vec<String>,
    fail: Option<ErrorWhen>,
    closed: bool,
    ready_polls: usize,
}

/// A mock consumer. Clones share one buffer: one clone goes into the fanout
/// as the output's handle, the other stays with the test as the receiver.
#[derive(Clone)]
struct MockSink {
    state: Rc<RefCell<MockState>>,
}

impl MockSink {
    fn with_capacity(capacity: usize) -> (MockSink, MockSink) {
        let state = Rc::new(RefCell::new(MockState {
            capacity,
            buffered: Vec::new(),
            fail: None,
            closed: false,
            ready_polls: 0,
        }));
        (MockSink { state: state.clone() }, MockSink { state })
    }

    fn always_errors(when: ErrorWhen) -> MockSink {
        let state = Rc::new(RefCell::new(MockState {
            capacity: usize::MAX,
            buffered: Vec::new(),
            fail: Some(when),
            closed: false,
            ready_polls: 0,
        }));
        MockSink { state }
    }

    fn poll_ready(&self) -> SinkPoll {
        let mut state = self.state.borrow_mut();
        state.ready_polls += 1;
        if state.fail == Some(ErrorWhen::Poll) {
            SinkPoll::Failure
        } else if state.buffered.len() >= state.capacity {
            SinkPoll::Pending
        } else {
            SinkPoll::Success
        }
    }

    fn try_send(&self, item: &str) -> bool {
        let mut state = self.state.borrow_mut();
        if state.fail == Some(ErrorWhen::Send) {
            false
        } else {
            state.buffered.push(item.to_string());
            true
        }
    }

    fn poll_flush(&self) -> SinkPoll {
        let state = self.state.borrow();
        if state.fail == Some(ErrorWhen::Poll) {
            SinkPoll::Failure
        } else if state.buffered.is_empty() {
            SinkPoll::Success
        } else {
            SinkPoll::Pending
        }
    }

    fn ready_polls(&self) -> usize {
        self.state.borrow().ready_polls
    }

    fn poll_close(&self) -> SinkPoll {
        if self.state.borrow().fail == Some(ErrorWhen::Poll) {
            SinkPoll::Failure
        } else {
            self.state.borrow_mut().closed = true;
            SinkPoll::Success
        }
    }

    /// Read one buffered item, freeing capacity, as the downstream consumer
    /// would.
    fn next(&self) -> Option<String> {
        let mut state = self.state.borrow_mut();
        if state.buffered.is_empty() {
            None
        } else {
            Some(state.buffered.remove(0))
        }
    }

    fn collect_ready(&self) -> Vec<String> {
        let mut out = Vec::new();
        while let Some(item) = self.next() {
            out.push(item);
        }
        out
    }

    fn is_closed(&self) -> bool {
        self.state.borrow().closed
    }
}

#[derive(PartialEq, Debug)]
enum Forward {
    Done,
    Pending,
    Failed,
}

/// Drive the readiness sweep to a verdict, as one poll of the upstream
/// driver would.
fn drive_poll_ready(fanout: &mut Fanout<MockSink>) -> Forward {
    loop {
        match fanout.poll_ready_step() {
            ReadyStep::Ready => return Forward::Done,
            ReadyStep::Blocked => return Forward::Pending,
            ReadyStep::Check(sink) => {
                let outcome = sink.poll_ready();
                assert!(fanout.is_vacant(fanout.cursor_index()));
                match fanout.finish_ready_step(sink, outcome) {
                    StepOutcome::Continue => continue,
                    StepOutcome::Pending => return Forward::Pending,
                    StepOutcome::Escalated => return Forward::Failed,
                }
            }
        }
    }
}

/// Broadcast one item to every present output, as `start_send` would.
fn drive_start_send(fanout: &mut Fanout<MockSink>, item: &str) -> Result<(), ()> {
    let mut index: usize = 0;
    loop {
        match fanout.sweep_step(index) {
            SweepStep::Done => return Ok(()),
            SweepStep::Skip => index += 1,
            SweepStep::Visit(sink) => {
                let accepted = sink.try_send(item);
                assert!(fanout.is_vacant(index));
                match fanout.finish_send(index, sink, accepted) {
                    SendOutcome::Continue(next) => index = next,
                    SendOutcome::Escalated => return Err(()),
                }
            }
        }
    }
}

/// Drive a flush or close sweep over every slot, as `poll_flush` and
/// `poll_close` would.
fn drive_sweep(fanout: &mut Fanout<MockSink>, close: bool) -> Forward {
    let mut index: usize = 0;
    let mut pending = false;
    loop {
        match fanout.sweep_step(index) {
            SweepStep::Done => {
                return if pending { Forward::Pending } else { Forward::Done };
            }
            SweepStep::Skip => index += 1,
            SweepStep::Visit(sink) => {
                let outcome = if close { sink.poll_close() } else { sink.poll_flush() };
                assert!(fanout.is_vacant(index));
                match fanout.finish_sweep_step(index, sink, outcome, pending) {
                    SweepOutcome::Continue(next, p) => {
                        index = next;
                        pending = p;
                    }
                    SweepOutcome::Escalated => return Forward::Failed,
                }
            }
        }
    }
}

fn drive_poll_close(fanout: &mut Fanout<MockSink>) -> Forward {
    drive_sweep(fanout, true)
}

fn drive_poll_flush(fanout: &mut Fanout<MockSink>) -> Forward {
    drive_sweep(fanout, false)
}

/// One attempt to forward one item: readiness first, then the broadcast.
fn drive_send(fanout: &mut Fanout<MockSink>, item: &str) -> Forward {
    match drive_poll_ready(fanout) {
        Forward::Done => match drive_start_send(fanout, item) {
            Ok(()) => Forward::Done,
            Err(()) => Forward::Failed,
        },
        other => other,
    }
}

fn fanout_from_senders(capacities: &[usize]) -> (Fanout<MockSink>, Vec<MockSink>) {
    let mut fanout = Fanout::new();
    let mut receivers = Vec::new();
    for (i, capacity) in capacities.iter().enumerate() {
        let (sender, receiver) = MockSink::with_capacity(*capacity);
        assert!(!fanout.has_output(i as u64));
        fanout.add(i as u64, sender);
        receivers.push(receiver);
    }
    (fanout, receivers)
}

fn make_events(count: usize) -> Vec<String> {
    (0..count).map(|i| format!("line {}", i)).collect()
}

fn remove_sender_from_fanout(fanout: &mut Fanout<MockSink>, sender_id: u64) -> Option<MockSink> {
    let result = fanout.process_control_messages(vec![ControlMessage::Remove(sender_id)]);
    assert!(result.ok, "sending control message should not fail");
    result.detached.into_iter().next()
}

fn replace_sender_in_fanout(
    fanout: &mut Fanout<MockSink>,
    receivers: &mut Vec<MockSink>,
    sender_id: u64,
    capacity: usize,
) -> MockSink {
    let (sender, receiver) = MockSink::with_capacity(capacity);
    let old_receiver = std::mem::replace(&mut receivers[sender_id as usize], receiver);
    let result = fanout
        .process_control_messages(vec![ControlMessage::Replace(sender_id, Some(sender))]);
    assert!(result.ok, "sending control message should not fail");
    old_receiver
}

fn start_sender_replace(
    fanout: &mut Fanout<MockSink>,
    receivers: &mut Vec<MockSink>,
    sender_id: u64,
    capacity: usize,
) -> (MockSink, MockSink) {
    let (sender, receiver) = MockSink::with_capacity(capacity);
    let old_receiver = std::mem::replace(&mut receivers[sender_id as usize], receiver);
    let result = fanout.process_control_messages(vec![ControlMessage::Replace(sender_id, None)]);
    assert!(result.ok, "sending control message should not fail");
    (old_receiver, sender)
}

fn finish_sender_replace(fanout: &mut Fanout<MockSink>, sender_id: u64, sender: MockSink) {
    let result = fanout
        .process_control_messages(vec![ControlMessage::Replace(sender_id, Some(sender))]);
    assert!(result.ok, "sending control message should not fail");
}

#[test]
fn fanout_writes_to_all() {
    let (mut fanout, receivers) = fanout_from_senders(&[2, 2]);
    let events = make_events(2);

    for event in &events {
        assert_eq!(drive_send(&mut fanout, event), Forward::Done, "forward should not fail");
    }

    for receiver in receivers {
        assert_eq!(receiver.collect_ready(), events);
    }
}

#[test]
fn fanout_notready() {
    let (mut fanout, receivers) = fanout_from_senders(&[2, 1, 2]);
    let events = make_events(2);

    // First send should immediately complete because all senders have capacity:
    assert_eq!(drive_send(&mut fanout, &events[0]), Forward::Done);

    // Second send should return pending because sender B is now full:
    assert_eq!(drive_send(&mut fanout, &events[1]), Forward::Pending);

    // Now read an item from each receiver to free up capacity for the second sender:
    for receiver in &receivers {
        assert_eq!(Some(events[0].clone()), receiver.next());
    }

    // Now our second send should actually be able to complete:
    assert_eq!(drive_send(&mut fanout, &events[1]), Forward::Done);

    // And make sure the second item comes through:
    for receiver in &receivers {
        assert_eq!(Some(events[1].clone()), receiver.next());
    }
}

#[test]
fn fanout_grow() {
    let (mut fanout, mut receivers) = fanout_from_senders(&[4, 4]);
    let events = make_events(3);

    // Send in the first two events to our initial two senders:
    assert_eq!(drive_send(&mut fanout, &events[0]), Forward::Done, "send should not fail");
    assert_eq!(drive_send(&mut fanout, &events[1]), Forward::Done, "send should not fail");

    // Now add a third sender:
    let (sender, receiver) = MockSink::with_capacity(4);
    fanout.add(2, sender);
    receivers.push(receiver);

    // Send in the last event which all three senders will now get:
    assert_eq!(drive_send(&mut fanout, &events[2]), Forward::Done, "send should not fail");

    // Make sure the first two senders got all three events, but the third
    // sender only got the last event:
    let expected_events = [&events[..], &events[..], &events[2..]];
    for (i, receiver) in receivers.iter().enumerate() {
        assert_eq!(receiver.collect_ready(), expected_events[i]);
    }
}

#[test]
fn fanout_shrink() {
    let (mut fanout, receivers) = fanout_from_senders(&[4, 4]);
    let events = make_events(3);

    // Send in the first two events to our initial two senders:
    assert_eq!(drive_send(&mut fanout, &events[0]), Forward::Done, "send should not fail");
    assert_eq!(drive_send(&mut fanout, &events[1]), Forward::Done, "send should not fail");

    // Now remove the second sender:
    remove_sender_from_fanout(&mut fanout, 1);

    // Send in the last event which only the first sender will get:
    assert_eq!(drive_send(&mut fanout, &events[2]), Forward::Done, "send should not fail");

    // Make sure the first sender got all three events, but the second sender
    // only got the first two:
    let expected_events = [&events[..], &events[..2]];
    for (i, receiver) in receivers.iter().enumerate() {
        assert_eq!(receiver.collect_ready(), expected_events[i]);
    }
}

#[test]
fn fanout_shrink_when_notready() {
    // When a send is waiting for all outputs to become ready, we can still
    // correctly remove an output that was already ready, one which itself was
    // the cause of not being ready, or one not yet polled for readiness.
    for sender_id in [0u64, 1, 2] {
        let (mut fanout, receivers) = fanout_from_senders(&[2, 1, 2]);
        let events = make_events(2);

        // First send should immediately complete because all senders have capacity:
        assert_eq!(drive_send(&mut fanout, &events[0]), Forward::Done);

        // Second send should return pending because sender B is now full:
        assert_eq!(drive_send(&mut fanout, &events[1]), Forward::Pending);

        // Now read an item from each receiver to free up capacity:
        for receiver in &receivers {
            assert_eq!(Some(events[0].clone()), receiver.next());
        }

        // Drop the given sender before polling again:
        remove_sender_from_fanout(&mut fanout, sender_id);

        // Now our second send should actually be able to complete. Whichever
        // sender we removed does not get the second event:
        assert_eq!(drive_send(&mut fanout, &events[1]), Forward::Done);

        let mut expected_next = [
            Some(events[1].clone()),
            Some(events[1].clone()),
            Some(events[1].clone()),
        ];
        expected_next[sender_id as usize] = None;

        for (i, receiver) in receivers.iter().enumerate() {
            assert_eq!(expected_next[i], receiver.next());
        }
    }
}

#[test]
fn fanout_no_sinks() {
    let mut fanout: Fanout<MockSink> = Fanout::new();
    let events = make_events(2);

    assert_eq!(drive_send(&mut fanout, &events[0]), Forward::Done, "send should not fail");
    assert_eq!(drive_send(&mut fanout, &events[1]), Forward::Done, "send should not fail");
}

#[test]
fn fanout_replace() {
    let (mut fanout, mut receivers) = fanout_from_senders(&[4, 4, 4]);
    let events = make_events(3);

    // First two sends should immediately complete because all senders have capacity:
    assert_eq!(drive_send(&mut fanout, &events[0]), Forward::Done, "send should not fail");
    assert_eq!(drive_send(&mut fanout, &events[1]), Forward::Done, "send should not fail");

    // Replace the first sender with a brand new one before polling again:
    let old_first_receiver = replace_sender_in_fanout(&mut fanout, &mut receivers, 0, 4);

    // And do the third send which should also complete since all senders
    // still have capacity:
    assert_eq!(drive_send(&mut fanout, &events[2]), Forward::Done, "send should not fail");

    // Now make sure that the new "first" sender only got the third event, but
    // that the second and third sender got all three events:
    let expected_events = [&events[2..], &events[..], &events[..]];
    for (i, receiver) in receivers.iter().enumerate() {
        assert_eq!(receiver.collect_ready(), expected_events[i]);
    }

    // And make sure our original "first" sender got the first two events:
    assert_eq!(old_first_receiver.collect_ready(), &events[..2]);
}

#[test]
fn fanout_wait() {
    let (mut fanout, mut receivers) = fanout_from_senders(&[4, 4]);
    let events = make_events(3);

    // First two sends should immediately complete because all senders have capacity:
    assert_eq!(drive_send(&mut fanout, &events[0]), Forward::Done, "send should not fail");
    assert_eq!(drive_send(&mut fanout, &events[1]), Forward::Done, "send should not fail");

    // Now do an empty replace on the first sender, which holds back any
    // writes until a replacement is properly installed:
    let (_old_first_receiver, new_first_sender) =
        start_sender_replace(&mut fanout, &mut receivers, 0, 4);

    // Third send should return pending because now we have an in-flight replacement:
    assert_eq!(drive_send(&mut fanout, &events[2]), Forward::Pending);

    // Finish the replacement, which allows the third send to complete:
    finish_sender_replace(&mut fanout, 0, new_first_sender);
    assert_eq!(drive_send(&mut fanout, &events[2]), Forward::Done, "send should not fail");

    // The new first sender got only the last event, and the second sender got
    // all three:
    let expected_events = [&events[2..], &events[..]];
    for (i, receiver) in receivers.iter().enumerate() {
        assert_eq!(receiver.collect_ready(), expected_events[i]);
    }
}

fn fanout_error(modes: &[Option<ErrorWhen>]) {
    let mut fanout = Fanout::new();
    let mut receivers = Vec::new();

    for (i, mode) in modes.iter().enumerate() {
        let sender = if let Some(when) = *mode {
            MockSink::always_errors(when)
        } else {
            let (sender, receiver) = MockSink::with_capacity(4);
            receivers.push(receiver);
            sender
        };
        fanout.add(i as u64, sender);
    }

    // Forward three events; failing outputs get evicted along the way, and
    // with more than one output registered the fanout itself must not fail:
    let events = make_events(3);
    for event in &events {
        assert_eq!(drive_send(&mut fanout, event), Forward::Done);
    }

    // Every non-erroring receiver still gets all of the events:
    for receiver in receivers {
        assert_eq!(receiver.collect_ready(), events);
    }
}

#[test]
fn fanout_error_poll_first() {
    fanout_error(&[Some(ErrorWhen::Poll), None, None]);
}

#[test]
fn fanout_error_poll_middle() {
    fanout_error(&[None, Some(ErrorWhen::Poll), None]);
}

#[test]
fn fanout_error_poll_last() {
    fanout_error(&[None, None, Some(ErrorWhen::Poll)]);
}

#[test]
fn fanout_error_poll_not_middle() {
    fanout_error(&[Some(ErrorWhen::Poll), None, Some(ErrorWhen::Poll)]);
}

#[test]
fn fanout_error_send_first() {
    fanout_error(&[Some(ErrorWhen::Send), None, None]);
}

#[test]
fn fanout_error_send_middle() {
    fanout_error(&[None, Some(ErrorWhen::Send), None]);
}

#[test]
fn fanout_error_send_last() {
    fanout_error(&[None, None, Some(ErrorWhen::Send)]);
}

#[test]
fn fanout_error_send_not_middle() {
    fanout_error(&[Some(ErrorWhen::Send), None, Some(ErrorWhen::Send)]);
}

#[test]
fn single_output_failure_escalates_on_poll() {
    let mut fanout = Fanout::new();
    fanout.add(0, MockSink::always_errors(ErrorWhen::Poll));
    assert_eq!(drive_send(&mut fanout, "line 0"), Forward::Failed);
}

#[test]
fn single_output_failure_escalates_on_send() {
    let mut fanout = Fanout::new();
    fanout.add(0, MockSink::always_errors(ErrorWhen::Send));
    assert_eq!(drive_send(&mut fanout, "line 0"), Forward::Failed);
}

#[test]
fn add_duplicate_id_is_rejected() {
    let mut fanout = Fanout::new();
    let (sender_a, _ra) = MockSink::with_capacity(1);
    let (sender_b, _rb) = MockSink::with_capacity(1);
    fanout.add(7, sender_a);
    let outcome = fanout.apply(ControlMessage::Add(7, sender_b));
    assert!(matches!(outcome, ApplyOutcome::DuplicateId));
    assert_eq!(fanout.output_count(), 1);
}

#[test]
fn remove_unknown_id_is_rejected() {
    let mut fanout: Fanout<MockSink> = Fanout::new();
    let outcome = fanout.apply(ControlMessage::Remove(3));
    assert!(matches!(outcome, ApplyOutcome::UnknownId));
    let outcome = fanout.apply(ControlMessage::Replace(3, None));
    assert!(matches!(outcome, ApplyOutcome::UnknownId));
}

#[test]
fn remove_detaches_the_handle() {
    let mut fanout = Fanout::new();
    let (sender, receiver) = MockSink::with_capacity(2);
    fanout.add(0, sender);
    let detached = remove_sender_from_fanout(&mut fanout, 0);
    assert_eq!(fanout.output_count(), 0);
    // The detached handle is handed back so the shell can close it:
    let handle = detached.expect("a removed present output hands its handle back");
    assert!(!receiver.is_closed());
    assert!(matches!(handle.poll_close(), SinkPoll::Success));
    assert!(receiver.is_closed());
}

#[test]
fn control_batch_stops_at_first_invalid_message() {
    let mut fanout = Fanout::new();
    let (sender_a, _ra) = MockSink::with_capacity(1);
    let (sender_b, _rb) = MockSink::with_capacity(1);
    let (sender_c, _rc) = MockSink::with_capacity(1);
    fanout.add(0, sender_a);

    let result = fanout.process_control_messages(vec![
        ControlMessage::Add(1, sender_b),
        ControlMessage::Remove(9),
        ControlMessage::Add(2, sender_c),
    ]);
    // The valid prefix was applied; the drain stopped at the unknown id:
    assert!(!result.ok);
    assert!(result.detached.is_empty());
    assert_eq!(fanout.output_count(), 2);
    assert!(fanout.has_output(1));
    assert!(!fanout.has_output(2));
}

#[test]
fn removal_before_cursor_keeps_the_sweep_position() {
    // Outputs 0 and 1 are confirmed ready, output 2 is full, so the cursor
    // rests on index 2. Removing output 0 shifts the cursor down to keep it
    // on the same logical output.
    let (mut fanout, receivers) = fanout_from_senders(&[2, 2, 1]);
    assert_eq!(drive_send(&mut fanout, "line 0"), Forward::Done);
    assert_eq!(drive_send(&mut fanout, "line 1"), Forward::Pending);
    assert_eq!(fanout.cursor_index(), 2);

    remove_sender_from_fanout(&mut fanout, 0);
    assert_eq!(fanout.cursor_index(), 1);

    // Output 2 drains; the send now completes and nobody is double-checked:
    assert_eq!(Some("line 0".to_string()), receivers[2].next());
    assert_eq!(drive_send(&mut fanout, "line 1"), Forward::Done);
    assert_eq!(receivers[1].collect_ready(), vec!["line 0", "line 1"]);
    assert_eq!(receivers[2].collect_ready(), vec!["line 1"]);
}

#[test]
fn close_sweeps_every_output() {
    let (mut fanout, receivers) = fanout_from_senders(&[2, 2]);
    assert_eq!(drive_poll_close(&mut fanout), Forward::Done);
    for receiver in receivers {
        assert!(receiver.is_closed());
    }
}

#[test]
fn close_escalates_for_a_single_failing_output() {
    let mut fanout = Fanout::new();
    fanout.add(0, MockSink::always_errors(ErrorWhen::Poll));
    assert_eq!(drive_poll_close(&mut fanout), Forward::Failed);
}

#[test]
fn flush_is_pending_while_any_output_is_pending() {
    // One un-drained output keeps the flush pending, but the sweep still
    // visits every other slot on the same call.
    let (mut fanout, receivers) = fanout_from_senders(&[2, 2]);
    assert_eq!(drive_send(&mut fanout, "line 0"), Forward::Done);

    // Drain only the second receiver: the first still has the item buffered.
    assert_eq!(Some("line 0".to_string()), receivers[1].next());
    assert_eq!(drive_poll_flush(&mut fanout), Forward::Pending);

    // Drain the first as well; now the flush completes.
    assert_eq!(Some("line 0".to_string()), receivers[0].next());
    assert_eq!(drive_poll_flush(&mut fanout), Forward::Done);
}

#[test]
fn resumed_readiness_sweep_skips_confirmed_outputs() {
    // The cursor makes a resumed readiness sweep start at the output that
    // reported pending, not at the beginning: outputs already confirmed
    // ready are not polled again.
    let (mut fanout, receivers) = fanout_from_senders(&[2, 1]);
    assert_eq!(drive_send(&mut fanout, "line 0"), Forward::Done);
    assert_eq!(receivers[0].ready_polls(), 1);
    assert_eq!(receivers[1].ready_polls(), 1);

    // The second output is now full: the sweep stops on it.
    assert_eq!(drive_send(&mut fanout, "line 1"), Forward::Pending);
    assert_eq!(receivers[0].ready_polls(), 2);
    assert_eq!(receivers[1].ready_polls(), 2);

    // Retrying polls only the pending output, not the confirmed one.
    assert_eq!(drive_send(&mut fanout, "line 1"), Forward::Pending);
    assert_eq!(receivers[0].ready_polls(), 2);
    assert_eq!(receivers[1].ready_polls(), 3);

    // Once it drains, the resumed sweep completes without re-polling the
    // first output.
    assert_eq!(Some("line 0".to_string()), receivers[1].next());
    assert_eq!(drive_send(&mut fanout, "line 1"), Forward::Done);
    assert_eq!(receivers[0].ready_polls(), 2);
}
