use lahar::async_queue::{Completions, PendingBatch};
use lahar::fence::{Dead, Outstanding, SubmitState};
use lahar::submission::{is_complete, CommandRecycler, DrainState, Message, Work};

fn execute(cmd: char, time: u64) -> Message<char> {
    Message::Execute(Work { cmd, time })
}

#[test]
fn gap_stalls_until_the_missing_number_resolves() {
    let mut q: DrainState<char> = DrainState::new();
    // handle A: begin, end -> number 1; handle B: begin -> number 2, not finished
    assert!(q.receive(execute('a', 1)));
    let batch = q.drive().unwrap();
    assert_eq!(batch.cmds, vec!['a']);
    assert_eq!(batch.signal, 1);
    assert_eq!(q.first_unsubmitted(), 2);
    // number 3 arrives but 2 is still missing
    assert!(q.receive(execute('c', 3)));
    assert!(q.drive().is_none());
    assert_eq!(q.first_unsubmitted(), 2);
    assert_eq!(q.pending_len(), 1);
    // B resets its work: 2 resolves without commands and 3 follows
    assert!(q.receive(Message::Reset(2)));
    let batch = q.drive().unwrap();
    assert_eq!(batch.cmds, vec!['c']);
    assert_eq!(batch.signal, 3);
    assert_eq!(q.pending_len(), 0);
}

#[test]
fn gap_closed_by_end_submits_in_number_order() {
    let mut q: DrainState<char> = DrainState::new();
    assert!(q.receive(execute('d', 4)));
    assert!(q.receive(execute('b', 2)));
    assert!(q.receive(execute('c', 3)));
    assert!(q.drive().is_none());
    assert!(q.receive(execute('a', 1)));
    let batch = q.drive().unwrap();
    assert_eq!(batch.cmds, vec!['a', 'b', 'c', 'd']);
    assert_eq!(batch.signal, 4);
    assert_eq!(q.last_submitted(), 4);
}

#[test]
fn run_of_resets_advances_without_a_batch() {
    let mut q: DrainState<char> = DrainState::new();
    assert!(q.receive(Message::Reset(1)));
    assert!(q.receive(Message::Reset(2)));
    assert!(q.drive().is_none());
    assert_eq!(q.first_unsubmitted(), 3);
    assert!(q.receive(execute('x', 3)));
    let batch = q.drive().unwrap();
    assert_eq!(batch.signal, 3);
}

#[test]
fn duplicate_and_stale_numbers_are_refused() {
    let mut q: DrainState<char> = DrainState::new();
    assert!(!q.receive(execute('z', 0)));
    assert!(q.receive(execute('b', 2)));
    assert!(!q.receive(Message::Reset(2)));
    assert!(q.receive(execute('a', 1)));
    let _ = q.drive();
    assert!(!q.receive(execute('a', 1)));
    assert!(!q.receive(execute('m', u64::MAX)));
}

#[test]
fn park_and_drain_update_the_signaled_mark() {
    let mut q: DrainState<char> = DrainState::new();
    assert_eq!(q.first_unsignaled(), 1);
    assert!(q.receive(execute('a', 1)));
    assert!(q.receive(execute('b', 2)));
    let _ = q.drive();
    q.signaled(1);
    assert_eq!(q.first_unsignaled(), 2);
    q.drained();
    assert_eq!(q.first_unsignaled(), 3);
}

#[test]
fn counter_reports_completion_only_up_to_its_value() {
    assert!(is_complete(5, 5));
    assert!(is_complete(5, 1));
    assert!(!is_complete(5, 6));
}

#[test]
fn recycler_reuses_buffers_once_their_number_passes() {
    let mut r: CommandRecycler<u32> = CommandRecycler::new(vec![10]);
    let cmd = r.take_spare().unwrap();
    assert_eq!(cmd, 10);
    r.track(Work { cmd, time: 1 });
    assert!(r.take_spare().is_none());
    r.reclaim(0);
    assert_eq!(r.spare_len(), 0);
    r.refill(vec![20, 21]);
    let second = r.take_spare().unwrap();
    assert_eq!(second, 21);
    r.track(Work { cmd: second, time: 2 });
    r.reclaim(1);
    assert_eq!(r.in_flight_len(), 1);
    assert_eq!(r.take_spare(), Some(10));
    assert_eq!(r.take_spare(), Some(20));
    r.reclaim(5);
    assert_eq!(r.in_flight_len(), 0);
    assert_eq!(r.take_spare(), Some(21));
}

#[test]
fn pending_batch_refuses_work_once_closed() {
    let mut p: PendingBatch<u8> = PendingBatch::new();
    assert!(p.take().is_none());
    assert_eq!(p.push(1), Ok(1));
    assert_eq!(p.push(2), Ok(1));
    assert_eq!(p.take(), Some(vec![1, 2]));
    assert_eq!(p.seq(), 2);
    assert_eq!(p.push(3), Ok(2));
    assert_eq!(p.close(), vec![3]);
    assert_eq!(p.push(4), Err(Dead));
    assert_eq!(Dead.message(), "queue destroyed");
}

#[test]
fn completions_wake_finished_batches_in_order() {
    let mut c: Completions<&str> = Completions::new();
    assert_eq!(c.submitted("first"), 1);
    assert_eq!(c.submitted("second"), 2);
    assert_eq!(c.submitted("third"), 3);
    assert_eq!(c.broadcast(2), vec!["first", "second"]);
    assert_eq!(c.batches_completed(), 2);
    assert_eq!(c.broadcast(2), Vec::<&str>::new());
    assert_eq!(c.broadcast(3), vec!["third"]);
    assert_eq!(c.batches_received(), 3);
}

#[test]
fn submit_state_hands_back_the_waiter() {
    let mut s: SubmitState<u32> = SubmitState::Unsubmitted;
    assert!(!s.is_done());
    assert!(!s.wait(7));
    assert_eq!(s.submitted(), Some(7));
    assert!(s.is_done());
    assert!(s.wait(8));
    assert_eq!(s.submitted(), None);
}

#[test]
fn poller_takes_exactly_the_signaled_waiters() {
    let mut w: Outstanding<&str> = Outstanding::new();
    w.push("a");
    w.push("b");
    w.push("c");
    w.push("d");
    assert_eq!(w.take_done(&vec![false, true, false, true]), vec!["b", "d"]);
    assert_eq!(w.len(), 2);
    assert_eq!(w.as_slice(), &["a", "c"]);
    assert_eq!(w.take_done(&vec![false, false]), Vec::<&str>::new());
    assert_eq!(w.take_done(&vec![true, true]), vec!["a", "c"]);
    assert_eq!(w.len(), 0);
}
