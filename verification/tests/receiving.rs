use bytes::Bytes;
use kitsune2_transport_dtn::commit::FileOutcome;
use kitsune2_transport_dtn::journal::{InboundJournal, JournaledBundle};
use kitsune2_transport_dtn::receiver::{Receiver, ReceiverEvent, ReceiverStep};
use kitsune2_transport_dtn::record::RecordStamp;

fn record(counter: u64) -> JournaledBundle {
    let journal = InboundJournal::open(b"/journal".to_vec(), 1024, 512).expect("open");
    let mut run = journal
        .persist(&Bytes::from_static(b"abc"), &Vec::new())
        .expect("admitted")
        .stamped(RecordStamp { nanos: 1, process_id: 1, counter })
        .expect("named");
    for _ in 0..5 {
        run = run.after(FileOutcome::Done);
    }
    run.record().expect("committed")
}

fn listed(counters: &[u64]) -> ReceiverEvent {
    ReceiverEvent::Listed(counters.iter().map(|counter| record(*counter)).collect())
}

fn read() -> ReceiverEvent {
    ReceiverEvent::RecordRead(Bytes::from_static(b"abc"))
}

fn answered(raw: &'static [u8]) -> ReceiverEvent {
    ReceiverEvent::Answered(Bytes::from_static(raw))
}

fn at_poll() -> Receiver {
    Receiver::start().after(listed(&[]))
}

fn at_new_dispatch() -> Receiver {
    at_poll()
        .after(answered(b"abc"))
        .after(ReceiverEvent::Committed(record(9)))
}

#[test]
fn an_empty_journal_is_polled_past_at_once() {
    let receiver = Receiver::start();
    assert_eq!(receiver.step(), ReceiverStep::ListPending);
    assert!(receiver.current().is_none());
    assert_eq!(receiver.after(listed(&[])).step(), ReceiverStep::Poll);
}

#[test]
fn pending_records_are_replayed_in_order_before_polling() {
    let mut receiver = Receiver::start().after(listed(&[1, 2, 3]));
    for counter in [1, 2, 3] {
        assert_eq!(receiver.step(), ReceiverStep::ReadRecord);
        assert_eq!(receiver.current(), Some(&record(counter)));
        assert!(receiver.at_hand().is_none());
        receiver = receiver.after(read());
        assert_eq!(receiver.step(), ReceiverStep::DispatchRecord);
        assert_eq!(receiver.at_hand(), Some(&Bytes::from_static(b"abc")));
        assert_eq!(receiver.current(), Some(&record(counter)));
        receiver = receiver.after(ReceiverEvent::Done);
        assert_eq!(receiver.step(), ReceiverStep::RemoveRecord);
        assert_eq!(receiver.current(), Some(&record(counter)));
        receiver = receiver.after(ReceiverEvent::Done);
    }
    assert_eq!(receiver.step(), ReceiverStep::Poll);
    assert!(receiver.current().is_none());
}

#[test]
fn one_retained_record_prevents_polling() {
    let mut receiver = Receiver::start().after(listed(&[1, 2]));
    receiver = receiver.after(read()).after(ReceiverEvent::Failed);
    assert_eq!(receiver.step(), ReceiverStep::ReadRecord);
    assert_eq!(receiver.current(), Some(&record(2)));
    receiver = receiver
        .after(read())
        .after(ReceiverEvent::Done)
        .after(ReceiverEvent::Done);
    assert_eq!(receiver.step(), ReceiverStep::Sleep);
    receiver = receiver.after(ReceiverEvent::Done);
    assert_eq!(receiver.step(), ReceiverStep::ListPending);
    receiver = receiver
        .after(listed(&[1]))
        .after(read())
        .after(ReceiverEvent::Failed);
    assert_eq!(receiver.step(), ReceiverStep::Sleep);
}

#[test]
fn a_new_bundle_is_committed_before_dispatch_and_removed_after() {
    let receiver = at_poll().after(answered(b"abc"));
    assert_eq!(receiver.step(), ReceiverStep::Persist);
    assert_eq!(receiver.at_hand(), Some(&Bytes::from_static(b"abc")));
    let receiver = receiver.after(ReceiverEvent::Committed(record(9)));
    assert_eq!(receiver.step(), ReceiverStep::DispatchNew);
    assert_eq!(receiver.at_hand(), Some(&Bytes::from_static(b"abc")));
    assert_eq!(receiver.current(), Some(&record(9)));
    let receiver = receiver.after(ReceiverEvent::Done);
    assert_eq!(receiver.step(), ReceiverStep::RemoveNew);
    assert_eq!(receiver.current(), Some(&record(9)));
    let receiver = receiver.after(ReceiverEvent::Done);
    assert_eq!(receiver.step(), ReceiverStep::Poll);
}

#[test]
fn a_failed_dispatch_waits_and_replays() {
    let receiver = at_new_dispatch().after(ReceiverEvent::Failed);
    assert_eq!(receiver.step(), ReceiverStep::Sleep);
    assert_eq!(receiver.after(ReceiverEvent::Done).step(), ReceiverStep::ListPending);
}

#[test]
fn empty_queues_and_failed_polls_wait() {
    for event in [answered(b""), answered(b"Nothing to receive"), ReceiverEvent::Failed] {
        let receiver = at_poll().after(event);
        assert_eq!(receiver.step(), ReceiverStep::Sleep);
        assert_eq!(receiver.after(ReceiverEvent::Done).step(), ReceiverStep::ListPending);
    }
}

#[test]
fn journal_failures_stop_the_receiver_for_good() {
    let stopped = [
        Receiver::start().after(ReceiverEvent::Failed),
        Receiver::start().after(listed(&[1])).after(ReceiverEvent::Failed),
        Receiver::start()
            .after(listed(&[1]))
            .after(read())
            .after(ReceiverEvent::Done)
            .after(ReceiverEvent::Failed),
        at_poll().after(answered(b"abc")).after(ReceiverEvent::Failed),
        at_new_dispatch().after(ReceiverEvent::Done).after(ReceiverEvent::Failed),
    ];
    for receiver in stopped {
        assert_eq!(receiver.step(), ReceiverStep::Stop);
        let receiver = receiver
            .after(ReceiverEvent::Done)
            .after(listed(&[]))
            .after(answered(b"abc"))
            .after(read())
            .after(ReceiverEvent::Committed(record(1)));
        assert_eq!(receiver.step(), ReceiverStep::Stop);
        assert!(receiver.current().is_none());
    }
}

#[test]
fn events_that_do_not_belong_stop_the_receiver() {
    assert_eq!(Receiver::start().after(ReceiverEvent::Done).step(), ReceiverStep::Stop);
    assert_eq!(at_poll().after(ReceiverEvent::Done).step(), ReceiverStep::Stop);
    assert_eq!(at_new_dispatch().after(listed(&[])).step(), ReceiverStep::Stop);
}

/// The bundle that is told apart by a number.
fn bundle(id: u64) -> Bytes {
    Bytes::from(format!("bundle {id}"))
}

/// A daemon, a journal and a handler in memory.
struct Surroundings {
    daemon: Vec<u64>,
    journal: Vec<u64>,
    at_hand: Option<u64>,
    committed: Vec<u64>,
    delivered: Vec<u64>,
}

impl Surroundings {
    fn perform(&mut self, receiver: &Receiver, dispatch_fails: bool) -> ReceiverEvent {
        match receiver.step() {
            ReceiverStep::ListPending => {
                self.journal.sort();
                listed(&self.journal)
            }
            ReceiverStep::ReadRecord => {
                let current = self.current(receiver);
                assert!(self.journal.contains(&current));
                ReceiverEvent::RecordRead(bundle(current))
            }
            ReceiverStep::DispatchRecord | ReceiverStep::DispatchNew => {
                let current = self.current(receiver);
                assert!(self.journal.contains(&current));
                assert_eq!(receiver.at_hand(), Some(&bundle(current)));
                if dispatch_fails {
                    ReceiverEvent::Failed
                } else {
                    self.delivered.push(current);
                    ReceiverEvent::Done
                }
            }
            ReceiverStep::RemoveRecord | ReceiverStep::RemoveNew => {
                let current = self.current(receiver);
                assert!(self.delivered.contains(&current));
                self.journal.retain(|id| *id != current);
                ReceiverEvent::Done
            }
            ReceiverStep::Poll => {
                assert!(self.journal.is_empty());
                if self.daemon.is_empty() {
                    answered(b"Nothing to receive")
                } else {
                    let id = self.daemon.remove(0);
                    self.at_hand = Some(id);
                    ReceiverEvent::Answered(bundle(id))
                }
            }
            ReceiverStep::Persist => {
                let id = self.at_hand.take().expect("a bundle is at hand");
                assert_eq!(receiver.at_hand(), Some(&bundle(id)));
                self.journal.push(id);
                self.committed.push(id);
                ReceiverEvent::Committed(record(id))
            }
            ReceiverStep::Sleep => ReceiverEvent::Done,
            ReceiverStep::Stop => ReceiverEvent::Failed,
        }
    }

    fn current(&self, receiver: &Receiver) -> u64 {
        let current = receiver.current().expect("a record is current");
        (0..10)
            .find(|id| record(*id) == *current)
            .expect("a known record")
    }
}

#[test]
fn committed_bundles_survive_a_restart_at_any_step() {
    for crash in 0..30 {
        for failing in 0..30 {
            let mut around = Surroundings {
                daemon: vec![3, 4, 5],
                journal: vec![2, 1],
                at_hand: None,
                committed: vec![1, 2],
                delivered: Vec::new(),
            };
            let mut receiver = Receiver::start();
            for step in 0..80 {
                if step == crash {
                    receiver = Receiver::start();
                    around.at_hand = None;
                }
                let event = around.perform(&receiver, step == failing);
                receiver = receiver.after(event);
                for id in &around.committed {
                    assert!(around.journal.contains(id) || around.delivered.contains(id));
                }
            }
            assert!(around.journal.is_empty());
            assert!(around.daemon.is_empty());
            for id in &around.committed {
                assert!(around.delivered.contains(id));
            }
        }
    }
}
