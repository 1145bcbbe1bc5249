//! The receiver: replays what the journal holds, takes bundles off the daemon's
//! queue, commits each to the journal, hands it on and removes it.
//!
//! The receiver says what is to be done next and is told what came of it. A bundle
//! is taken off the daemon's queue only while the journal holds none back.

use bytes::Bytes;
use vstd::prelude::*;
#[allow(unused_imports)]
use vstd::string::*;

use crate::body::is_empty_queue;
use crate::journal::JournaledBundle;
#[allow(unused_imports)]
use crate::body::empty_queue_answer;
#[allow(unused_imports)]
use crate::guarantees::{
    distinct_names, law_listing_shows_committed_records, law_replay_covers_journal,
};
#[allow(unused_imports)]
use crate::journal::{
    listed_names, lists, pending_names, record_names, JournalEntry, JournalView,
};
#[allow(unused_imports)]
use crate::outside::bytes_held;

verus! {

/// What the receiver does next.
#[derive(Clone, Copy, Debug, PartialEq, Eq, Structural)]
pub enum ReceiverStep {
    /// List the pending records of the journal.
    ListPending,
    /// Read the current record.
    ReadRecord,
    /// Dispatch the bytes at hand, which were read from the current record.
    DispatchRecord,
    /// Remove the current record, which was dispatched.
    RemoveRecord,
    /// Take the next bundle off the daemon's queue.
    Poll,
    /// Commit the bytes at hand, which were received, to the journal.
    Persist,
    /// Dispatch the bytes at hand, which were committed.
    DispatchNew,
    /// Remove the record of the bundle, which was dispatched.
    RemoveNew,
    /// Wait for the poll interval.
    Sleep,
    /// Receive no more.
    Stop,
}

/// What came of a step.
#[derive(Debug)]
pub enum ReceiverEvent {
    /// The pending records, in the order in which they are replayed.
    Listed(Vec<JournaledBundle>),
    /// The step was done.
    Done,
    /// The step failed.
    Failed,
    /// The current record was read, and holds these bytes.
    RecordRead(Bytes),
    /// The daemon answered with these bytes.
    Answered(Bytes),
    /// The bundle was committed as this record.
    Committed(JournaledBundle),
}

/// A record, by the directory and the name that it has.
pub type RecordId = (Seq<u8>, Seq<char>);

/// An event as a mathematical value.
pub enum EventView {
    Listed(Seq<RecordId>),
    Done,
    Failed,
    RecordRead(Seq<u8>),
    Answered(Seq<u8>),
    Committed(RecordId),
}

impl View for ReceiverEvent {
    type V = EventView;

    open spec fn view(&self) -> EventView {
        match self {
            ReceiverEvent::Listed(records) => EventView::Listed(
                records@.map_values(|record: JournaledBundle| record@),
            ),
            ReceiverEvent::Done => EventView::Done,
            ReceiverEvent::Failed => EventView::Failed,
            ReceiverEvent::RecordRead(raw) => EventView::RecordRead(bytes_held(*raw)),
            ReceiverEvent::Answered(raw) => EventView::Answered(bytes_held(*raw)),
            ReceiverEvent::Committed(record) => EventView::Committed(record@),
        }
    }
}

/// The state of a receiver.
#[verifier::ext_equal]
pub struct ReceiverView {
    /// What it does next.
    pub step: ReceiverStep,
    /// The records that are still to be replayed in this pass; the first is the
    /// current one.
    pub queue: Seq<RecordId>,
    /// Whether a record of this pass could not be dispatched and was kept.
    pub retained: bool,
    /// The record of the bundle that was received last, while it is being handled.
    pub fresh: Option<RecordId>,
    /// The bytes that were read or received last, while they are being handled.
    pub at_hand: Option<Seq<u8>>,
}

/// A receiver that waits or works without any record at hand.
pub open spec fn idle(step: ReceiverStep) -> ReceiverView {
    ReceiverView { step, queue: Seq::empty(), retained: false, fresh: None, at_hand: None }
}

/// Goes on with the replay: the next record is read; after the last, the daemon is
/// polled, unless a record was kept.
pub open spec fn replay(queue: Seq<RecordId>, retained: bool) -> ReceiverView {
    if queue.len() > 0 {
        ReceiverView {
            step: ReceiverStep::ReadRecord,
            queue,
            retained,
            fresh: None,
            at_hand: None,
        }
    } else if retained {
        idle(ReceiverStep::Sleep)
    } else {
        idle(ReceiverStep::Poll)
    }
}

/// Whether the daemon's answer says that its queue is empty.
pub open spec fn says_empty(answer: Seq<u8>) -> bool {
    answer.len() == 0 || answer == empty_queue_answer()
}

/// The state that follows an event. What the step cannot lead to stops the receiver,
/// as does every failure that leaves the state of the journal in doubt.
pub open spec fn receive_next(v: ReceiverView, event: EventView) -> ReceiverView {
    match (v.step, event) {
        (ReceiverStep::ListPending, EventView::Listed(records)) => replay(records, false),
        (ReceiverStep::ReadRecord, EventView::RecordRead(raw)) => ReceiverView {
            step: ReceiverStep::DispatchRecord,
            at_hand: Some(raw),
            ..v
        },
        (ReceiverStep::DispatchRecord, EventView::Done) => ReceiverView {
            step: ReceiverStep::RemoveRecord,
            ..v
        },
        (ReceiverStep::DispatchRecord, EventView::Failed) => replay(v.queue.skip(1), true),
        (ReceiverStep::RemoveRecord, EventView::Done) => replay(v.queue.skip(1), v.retained),
        (ReceiverStep::Poll, EventView::Failed) => idle(ReceiverStep::Sleep),
        (ReceiverStep::Poll, EventView::Answered(raw)) => if says_empty(raw) {
            idle(ReceiverStep::Sleep)
        } else {
            ReceiverView { at_hand: Some(raw), ..idle(ReceiverStep::Persist) }
        },
        (ReceiverStep::Persist, EventView::Committed(record)) => ReceiverView {
            fresh: Some(record),
            at_hand: v.at_hand,
            ..idle(ReceiverStep::DispatchNew)
        },
        (ReceiverStep::DispatchNew, EventView::Done) => ReceiverView {
            step: ReceiverStep::RemoveNew,
            ..v
        },
        (ReceiverStep::DispatchNew, EventView::Failed) => idle(ReceiverStep::Sleep),
        (ReceiverStep::RemoveNew, EventView::Done) => idle(ReceiverStep::Poll),
        (ReceiverStep::Sleep, EventView::Done) => idle(ReceiverStep::ListPending),
        _ => idle(ReceiverStep::Stop),
    }
}

/// The receiver of one transport.
#[derive(Debug)]
pub struct Receiver {
    step: ReceiverStep,
    records: Vec<JournaledBundle>,
    next: usize,
    retained: bool,
    fresh: Option<JournaledBundle>,
    at_hand: Option<Bytes>,
}

impl View for Receiver {
    type V = ReceiverView;

    closed spec fn view(&self) -> ReceiverView {
        ReceiverView {
            step: self.step,
            queue: self.records@.skip(self.next as int).map_values(
                |record: JournaledBundle| record@,
            ),
            retained: self.retained,
            fresh: match self.fresh {
                Some(record) => Some(record@),
                None => None,
            },
            at_hand: match self.at_hand {
                Some(raw) => Some(bytes_held(raw)),
                None => None,
            },
        }
    }
}

impl Receiver {
    #[verifier::type_invariant]
    spec fn in_range(self) -> bool {
        &&& self.next <= self.records@.len() <= usize::MAX
        &&& (self.step is ReadRecord || self.step is DispatchRecord || self.step is RemoveRecord)
            ==> self.next < self.records@.len()
    }

    /// A receiver that starts with what the journal holds.
    pub fn start() -> (r: Receiver)
        ensures
            r@ == idle(ReceiverStep::ListPending),
    {
        Receiver::at(ReceiverStep::ListPending)
    }

    /// A receiver without any record at hand.
    fn at(step: ReceiverStep) -> (r: Receiver)
        requires
            !(step is ReadRecord || step is DispatchRecord || step is RemoveRecord),
        ensures
            r@ == idle(step),
    {
        let r: Receiver = Receiver {
            step,
            records: Vec::new(),
            next: 0,
            retained: false,
            fresh: None,
            at_hand: None,
        };
        assert(r@ =~= idle(step));
        r
    }

    /// Goes on with the replay from the given record.
    fn replay_from(records: Vec<JournaledBundle>, next: usize, retained: bool) -> (r: Receiver)
        requires
            next <= records@.len(),
        ensures
            r@ == replay(
                records@.skip(next as int).map_values(|record: JournaledBundle| record@),
                retained,
            ),
    {
        if next < records.len() {
            Receiver {
                step: ReceiverStep::ReadRecord,
                records,
                next,
                retained,
                fresh: None,
                at_hand: None,
            }
        } else if retained {
            Receiver::at(ReceiverStep::Sleep)
        } else {
            Receiver::at(ReceiverStep::Poll)
        }
    }

    /// What the receiver does next.
    pub fn step(&self) -> (r: ReceiverStep)
        ensures
            r == self@.step,
    {
        self.step
    }

    /// The record that the step is about: the record of the new bundle where there is
    /// one, or else the first of those that are still to be replayed.
    pub fn current(&self) -> (r: Option<&JournaledBundle>)
        ensures
            match r {
                Some(record) => if self@.fresh is Some {
                    self@.fresh == Some(record@)
                } else {
                    self@.queue.len() > 0 && self@.queue[0] == record@
                },
                None => self@.fresh is None && self@.queue.len() == 0,
            },
    {
        proof {
            use_type_invariant(self);
        }
        match &self.fresh {
            Some(record) => Some(record),
            None => if self.next < self.records.len() {
                Some(&self.records[self.next])
            } else {
                None
            },
        }
    }

    /// The bytes that are dispatched or committed next.
    pub fn at_hand(&self) -> (r: Option<&Bytes>)
        ensures
            match r {
                Some(raw) => self@.at_hand == Some(bytes_held(*raw)),
                None => self@.at_hand is None,
            },
    {
        match &self.at_hand {
            Some(raw) => Some(raw),
            None => None,
        }
    }

    /// The receiver after an event.
    pub fn after(self, event: ReceiverEvent) -> (r: Receiver)
        ensures
            r@ == receive_next(self@, event@),
    {
        proof {
            use_type_invariant(&self);
            assert(self.next < self.records@.len() ==> self.records@.skip(
                self.next + 1,
            ).map_values(|record: JournaledBundle| record@) =~= self@.queue.skip(1));
        }
        let Receiver { step, records, next, retained, fresh, at_hand } = self;
        match (step, event) {
            (ReceiverStep::ListPending, ReceiverEvent::Listed(records)) => {
                assert(records@.skip(0) =~= records@);
                Receiver::replay_from(records, 0, false)
            },
            (ReceiverStep::ReadRecord, ReceiverEvent::RecordRead(raw)) => Receiver {
                step: ReceiverStep::DispatchRecord,
                records,
                next,
                retained,
                fresh,
                at_hand: Some(raw),
            },
            (ReceiverStep::DispatchRecord, ReceiverEvent::Done) => Receiver {
                step: ReceiverStep::RemoveRecord,
                records,
                next,
                retained,
                fresh,
                at_hand,
            },
            (ReceiverStep::DispatchRecord, ReceiverEvent::Failed) => Receiver::replay_from(
                records,
                next + 1,
                true,
            ),
            (ReceiverStep::RemoveRecord, ReceiverEvent::Done) => Receiver::replay_from(
                records,
                next + 1,
                retained,
            ),
            (ReceiverStep::Poll, ReceiverEvent::Failed) => Receiver::at(ReceiverStep::Sleep),
            (ReceiverStep::Poll, ReceiverEvent::Answered(raw)) => {
                if is_empty_queue(&raw) {
                    Receiver::at(ReceiverStep::Sleep)
                } else {
                    let r: Receiver = Receiver {
                        step: ReceiverStep::Persist,
                        records: Vec::new(),
                        next: 0,
                        retained: false,
                        fresh: None,
                        at_hand: Some(raw),
                    };
                    assert(r@.queue =~= Seq::<RecordId>::empty());
                    r
                }
            },
            (ReceiverStep::Persist, ReceiverEvent::Committed(record)) => {
                let r: Receiver = Receiver {
                    step: ReceiverStep::DispatchNew,
                    records: Vec::new(),
                    next: 0,
                    retained: false,
                    fresh: Some(record),
                    at_hand,
                };
                assert(r@.queue =~= Seq::<RecordId>::empty());
                r
            },
            (ReceiverStep::DispatchNew, ReceiverEvent::Done) => Receiver {
                step: ReceiverStep::RemoveNew,
                records,
                next,
                retained,
                fresh,
                at_hand,
            },
            (ReceiverStep::DispatchNew, ReceiverEvent::Failed) => Receiver::at(
                ReceiverStep::Sleep,
            ),
            (ReceiverStep::RemoveNew, ReceiverEvent::Done) => Receiver::at(ReceiverStep::Poll),
            (ReceiverStep::Sleep, ReceiverEvent::Done) => Receiver::at(ReceiverStep::ListPending),
            _ => Receiver::at(ReceiverStep::Stop),
        }
    }
}


/// What surrounds a receiver.
#[verifier::ext_equal]
pub struct World {
    /// The records that the journal holds, each with its contents.
    pub pending: Map<RecordId, Seq<u8>>,
    /// The bundle that was received and is not committed yet.
    pub hand: Option<Seq<u8>>,
    /// The bundles that were committed to the journal, in order.
    pub committed: Seq<Seq<u8>>,
    /// The records that were handed on, in order, each with its contents.
    pub delivered: Seq<(RecordId, Seq<u8>)>,
}

impl World {
    /// Whether a record was handed on with the given contents.
    pub open spec fn handed_on(self, id: RecordId, contents: Seq<u8>) -> bool {
        self.delivered.contains((id, contents))
    }

    /// Whether a bundle is kept or was handed on.
    pub open spec fn accounted_for(self, contents: Seq<u8>) -> bool {
        ||| exists|id: RecordId| #[trigger]
            self.pending.contains_key(id) && self.pending[id] == contents
        ||| exists|id: RecordId| #[trigger] self.handed_on(id, contents)
    }

    /// The world after bytes were handed on for a record.
    pub open spec fn after_delivery(self, id: RecordId, raw: Seq<u8>) -> World {
        World { delivered: self.delivered.push((id, raw)), ..self }
    }

    /// The world after bytes were committed under the given name.
    pub open spec fn after_commit(self, id: RecordId, raw: Seq<u8>) -> World {
        World {
            pending: self.pending.insert(id, raw),
            hand: None,
            committed: self.committed.push(raw),
            ..self
        }
    }

    /// The world after a record was removed.
    pub open spec fn after_removal(self, id: RecordId) -> World {
        World { pending: self.pending.remove(id), ..self }
    }
}

/// Whether the step is about the first of the records to be replayed.
pub open spec fn replays(step: ReceiverStep) -> bool {
    step is ReadRecord || step is DispatchRecord || step is RemoveRecord
}

/// The effect of a step on the world, given what came of it.
///
/// The daemon has handed a bundle over where its answer is neither empty nor the words
/// `Nothing to receive`. A listing names every record of the journal once. Reading a record gives what it holds.
/// What is handed on and what is committed are the bytes that the receiver has at hand. A
/// commit uses a name that the journal does not hold. A removal that failed may have removed
/// the record.
pub open spec fn takes_effect(v: ReceiverView, event: EventView, w: World, after: World) -> bool {
    match (v.step, event) {
        (ReceiverStep::ListPending, EventView::Listed(records)) => {
            &&& after == w
            &&& records.no_duplicates()
            &&& records.to_set() == w.pending.dom()
        },
        (ReceiverStep::ReadRecord, EventView::RecordRead(raw)) => after == w && raw
            == w.pending[v.queue[0]],
        (ReceiverStep::DispatchRecord, EventView::Done) => after == w.after_delivery(
            v.queue[0],
            v.at_hand->0,
        ),
        (ReceiverStep::DispatchNew, EventView::Done) => after == w.after_delivery(
            v.fresh->0,
            v.at_hand->0,
        ),
        (ReceiverStep::RemoveRecord, EventView::Done) => after == w.after_removal(v.queue[0]),
        (ReceiverStep::RemoveNew, EventView::Done) => after == w.after_removal(v.fresh->0),
        (ReceiverStep::RemoveRecord, EventView::Failed) => after == w || after
            == w.after_removal(v.queue[0]),
        (ReceiverStep::RemoveNew, EventView::Failed) => after == w || after == w.after_removal(
            v.fresh->0,
        ),
        (ReceiverStep::Poll, EventView::Answered(raw)) => if raw.len() == 0 || raw
            == "Nothing to receive".spec_bytes() {
            after == w
        } else {
            after == World { hand: Some(raw), ..w }
        },
        (ReceiverStep::Persist, EventView::Committed(id)) => {
            &&& !w.pending.contains_key(id)
            &&& after == w.after_commit(id, v.at_hand->0)
        },
        _ => after == w,
    }
}

/// A receiver and its world.
pub struct Moment {
    pub receiver: ReceiverView,
    pub world: World,
}

/// One step of a receiver, with what came of it.
pub open spec fn steps(m: Moment, event: EventView, after: Moment) -> bool {
    &&& takes_effect(m.receiver, event, m.world, after.world)
    &&& after.receiver == receive_next(m.receiver, event)
}

/// The bundle at hand had been written when the process ended, and its record is committed
/// when the next one starts.
pub open spec fn recovers(w: World, id: RecordId, after: World) -> bool {
    &&& w.hand is Some
    &&& !w.pending.contains_key(id)
    &&& after == w.after_commit(id, w.hand->0)
}

/// The process ended, at any point, and a new one started. What the journal holds is not
/// gone; what was at hand is, unless it is recovered.
pub open spec fn restarts(m: Moment, after: Moment) -> bool {
    &&& after.receiver == idle(ReceiverStep::ListPending)
    &&& {
        ||| after.world == World { hand: None, ..m.world }
        ||| exists|id: RecordId| #[trigger] recovers(m.world, id, after.world)
    }
}

/// Whether one moment can follow another.
pub open spec fn follows(m: Moment, after: Moment) -> bool {
    restarts(m, after) || exists|event: EventView| #[trigger] steps(m, event, after)
}

/// Whether the moments are a history: it begins with a receiver that starts, on a journal
/// that holds whatever it holds, before anything was committed or handed on.
pub open spec fn is_history(history: Seq<Moment>) -> bool {
    &&& history.len() > 0
    &&& history[0].receiver == idle(ReceiverStep::ListPending)
    &&& history[0].world.hand is None
    &&& history[0].world.committed.len() == 0
    &&& history[0].world.delivered.len() == 0
    &&& forall|i: int|
        0 < i < history.len() ==> follows(history[i - 1], #[trigger] history[i])
}

/// What holds at every moment of a history.
pub open spec fn sound(m: Moment) -> bool {
    let v = m.receiver;
    let w = m.world;
    &&& v.queue.no_duplicates()
    &&& replays(v.step) ==> {
        &&& v.queue.len() > 0
        &&& v.fresh is None
        &&& forall|id: RecordId| v.queue.contains(id) ==> #[trigger] w.pending.contains_key(id)
        &&& !v.retained ==> forall|id: RecordId| #[trigger]
            w.pending.contains_key(id) ==> v.queue.contains(id)
    }
    &&& (v.step is Poll || v.step is Persist) ==> forall|id: RecordId|
        !#[trigger] w.pending.contains_key(id)
    &&& (v.step is DispatchNew || v.step is RemoveNew) ==> {
        &&& v.fresh is Some
        &&& w.pending.contains_key(v.fresh->0)
        &&& forall|id: RecordId| #[trigger] w.pending.contains_key(id) ==> id == v.fresh->0
    }
    &&& v.step is RemoveRecord ==> w.handed_on(v.queue[0], w.pending[v.queue[0]])
    &&& v.step is RemoveNew ==> w.handed_on(v.fresh->0, w.pending[v.fresh->0])
    &&& w.hand is Some ==> v.step is Persist || v.step is Stop
    &&& v.step is Persist ==> v.at_hand is Some && v.at_hand == w.hand
    &&& v.step is DispatchRecord ==> v.at_hand == Some(w.pending[v.queue[0]])
    &&& v.step is DispatchNew ==> v.at_hand == Some(w.pending[v.fresh->0])
    &&& forall|i: int|
        0 <= i < w.committed.len() ==> w.accounted_for(#[trigger] w.committed[i])
}

/// A bundle that is accounted for stays so when a record is handed on.
proof fn lemma_delivery_keeps_account(w: World, id: RecordId, raw: Seq<u8>, contents: Seq<u8>)
    requires
        w.accounted_for(contents),
    ensures
        w.after_delivery(id, raw).accounted_for(contents),
{
    let after = w.after_delivery(id, raw);
    if exists|k: RecordId| #[trigger] w.pending.contains_key(k) && w.pending[k] == contents {
        let k = choose|k: RecordId| #[trigger]
            w.pending.contains_key(k) && w.pending[k] == contents;
        assert(after.pending.contains_key(k));
    } else {
        let k = choose|k: RecordId| #[trigger] w.handed_on(k, contents);
        let i = choose|i: int|
            0 <= i < w.delivered.len() && w.delivered[i] == (k, contents);
        assert(after.delivered[i] == (k, contents));
        assert(after.handed_on(k, contents));
    }
}

/// A bundle that is accounted for stays so when a record that was handed on is removed.
proof fn lemma_removal_keeps_account(w: World, id: RecordId, contents: Seq<u8>)
    requires
        w.accounted_for(contents),
        w.handed_on(id, w.pending[id]),
    ensures
        w.after_removal(id).accounted_for(contents),
{
    let after = w.after_removal(id);
    if exists|k: RecordId| #[trigger] w.pending.contains_key(k) && w.pending[k] == contents {
        let k = choose|k: RecordId| #[trigger]
            w.pending.contains_key(k) && w.pending[k] == contents;
        if k == id {
            assert(after.handed_on(id, contents));
        } else {
            assert(after.pending.contains_key(k));
        }
    } else {
        let k = choose|k: RecordId| #[trigger] w.handed_on(k, contents);
        assert(after.handed_on(k, contents));
    }
}

/// A bundle that is accounted for stays so when another record is committed, and so is
/// the bundle that was committed.
proof fn lemma_commit_keeps_account(w: World, id: RecordId, raw: Seq<u8>, after: World)
    requires
        !w.pending.contains_key(id),
        after == w.after_commit(id, raw),
        forall|i: int|
            0 <= i < w.committed.len() ==> w.accounted_for(#[trigger] w.committed[i]),
    ensures
        forall|i: int|
            0 <= i < after.committed.len() ==> after.accounted_for(#[trigger] after.committed[i]),
{
    assert forall|i: int| 0 <= i < after.committed.len() implies after.accounted_for(
        #[trigger] after.committed[i],
    ) by {
        if i == w.committed.len() {
            assert(after.pending.contains_key(id) && after.pending[id] == raw);
        } else {
            let contents = w.committed[i];
            assert(after.committed[i] == contents);
            assert(w.accounted_for(contents));
            if exists|k: RecordId| #[trigger]
                w.pending.contains_key(k) && w.pending[k] == contents {
                let k = choose|k: RecordId| #[trigger]
                    w.pending.contains_key(k) && w.pending[k] == contents;
                assert(after.pending.contains_key(k) && after.pending[k] == contents);
            } else {
                let k = choose|k: RecordId| #[trigger] w.handed_on(k, contents);
                assert(after.handed_on(k, contents));
            }
        }
    }
}

/// A step keeps every committed bundle accounted for.
proof fn lemma_step_keeps_accounts(m: Moment, event: EventView, after: Moment)
    requires
        sound(m),
        steps(m, event, after),
    ensures
        forall|i: int|
            0 <= i < after.world.committed.len() ==> after.world.accounted_for(
                #[trigger] after.world.committed[i],
            ),
{
    let v = m.receiver;
    let w = m.world;
    if v.step is Persist && event is Committed {
        lemma_commit_keeps_account(w, event->Committed_0, v.at_hand->0, after.world);
    } else {
        assert forall|i: int| 0 <= i < after.world.committed.len() implies after.world.accounted_for(
            #[trigger] after.world.committed[i],
        ) by {
            let contents = w.committed[i];
            assert(w.accounted_for(contents));
            if after.world == w {
            } else if v.step is DispatchRecord {
                lemma_delivery_keeps_account(w, v.queue[0], v.at_hand->0, contents);
            } else if v.step is DispatchNew {
                lemma_delivery_keeps_account(w, v.fresh->0, v.at_hand->0, contents);
            } else if v.step is RemoveRecord {
                lemma_removal_keeps_account(w, v.queue[0], contents);
            } else if v.step is RemoveNew {
                lemma_removal_keeps_account(w, v.fresh->0, contents);
            } else {
                if exists|k: RecordId| #[trigger]
                    w.pending.contains_key(k) && w.pending[k] == contents {
                    let k = choose|k: RecordId| #[trigger]
                        w.pending.contains_key(k) && w.pending[k] == contents;
                    assert(after.world.pending.contains_key(k));
                } else {
                    let k = choose|k: RecordId| #[trigger] w.handed_on(k, contents);
                    assert(after.world.handed_on(k, contents));
                }
            }
        }
    }
}

/// What follows the first record of a queue without duplicates.
proof fn lemma_rest(queue: Seq<RecordId>)
    requires
        queue.len() > 0,
        queue.no_duplicates(),
    ensures
        queue.skip(1).no_duplicates(),
        forall|id: RecordId| #[trigger]
            queue.skip(1).contains(id) <==> queue.contains(id) && id != queue[0],
{
    let rest = queue.skip(1);
    assert forall|id: RecordId| #[trigger] rest.contains(id) implies queue.contains(id) && id
        != queue[0] by {
        let i = choose|i: int| 0 <= i < rest.len() && rest[i] == id;
        assert(queue[i + 1] == id);
    }
    assert forall|id: RecordId| queue.contains(id) && id != queue[0] implies #[trigger] rest.contains(
        id,
    ) by {
        let i = choose|i: int| 0 <= i < queue.len() && queue[i] == id;
        assert(rest[i - 1] == id);
    }
}

/// A step keeps what holds at every moment.
proof fn lemma_step_keeps_sound(m: Moment, event: EventView, after: Moment)
    requires
        sound(m),
        steps(m, event, after),
    ensures
        sound(after),
{
    let v = m.receiver;
    let w = m.world;
    lemma_step_keeps_accounts(m, event, after);
    match v.step {
        ReceiverStep::ListPending => {
            if event is Listed {
                let records = event->Listed_0;
                assert forall|id: RecordId| #[trigger]
                    w.pending.contains_key(id) <==> records.contains(id) by {
                    assert(records.to_set().contains(id) <==> w.pending.dom().contains(id));
                }
            }
        },
        ReceiverStep::DispatchRecord => {
            lemma_rest(v.queue);
            if event is Done {
                let entry = (v.queue[0], w.pending[v.queue[0]]);
                assert(after.world.delivered.last() == entry);
                assert(after.world.delivered.contains(entry));
            }
        },
        ReceiverStep::DispatchNew => {
            if event is Done {
                let entry = (v.fresh->0, w.pending[v.fresh->0]);
                assert(after.world.delivered.last() == entry);
                assert(after.world.delivered.contains(entry));
            }
        },
        ReceiverStep::RemoveRecord => {
            lemma_rest(v.queue);
        },
        _ => {},
    }
}

/// Every moment of a history is sound.
proof fn lemma_history_is_sound(history: Seq<Moment>, i: int)
    requires
        is_history(history),
        0 <= i < history.len(),
    ensures
        sound(history[i]),
    decreases i,
{
    if i > 0 {
        lemma_history_is_sound(history, i - 1);
        let before = history[i - 1];
        let after = history[i];
        assert(follows(before, after));
        if exists|id: RecordId| #[trigger] recovers(before.world, id, after.world) && restarts(
            before,
            after,
        ) {
            let id = choose|id: RecordId| #[trigger]
                recovers(before.world, id, after.world) && restarts(before, after);
            lemma_commit_keeps_account(before.world, id, before.world.hand->0, after.world);
        } else if restarts(before, after) {
            assert forall|k: int| 0 <= k < after.world.committed.len() implies after.world.accounted_for(
                #[trigger] after.world.committed[k],
            ) by {
                let contents = before.world.committed[k];
                assert(before.world.accounted_for(contents));
                if exists|id: RecordId| #[trigger]
                    before.world.pending.contains_key(id) && before.world.pending[id]
                        == contents {
                    let id = choose|id: RecordId| #[trigger]
                        before.world.pending.contains_key(id) && before.world.pending[id]
                            == contents;
                    assert(after.world.pending.contains_key(id));
                } else {
                    let id = choose|id: RecordId| #[trigger]
                        before.world.handed_on(id, contents);
                    assert(after.world.handed_on(id, contents));
                }
            }
        } else {
            let event = choose|event: EventView| #[trigger] steps(before, event, after);
            lemma_step_keeps_sound(before, event, after);
        }
    }
}

/// The daemon is polled only while the journal is empty: a record that is kept holds
/// newer bundles back in the daemon.
pub proof fn law_polls_only_with_empty_journal(history: Seq<Moment>, i: int)
    requires
        is_history(history),
        0 <= i < history.len(),
        history[i].receiver.step is Poll,
    ensures
        history[i].world.pending.dom() =~= Set::<RecordId>::empty(),
{
    lemma_history_is_sound(history, i);
    let pending = history[i].world.pending;
    assert forall|id: RecordId| !pending.dom().contains(id) by {
        assert(!pending.contains_key(id));
    }
}

/// Only what the journal holds is dispatched: a bundle is committed before it is decoded
/// or handed on.
pub proof fn law_committed_before_dispatch(history: Seq<Moment>, i: int)
    requires
        is_history(history),
        0 <= i < history.len(),
    ensures
        history[i].receiver.step is DispatchRecord ==> history[i].receiver.queue.len() > 0
            && history[i].world.pending.contains_key(history[i].receiver.queue[0]),
        history[i].receiver.step is DispatchNew ==> history[i].receiver.fresh is Some
            && history[i].world.pending.contains_key(history[i].receiver.fresh->0),
{
    lemma_history_is_sound(history, i);
    let v = history[i].receiver;
    if v.step is DispatchRecord {
        assert(v.queue.contains(v.queue[0]));
    }
}

/// A record is removed only after it was handed on with the contents that it holds.
pub proof fn law_removed_only_after_delivery(history: Seq<Moment>, i: int)
    requires
        is_history(history),
        0 <= i < history.len(),
    ensures
        history[i].receiver.step is RemoveRecord ==> history[i].world.handed_on(
            history[i].receiver.queue[0],
            history[i].world.pending[history[i].receiver.queue[0]],
        ),
        history[i].receiver.step is RemoveNew ==> history[i].world.handed_on(
            history[i].receiver.fresh->0,
            history[i].world.pending[history[i].receiver.fresh->0],
        ),
{
    lemma_history_is_sound(history, i);
}

/// No bundle that was committed is lost, through failures and restarts: at every later
/// moment the journal holds it or it was handed on.
pub proof fn law_committed_bundles_are_kept(history: Seq<Moment>, i: int, k: int)
    requires
        is_history(history),
        0 <= i < history.len(),
        0 <= k < history[i].world.committed.len(),
    ensures
        history[i].world.accounted_for(history[i].world.committed[k]),
{
    lemma_history_is_sound(history, i);
}

/// The only bundle that is in neither place is the one that was received last and is being
/// committed, and a receiver that could not commit it stops.
pub proof fn law_one_bundle_is_at_risk(history: Seq<Moment>, i: int)
    requires
        is_history(history),
        0 <= i < history.len(),
        history[i].world.hand is Some,
    ensures
        history[i].receiver.step is Persist || history[i].receiver.step is Stop,
{
    lemma_history_is_sound(history, i);
}

/// A record that the journal holds stays there, with its contents, until it is handed on.
proof fn lemma_kept_or_handed_on(history: Seq<Moment>, i: int, j: int, id: RecordId)
    requires
        is_history(history),
        0 <= i <= j < history.len(),
        history[i].world.pending.contains_key(id),
    ensures
        ({
            let contents = history[i].world.pending[id];
            ||| history[j].world.handed_on(id, contents)
            ||| history[j].world.pending.contains_key(id) && history[j].world.pending[id]
                == contents
        }),
    decreases j,
{
    if i < j {
        lemma_kept_or_handed_on(history, i, j - 1, id);
        lemma_history_is_sound(history, j - 1);
        let contents = history[i].world.pending[id];
        let before = history[j - 1];
        let after = history[j];
        assert(follows(before, after));
        if !restarts(before, after) {
            let event = choose|event: EventView| #[trigger] steps(before, event, after);
            if before.world.handed_on(id, contents) {
                let d = before.world.delivered;
                let n = choose|n: int| 0 <= n < d.len() && d[n] == (id, contents);
                assert(after.world.delivered[n] == (id, contents));
            }
        }
    }
}

/// Every record that the journal holds at some moment was handed on, with the contents that
/// it held, before the daemon is polled at any later moment. So what a process finds in the
/// journal when it starts is delivered at least once before anything newer is received.
pub proof fn law_pending_is_delivered_before_polling(
    history: Seq<Moment>,
    i: int,
    j: int,
    id: RecordId,
)
    requires
        is_history(history),
        0 <= i <= j < history.len(),
        history[i].world.pending.contains_key(id),
        history[j].receiver.step is Poll,
    ensures
        history[j].world.handed_on(id, history[i].world.pending[id]),
{
    lemma_kept_or_handed_on(history, i, j, id);
    lemma_history_is_sound(history, j);
}

/// The state after a sequence of events.
pub open spec fn receive_all(v: ReceiverView, events: Seq<EventView>) -> ReceiverView
    decreases events.len(),
{
    if events.len() == 0 {
        v
    } else {
        receive_next(receive_all(v, events.drop_last()), events.last())
    }
}

/// A failure to list, read, commit or remove a record stops the receiver for good: no event
/// makes it take another bundle off the daemon's queue.
pub proof fn law_failed_journal_stops_receiving(
    v: ReceiverView,
    failed: EventView,
    events: Seq<EventView>,
)
    requires
        failed is Failed,
        v.step is ListPending || v.step is ReadRecord || v.step is RemoveRecord
            || v.step is Persist || v.step is RemoveNew,
    ensures
        receive_all(receive_next(v, failed), events).step is Stop,
    decreases events.len(),
{
    if events.len() > 0 {
        law_failed_journal_stops_receiving(v, failed, events.drop_last());
    }
}

/// After a dispatch that failed the daemon is not polled before the journal is replayed
/// anew: the receiver waits at once, or goes on with the records that are left and waits
/// then.
pub proof fn law_failed_dispatch_holds_back(v: ReceiverView)
    ensures
        v.step is DispatchNew ==> receive_next(v, EventView::Failed) == idle(ReceiverStep::Sleep),
        v.step is DispatchRecord ==> {
            let after = receive_next(v, EventView::Failed);
            ||| after == idle(ReceiverStep::Sleep)
            ||| after.step is ReadRecord && after.retained && after.queue == v.queue.skip(1)
        },
        v.step is RemoveRecord && v.retained ==> {
            let after = receive_next(v, EventView::Done);
            ||| after == idle(ReceiverStep::Sleep)
            ||| after.step is ReadRecord && after.retained && after.queue == v.queue.skip(1)
        },
        receive_next(idle(ReceiverStep::Sleep), EventView::Done) == idle(
            ReceiverStep::ListPending,
        ),
{
}

/// What happens while records that hold these bytes are replayed and all goes well: each is
/// read, dispatched and removed.
pub open spec fn all_done(contents: Seq<Seq<u8>>) -> Seq<EventView>
    decreases contents.len(),
{
    if contents.len() == 0 {
        Seq::empty()
    } else {
        all_done(contents.drop_last()) + seq![
            EventView::RecordRead(contents.last()),
            EventView::Done,
            EventView::Done,
        ]
    }
}

/// Records are replayed in the order in which they were listed: while all goes well, each is
/// read, dispatched and removed before the next one is read, and the daemon is polled after
/// the last.
pub proof fn law_replay_goes_in_order(records: Seq<RecordId>, contents: Seq<Seq<u8>>)
    requires
        contents.len() <= records.len(),
    ensures
        receive_all(
            receive_next(idle(ReceiverStep::ListPending), EventView::Listed(records)),
            all_done(contents),
        ) == replay(records.skip(contents.len() as int), false),
    decreases contents.len(),
{
    let k = contents.len() as int;
    if k == 0 {
        assert(records.skip(0) =~= records);
    } else {
        let before = all_done(contents.drop_last());
        let raw = contents.last();
        law_replay_goes_in_order(records, contents.drop_last());
        let read = before.push(EventView::RecordRead(raw));
        let dispatched = read.push(EventView::Done);
        let removed = dispatched.push(EventView::Done);
        assert(all_done(contents) =~= removed);
        assert(removed.drop_last() =~= dispatched);
        assert(dispatched.drop_last() =~= read);
        assert(read.drop_last() =~= before);
        reveal_with_fuel(receive_all, 4);
        assert(records.skip(k - 1).skip(1) =~= records.skip(k));
    }
}

/// The bytes that are dispatched are those that the journal holds for the record, and the
/// bytes that are committed are those that were received.
pub proof fn law_bytes_at_hand_are_the_bundle(history: Seq<Moment>, i: int)
    requires
        is_history(history),
        0 <= i < history.len(),
    ensures
        history[i].receiver.step is DispatchRecord ==> history[i].receiver.at_hand == Some(
            history[i].world.pending[history[i].receiver.queue[0]],
        ),
        history[i].receiver.step is DispatchNew ==> history[i].receiver.at_hand == Some(
            history[i].world.pending[history[i].receiver.fresh->0],
        ),
        history[i].receiver.step is Persist ==> history[i].receiver.at_hand is Some
            && history[i].receiver.at_hand == history[i].world.hand,
{
    lemma_history_is_sound(history, i);
}

/// A received bundle is dispatched as it was received: from a poll through the commit to the
/// dispatch the receiver has the bytes of the daemon's answer at hand.
pub proof fn law_received_bytes_are_dispatched(v: ReceiverView, raw: Seq<u8>, id: RecordId)
    requires
        v.step is Poll,
        raw.len() > 0,
        raw != "Nothing to receive".spec_bytes(),
    ensures
        ({
            let received = receive_next(v, EventView::Answered(raw));
            let committed = receive_next(received, EventView::Committed(id));
            &&& received.step is Persist && received.at_hand == Some(raw)
            &&& committed.step is DispatchNew && committed.at_hand == Some(raw)
            &&& committed.fresh == Some(id)
        }),
{
}

/// Whether the journal holds, for the receiver, what a directory shows of it.
pub open spec fn mirrors(w: World, journal: JournalView, listing: Seq<JournalEntry>) -> bool {
    forall|id: RecordId| #[trigger]
        w.pending.contains_key(id) <==> journal.owns(id) && lists(listing, id.1)
}

/// What the journal lists is what the receiver takes for its contents: where the names of a
/// directory are distinct, the records that [`InboundJournal::pending`] returns have no
/// duplicates and are exactly the listed pending names in the root of the journal.
///
/// [`InboundJournal::pending`]: crate::journal::InboundJournal::pending
pub proof fn law_listing_is_the_journal(
    journal: JournalView,
    listing: Seq<JournalEntry>,
    records: Seq<JournaledBundle>,
    v: ReceiverView,
    w: World,
)
    requires
        distinct_names(listing),
        record_names(records).to_multiset() == pending_names(listing).to_multiset(),
        forall|i: int| 0 <= i < records.len() ==> journal.owns((#[trigger] records[i])@),
    ensures
        ({
            let ids = records.map_values(|record: JournaledBundle| record@);
            &&& ids.no_duplicates()
            &&& forall|id: RecordId| #[trigger]
                ids.contains(id) <==> id.0 == journal.root && pending_names(listing).contains(id.1)
            &&& v.step is ListPending && mirrors(w, journal, listing) ==> takes_effect(
                v,
                EventView::Listed(ids),
                w,
                w,
            )
        }),
{
    let ids = records.map_values(|record: JournaledBundle| record@);
    let names = record_names(records);
    law_replay_covers_journal(listing, names);
    assert forall|i: int, j: int| 0 <= i < ids.len() && 0 <= j < ids.len() && i != j implies ids[i]
        != ids[j] by {
        assert(names[i] != names[j]);
    }
    assert forall|id: RecordId| #[trigger] ids.contains(id) <==> id.0 == journal.root
        && pending_names(listing).contains(id.1) by {
        law_listing_shows_committed_records(listing, id.1);
        if ids.contains(id) {
            let i = choose|i: int| 0 <= i < ids.len() && ids[i] == id;
            assert(journal.owns(records[i]@));
            assert(names[i] == id.1);
            assert(names.contains(id.1));
        }
        if id.0 == journal.root && pending_names(listing).contains(id.1) {
            assert(names.contains(id.1));
            let i = choose|i: int| 0 <= i < names.len() && names[i] == id.1;
            assert(journal.owns(records[i]@));
            assert(ids[i] == id);
        }
    }
    if v.step is ListPending && mirrors(w, journal, listing) {
        assert forall|id: RecordId| ids.to_set().contains(id) <==> w.pending.dom().contains(id) by {
            law_listing_shows_committed_records(listing, id.1);
            assert(w.pending.contains_key(id) <==> journal.owns(id) && lists(listing, id.1));
            assert(ids.contains(id) <==> id.0 == journal.root && pending_names(listing).contains(
                id.1,
            ));
        }
        assert(ids.to_set() =~= w.pending.dom());
    }
}

/// A committed record is new to the journal: where its name is one that the directory did not
/// hold, the commit has the effect that the receiver counts on.
pub proof fn law_commit_is_new_to_the_journal(
    journal: JournalView,
    listing: Seq<JournalEntry>,
    id: RecordId,
    v: ReceiverView,
    w: World,
)
    requires
        mirrors(w, journal, listing),
        !listed_names(listing).contains(id.1),
        v.step is Persist,
    ensures
        takes_effect(v, EventView::Committed(id), w, w.after_commit(id, v.at_hand->0)),
{
}

} // verus!
