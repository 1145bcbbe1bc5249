//! What the receiver does with each event.

use bytes::Bytes;
use vstd::prelude::*;

use crate::journal::JournaledBundle;
#[allow(unused_imports)]
use crate::outside::bytes_held;
#[allow(unused_imports)]
use crate::receiver::{Receiver, ReceiverEvent, ReceiverStep, RecordId};
#[allow(unused_imports)]
use vstd::utf8::encode_utf8;

verus! {

/// Whether a receiver is at a step with nothing queued, kept or at hand.
pub open spec fn rests_at(receiver: Receiver, step: ReceiverStep) -> bool {
    &&& receiver@.step == step
    &&& receiver@.queue.len() == 0
    &&& !receiver@.retained
    &&& receiver@.fresh is None
    &&& receiver@.at_hand is None
}

/// Whether a receiver goes on with the replay of records: it reads the first of them, or,
/// where none is left, waits if one was kept and polls otherwise.
pub open spec fn goes_on(receiver: Receiver, records: Seq<RecordId>, kept: bool) -> bool {
    if records.len() > 0 {
        &&& receiver@.step is ReadRecord
        &&& receiver@.queue == records
        &&& receiver@.retained == kept
        &&& receiver@.fresh is None
        &&& receiver@.at_hand is None
    } else if kept {
        rests_at(receiver, ReceiverStep::Sleep)
    } else {
        rests_at(receiver, ReceiverStep::Poll)
    }
}

/// A receiver starts with the journal.
pub proof fn law_receivers_start_with_the_journal(r: Receiver)
    requires
        call_ensures(Receiver::start, (), r),
    ensures
        rests_at(r, ReceiverStep::ListPending),
{
}

/// A bundle that the daemon hands over is kept: whatever a polling receiver is answered, but
/// for nothing at all and for the words `Nothing to receive`, it commits next, with exactly
/// those bytes at hand. In those two cases it waits. An answer that was not asked for stops
/// it.
pub proof fn law_received_bundles_are_committed_next(receiver: Receiver, raw: Bytes, r: Receiver)
    requires
        call_ensures(Receiver::after, (receiver, ReceiverEvent::Answered(raw)), r),
    ensures
        receiver@.step is Poll && bytes_held(raw).len() > 0 && bytes_held(raw) != encode_utf8(
            "Nothing to receive"@,
        ) ==> {
            &&& r@.step is Persist
            &&& r@.at_hand == Some(bytes_held(raw))
            &&& r@.queue.len() == 0 && !r@.retained && r@.fresh is None
        },
        receiver@.step is Poll && (bytes_held(raw).len() == 0 || bytes_held(raw) == encode_utf8(
            "Nothing to receive"@,
        )) ==> rests_at(r, ReceiverStep::Sleep),
        !(receiver@.step is Poll) ==> rests_at(r, ReceiverStep::Stop),
{
}

/// What the journal lists is replayed, all of it and in its order.
pub proof fn law_listed_records_are_replayed(
    receiver: Receiver,
    records: Vec<JournaledBundle>,
    r: Receiver,
)
    requires
        call_ensures(Receiver::after, (receiver, ReceiverEvent::Listed(records)), r),
    ensures
        receiver@.step is ListPending ==> {
            &&& records@.len() == 0 ==> rests_at(r, ReceiverStep::Poll)
            &&& records@.len() > 0 ==> {
                &&& r@.step is ReadRecord
                &&& r@.queue.len() == records@.len()
                &&& forall|k: int| 0 <= k < records@.len() ==> #[trigger] r@.queue[k] == records@[k]@
                &&& !r@.retained && r@.fresh is None && r@.at_hand is None
            }
        },
        !(receiver@.step is ListPending) ==> rests_at(r, ReceiverStep::Stop),
{
}

/// What was read of a record is dispatched next, as it was read.
pub proof fn law_read_records_are_dispatched_next(receiver: Receiver, raw: Bytes, r: Receiver)
    requires
        call_ensures(Receiver::after, (receiver, ReceiverEvent::RecordRead(raw)), r),
    ensures
        receiver@.step is ReadRecord ==> {
            &&& r@.step is DispatchRecord
            &&& r@.at_hand == Some(bytes_held(raw))
            &&& r@.queue == receiver@.queue
            &&& r@.retained == receiver@.retained
            &&& r@.fresh == receiver@.fresh
        },
        !(receiver@.step is ReadRecord) ==> rests_at(r, ReceiverStep::Stop),
{
}

/// What was committed is dispatched next, as it was received, and is then the record that the
/// receiver works on.
pub proof fn law_committed_bundles_are_dispatched_next(
    receiver: Receiver,
    record: JournaledBundle,
    r: Receiver,
)
    requires
        call_ensures(Receiver::after, (receiver, ReceiverEvent::Committed(record)), r),
    ensures
        receiver@.step is Persist ==> {
            &&& r@.step is DispatchNew
            &&& r@.at_hand == receiver@.at_hand
            &&& r@.fresh == Some(record@)
            &&& r@.queue.len() == 0 && !r@.retained
        },
        !(receiver@.step is Persist) ==> rests_at(r, ReceiverStep::Stop),
{
}

/// What follows a step that was done: a dispatched record is removed; after its removal the
/// replay goes on with the next one, or the daemon is polled after a new bundle; after a wait
/// the journal is listed anew.
pub proof fn law_done_steps_go_on(receiver: Receiver, r: Receiver)
    requires
        call_ensures(Receiver::after, (receiver, ReceiverEvent::Done), r),
    ensures
        receiver@.step is DispatchRecord ==> {
            &&& r@.step is RemoveRecord
            &&& r@.queue == receiver@.queue
            &&& r@.retained == receiver@.retained
            &&& r@.fresh == receiver@.fresh
        },
        receiver@.step is RemoveRecord ==> goes_on(r, receiver@.queue.skip(1), receiver@.retained),
        receiver@.step is DispatchNew ==> r@.step is RemoveNew && r@.fresh == receiver@.fresh,
        receiver@.step is RemoveNew ==> rests_at(r, ReceiverStep::Poll),
        receiver@.step is Sleep ==> rests_at(r, ReceiverStep::ListPending),
        receiver@.step is ListPending || receiver@.step is ReadRecord || receiver@.step is Poll
            || receiver@.step is Persist || receiver@.step is Stop ==> rests_at(
            r,
            ReceiverStep::Stop,
        ),
{
}

/// What follows a step that failed: a record that could not be dispatched is kept while the
/// replay goes on; a new bundle that could not be dispatched, and a poll that failed, are
/// waited on; every other failure stops the receiver.
pub proof fn law_failed_steps_wait_or_stop(receiver: Receiver, r: Receiver)
    requires
        call_ensures(Receiver::after, (receiver, ReceiverEvent::Failed), r),
    ensures
        receiver@.step is DispatchRecord ==> goes_on(r, receiver@.queue.skip(1), true),
        receiver@.step is DispatchNew || receiver@.step is Poll ==> rests_at(
            r,
            ReceiverStep::Sleep,
        ),
        !(receiver@.step is DispatchRecord || receiver@.step is DispatchNew || receiver@.step
            is Poll) ==> rests_at(r, ReceiverStep::Stop),
{
}

/// What a receiver shows: its step, the bytes at hand, and the record that it works on, which
/// is the new one where there is one and the first of those to be replayed otherwise.
pub proof fn law_receivers_show_their_work(
    receiver: Receiver,
    step: ReceiverStep,
    current: Option<&JournaledBundle>,
    at_hand: Option<&Bytes>,
)
    requires
        call_ensures(Receiver::step, (&receiver,), step),
        call_ensures(Receiver::current, (&receiver,), current),
        call_ensures(Receiver::at_hand, (&receiver,), at_hand),
    ensures
        step == receiver@.step,
        at_hand is Some <==> receiver@.at_hand is Some,
        at_hand is Some ==> bytes_held(*at_hand->0) == receiver@.at_hand->0,
        current is Some <==> receiver@.fresh is Some || receiver@.queue.len() > 0,
        receiver@.fresh is Some ==> current->0@ == receiver@.fresh->0,
        receiver@.fresh is None && receiver@.queue.len() > 0 ==> current->0@ == receiver@.queue[0],
{
}

} // verus!
