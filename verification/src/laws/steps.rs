//! What follows each step of a commit, a removal and a recovery.

use vstd::prelude::*;

#[allow(unused_imports)]
use crate::commit::{FileOutcome, PersistRun, PersistStep};
#[allow(unused_imports)]
use crate::error::DtnError;
#[allow(unused_imports)]
use crate::journal::{JournaledBundle, Promotion};
#[allow(unused_imports)]
use crate::record::{record_stem, RecordStamp};
#[allow(unused_imports)]
use crate::recovery::{Recovery, RecoveryStep};
#[allow(unused_imports)]
use crate::removal::RemovalStep;

verus! {

/// Whether two commits are of one bundle in one directory.
pub open spec fn same_bundle(a: PersistRun, b: PersistRun) -> bool {
    &&& a@.root == b@.root
    &&& a@.raw_len == b@.raw_len
    &&& a@.checksum == b@.checksum
    &&& a@.taken == b@.taken
}

/// A commit that wants a name takes it from the stamp, at most thirty-two times. A name that
/// is taken costs an attempt and another is wanted; any other is created next.
pub proof fn law_names_are_tried(
    run: PersistRun,
    stamp: RecordStamp,
    r: Result<PersistRun, DtnError>,
)
    requires
        call_ensures(PersistRun::stamped, (run, stamp), r),
    ensures
        r is Err <==> run@.step is Stamp && run@.attempts >= 32,
        r is Err ==> r->Err_0 is NoUniqueRecordId,
        r is Ok ==> same_bundle(run, r->Ok_0),
        r is Ok && run@.step is Stamp ==> {
            let named = r->Ok_0@;
            &&& named.attempts == run@.attempts + 1
            &&& named.stem == record_stem(stamp, run@.checksum, run@.raw_len)
            &&& run@.taken.contains(named.stem + ".bundle"@) ==> named.step is Stamp
            &&& !run@.taken.contains(named.stem + ".bundle"@) ==> named.step is CreateTemp
        },
        r is Ok && !(run@.step is Stamp) ==> {
            &&& r->Ok_0@.step == run@.step
            &&& r->Ok_0@.stem == run@.stem
            &&& r->Ok_0@.attempts == run@.attempts
        },
{
}

/// What follows a file operation of a commit: the next one in the order create, write, sync,
/// rename, sync of the directory, and then the record is committed. A name that is taken is
/// given up; any other failure ends the commit for good, and a committed record stays so.
pub proof fn law_commit_steps(run: PersistRun, outcome: FileOutcome, r: PersistRun)
    requires
        call_ensures(PersistRun::after, (run, outcome), r),
    ensures
        same_bundle(run, r),
        r@.stem == run@.stem && r@.attempts == run@.attempts,
        run@.step is CreateTemp && outcome is Done ==> r@.step is WriteTemp,
        run@.step is CreateTemp && outcome is AlreadyExists ==> r@.step is Stamp,
        run@.step is CreateTemp && outcome is Failed ==> r@.step is Failed,
        run@.step is WriteTemp && outcome is Done ==> r@.step is SyncTemp,
        run@.step is SyncTemp && outcome is Done ==> r@.step is Rename,
        run@.step is Rename && outcome is Done ==> r@.step is SyncDirectory,
        run@.step is SyncDirectory && outcome is Done ==> r@.step is Committed,
        run@.step is Committed ==> r@.step is Committed,
        (run@.step is WriteTemp || run@.step is SyncTemp || run@.step is Rename || run@.step
            is SyncDirectory) && !(outcome is Done) ==> r@.step is Failed,
        run@.step is Stamp || run@.step is Failed ==> r@.step is Failed,
{
}

/// A commit works under the name that was tried last, with `.tmp` and then with `.bundle`,
/// and gives its record exactly once it is committed.
pub proof fn law_commits_name_their_files(
    run: PersistRun,
    step: PersistStep,
    temp: String,
    pending: String,
    record: Option<JournaledBundle>,
)
    requires
        call_ensures(PersistRun::step, (&run,), step),
        call_ensures(PersistRun::temp_file, (&run,), temp),
        call_ensures(PersistRun::pending_file, (&run,), pending),
        call_ensures(PersistRun::record, (&run,), record),
    ensures
        step == run@.step,
        temp@ == run@.stem + ".tmp"@,
        pending@ == run@.stem + ".bundle"@,
        record is Some <==> run@.step is Committed,
        record is Some ==> record->0@ == (run@.root, pending@),
{
}

/// A record is removed once its file was removed and then the directory synced; a failure of
/// either ends the removal, and nothing follows the end.
pub proof fn law_removal_steps(step: RemovalStep, done: RemovalStep, failed: RemovalStep)
    requires
        call_ensures(RemovalStep::next, (step, true), done),
        call_ensures(RemovalStep::next, (step, false), failed),
    ensures
        step is RemoveFile ==> done is SyncDirectory && failed is Failed,
        step is SyncDirectory ==> done is Removed && failed is Failed,
        step is Removed ==> done is Removed && failed is Removed,
        step is Failed ==> done is Failed && failed is Failed,
{
}

/// A recovery renames what was planned from the first to the last, syncs the directory after
/// the last, and then the journal is open; with nothing planned it is open at once.
pub proof fn law_recovery_steps(
    plan: Vec<Promotion>,
    begun: Recovery,
    recovery: Recovery,
    done: Recovery,
    failed: Recovery,
    current: Option<&Promotion>,
    step: RecoveryStep,
)
    requires
        call_ensures(Recovery::begin, (plan,), begun),
        call_ensures(Recovery::after, (recovery, true), done),
        call_ensures(Recovery::after, (recovery, false), failed),
        call_ensures(Recovery::current, (&recovery,), current),
        call_ensures(Recovery::step, (&recovery,), step),
    ensures
        plan@.len() == 0 ==> begun@.step is Open,
        plan@.len() > 0 ==> begun@.step is Rename,
        begun@.queue.len() == plan@.len(),
        forall|k: int|
            0 <= k < plan@.len() ==> #[trigger] begun@.queue[k] == (plan@[k].from@, plan@[k].to@),
        recovery@.step is Rename && recovery@.queue.len() > 1 ==> done@.step is Rename
            && done@.queue == recovery@.queue.skip(1),
        recovery@.step is Rename && recovery@.queue.len() == 1 ==> done@.step is SyncDirectory
            && done@.queue.len() == 0,
        recovery@.step is Rename ==> failed@.step is Failed,
        recovery@.step is SyncDirectory ==> done@.step is Open && failed@.step is Failed,
        recovery@.step is Open ==> done@.step is Open && failed@.step is Open,
        recovery@.step is Failed ==> done@.step is Failed && failed@.step is Failed,
        current is Some <==> recovery@.queue.len() > 0,
        current is Some ==> (current->0.from@, current->0.to@) == recovery@.queue[0],
        step == recovery@.step,
{
}

} // verus!
