//! Committing one bundle to the journal.
//!
//! A record is written under a temporary name, synced, renamed, and its directory
//! synced. Only then is it committed. No name is tried that the journal already holds.

use vstd::prelude::*;
use vstd::string::*;

use crate::error::DtnError;
use crate::journal::JournaledBundle;
use crate::record::{new_record_stem, RecordStamp};
#[allow(unused_imports)]
use crate::record::{pending_suffix, record_stem, temp_suffix};

verus! {

/// The names that are tried for one record.
pub const RECORD_ID_ATTEMPTS: u32 = 32;

/// What is done next to commit a record.
#[derive(Clone, Copy, Debug, PartialEq, Eq, Structural)]
pub enum PersistStep {
    /// Take a stamp for a new name.
    Stamp,
    /// Create the file under the temporary name, which must not exist.
    CreateTemp,
    /// Write the contents.
    WriteTemp,
    /// Sync the file.
    SyncTemp,
    /// Rename the file to its committed name.
    Rename,
    /// Sync the directory.
    SyncDirectory,
    /// The record is committed.
    Committed,
    /// The record could not be committed.
    Failed,
}

/// What came of a file operation.
#[derive(Clone, Copy, Debug, PartialEq, Eq, Structural)]
pub enum FileOutcome {
    Done,
    AlreadyExists,
    Failed,
}

/// The step after a file operation. A name that is taken is given up for a new one; any
/// other failure ends the attempt.
pub open spec fn persist_next(step: PersistStep, outcome: FileOutcome) -> PersistStep {
    match (step, outcome) {
        (PersistStep::CreateTemp, FileOutcome::Done) => PersistStep::WriteTemp,
        (PersistStep::CreateTemp, FileOutcome::AlreadyExists) => PersistStep::Stamp,
        (PersistStep::WriteTemp, FileOutcome::Done) => PersistStep::SyncTemp,
        (PersistStep::SyncTemp, FileOutcome::Done) => PersistStep::Rename,
        (PersistStep::Rename, FileOutcome::Done) => PersistStep::SyncDirectory,
        (PersistStep::SyncDirectory, FileOutcome::Done) => PersistStep::Committed,
        (PersistStep::Committed, _) => PersistStep::Committed,
        _ => PersistStep::Failed,
    }
}

/// Whether a step works under the name of the commit.
pub open spec fn works_under_name(step: PersistStep) -> bool {
    !(step is Stamp || step is Failed)
}

/// The state of a commit.
#[verifier::ext_equal]
pub struct PersistView {
    /// The directory of the journal.
    pub root: Seq<u8>,
    /// The length of the contents.
    pub raw_len: usize,
    /// The checksum of the contents.
    pub checksum: u32,
    /// The names that the directory held at the beginning.
    pub taken: Set<Seq<char>>,
    /// The names that were tried.
    pub attempts: u32,
    /// The name that is tried now, up to its suffix.
    pub stem: Seq<char>,
    /// What is done next.
    pub step: PersistStep,
}

impl PersistView {
    /// The commit before any name was tried.
    pub open spec fn begun(
        root: Seq<u8>,
        raw_len: usize,
        checksum: u32,
        taken: Set<Seq<char>>,
    ) -> PersistView {
        PersistView {
            root,
            raw_len,
            checksum,
            taken,
            attempts: 0,
            stem: Seq::empty(),
            step: PersistStep::Stamp,
        }
    }

    /// The name under which the record is committed.
    pub open spec fn pending_name(self) -> Seq<char> {
        self.stem + pending_suffix()
    }

    /// The commit with a new name, where one is wanted. There is none after too many names
    /// that were taken. A name that is taken by a committed record is used up at once.
    pub open spec fn stamped(self, stamp: RecordStamp) -> Option<PersistView> {
        if !(self.step is Stamp) {
            Some(self)
        } else if self.attempts >= RECORD_ID_ATTEMPTS {
            None
        } else {
            let stem = record_stem(stamp, self.checksum, self.raw_len);
            Some(
                PersistView {
                    attempts: (self.attempts + 1) as u32,
                    stem,
                    step: if self.taken.contains(stem + pending_suffix()) {
                        PersistStep::Stamp
                    } else {
                        PersistStep::CreateTemp
                    },
                    ..self
                },
            )
        }
    }

    /// The commit after a file operation.
    pub open spec fn after(self, outcome: FileOutcome) -> PersistView {
        PersistView { step: persist_next(self.step, outcome), ..self }
    }

    /// Whether the name that is worked under is one that the directory did not hold.
    pub open spec fn works_under_free_name(self) -> bool {
        works_under_name(self.step) ==> !self.taken.contains(self.pending_name())
    }
}

/// The texts of names.
pub open spec fn name_set(names: Seq<String>) -> Set<Seq<char>> {
    Set::new(|name: Seq<char>| exists|i: int| 0 <= i < names.len() && #[trigger] names[i]@ == name)
}

/// Whether a name is among names.
fn is_among(names: &Vec<String>, wanted: &String) -> (r: bool)
    ensures
        r == name_set(names@).contains(wanted@),
{
    let mut i: usize = 0;
    while i < names.len()
        invariant
            i <= names.len(),
            forall|j: int| 0 <= j < i ==> #[trigger] names@[j]@ != wanted@,
        decreases names.len() - i,
    {
        if names[i] == *wanted {
            assert(names@[i as int]@ == wanted@);
            return true;
        }
        i += 1;
    }
    false
}

/// A bundle on its way into the journal.
#[derive(Debug)]
pub struct PersistRun {
    root: Vec<u8>,
    raw_len: usize,
    checksum: u32,
    taken: Vec<String>,
    attempts: u32,
    stem: String,
    step: PersistStep,
}

impl View for PersistRun {
    type V = PersistView;

    closed spec fn view(&self) -> PersistView {
        PersistView {
            root: self.root@,
            raw_len: self.raw_len,
            checksum: self.checksum,
            taken: name_set(self.taken@),
            attempts: self.attempts,
            stem: self.stem@,
            step: self.step,
        }
    }
}

impl PersistRun {
    #[verifier::type_invariant]
    spec fn free_name(self) -> bool {
        self@.works_under_free_name()
    }

    /// A commit of contents of the given length and checksum, before any name was tried.
    pub(crate) fn begin(root: Vec<u8>, raw_len: usize, checksum: u32, taken: Vec<String>) -> (r:
        PersistRun)
        ensures
            r@ == PersistView::begun(root@, raw_len, checksum, name_set(taken@)),
    {
        proof {
            reveal_strlit("");
        }
        PersistRun {
            root,
            raw_len,
            checksum,
            taken,
            attempts: 0,
            stem: "".to_owned(),
            step: PersistStep::Stamp,
        }
    }

    /// What is done next.
    pub fn step(&self) -> (r: PersistStep)
        ensures
            r == self@.step,
    {
        self.step
    }

    /// Names the record after a stamp, where a name is wanted. After too many names that
    /// were taken there is none left.
    pub fn stamped(self, stamp: RecordStamp) -> (r: Result<PersistRun, DtnError>)
        ensures
            match r {
                Ok(run) => self@.stamped(stamp) == Some(run@) && run@.works_under_free_name(),
                Err(e) => self@.stamped(stamp) is None && e == DtnError::NoUniqueRecordId,
            },
    {
        proof {
            use_type_invariant(&self);
        }
        let PersistRun { root, raw_len, checksum, taken, attempts, stem, step } = self;
        if step != PersistStep::Stamp {
            return Ok(PersistRun { root, raw_len, checksum, taken, attempts, stem, step });
        }
        if attempts >= RECORD_ID_ATTEMPTS {
            return Err(DtnError::NoUniqueRecordId);
        }
        let stem: String = new_record_stem(stamp, checksum, raw_len);
        let mut name: String = stem.clone();
        name.append(".bundle");
        let step: PersistStep = if is_among(&taken, &name) {
            PersistStep::Stamp
        } else {
            PersistStep::CreateTemp
        };
        Ok(PersistRun { root, raw_len, checksum, taken, attempts: attempts + 1, stem, step })
    }

    /// The commit after a file operation.
    pub fn after(self, outcome: FileOutcome) -> (r: PersistRun)
        ensures
            r@ == self@.after(outcome),
    {
        proof {
            use_type_invariant(&self);
        }
        let PersistRun { root, raw_len, checksum, taken, attempts, stem, step } = self;
        let next: PersistStep = match (step, outcome) {
            (PersistStep::CreateTemp, FileOutcome::Done) => PersistStep::WriteTemp,
            (PersistStep::CreateTemp, FileOutcome::AlreadyExists) => PersistStep::Stamp,
            (PersistStep::WriteTemp, FileOutcome::Done) => PersistStep::SyncTemp,
            (PersistStep::SyncTemp, FileOutcome::Done) => PersistStep::Rename,
            (PersistStep::Rename, FileOutcome::Done) => PersistStep::SyncDirectory,
            (PersistStep::SyncDirectory, FileOutcome::Done) => PersistStep::Committed,
            (PersistStep::Committed, _) => PersistStep::Committed,
            _ => PersistStep::Failed,
        };
        PersistRun { root, raw_len, checksum, taken, attempts, stem, step: next }
    }

    /// The name under which the record is written.
    pub fn temp_file(&self) -> (r: String)
        ensures
            r@ == self@.stem + temp_suffix(),
    {
        let mut name: String = self.stem.clone();
        name.append(".tmp");
        name
    }

    /// The name under which the record is committed.
    pub fn pending_file(&self) -> (r: String)
        ensures
            r@ == self@.pending_name(),
            works_under_name(self@.step) ==> !self@.taken.contains(r@),
    {
        proof {
            use_type_invariant(self);
        }
        let mut name: String = self.stem.clone();
        name.append(".bundle");
        name
    }

    /// The record, once it is committed. The directory did not hold its name before.
    pub fn record(&self) -> (r: Option<JournaledBundle>)
        ensures
            match r {
                Some(record) => {
                    &&& self@.step is Committed
                    &&& record@ == (self@.root, self@.pending_name())
                    &&& !self@.taken.contains(record@.1)
                },
                None => !(self@.step is Committed),
            },
    {
        if self.step == PersistStep::Committed {
            let parent: Vec<u8> = self.root.clone();
            assert(parent@ =~= self.root@);
            Some(JournaledBundle::at(parent, self.pending_file()))
        } else {
            None
        }
    }
}

/// What a commit is told.
pub enum PersistInput {
    Stamp(RecordStamp),
    Outcome(FileOutcome),
}

/// The commit after everything that it was told, unless it ran out of names.
pub open spec fn persist_through(start: PersistView, inputs: Seq<PersistInput>) -> Option<
    PersistView,
>
    decreases inputs.len(),
{
    if inputs.len() == 0 {
        Some(start)
    } else {
        match persist_through(start, inputs.drop_last()) {
            None => None,
            Some(v) => match inputs.last() {
                PersistInput::Stamp(stamp) => v.stamped(stamp),
                PersistInput::Outcome(outcome) => Some(v.after(outcome)),
            },
        }
    }
}

/// No record is replaced and no name is used again: whatever stamps a commit is given and
/// whatever comes of its file operations, it works under a name made from one of the stamps
/// that no entry of the directory had when it began, and so does the record that it makes.
pub proof fn law_commit_uses_a_free_name(
    root: Seq<u8>,
    raw_len: usize,
    checksum: u32,
    taken: Set<Seq<char>>,
    inputs: Seq<PersistInput>,
)
    ensures
        persist_through(PersistView::begun(root, raw_len, checksum, taken), inputs) matches Some(
            v,
        ) ==> {
            &&& (v.root, v.raw_len, v.checksum, v.taken) == (root, raw_len, checksum, taken)
            &&& works_under_name(v.step) ==> {
                &&& !taken.contains(v.pending_name())
                &&& exists|stamp: RecordStamp|
                    v.stem == #[trigger] record_stem(stamp, checksum, raw_len)
            }
        },
    decreases inputs.len(),
{
    if inputs.len() > 0 {
        law_commit_uses_a_free_name(root, raw_len, checksum, taken, inputs.drop_last());
    }
}

/// The step after a sequence of file operations.
pub open spec fn persist_all(step: PersistStep, outcomes: Seq<FileOutcome>) -> PersistStep
    decreases outcomes.len(),
{
    if outcomes.len() == 0 {
        step
    } else {
        persist_next(persist_all(step, outcomes.drop_last()), outcomes.last())
    }
}

/// The step after that many operations that were done.
pub open spec fn persist_order(done: int) -> PersistStep {
    if done == 0 {
        PersistStep::CreateTemp
    } else if done == 1 {
        PersistStep::WriteTemp
    } else if done == 2 {
        PersistStep::SyncTemp
    } else if done == 3 {
        PersistStep::Rename
    } else if done == 4 {
        PersistStep::SyncDirectory
    } else {
        PersistStep::Committed
    }
}

/// A commit follows the fixed order, or has failed, or wants a new name.
proof fn lemma_persist_order(outcomes: Seq<FileOutcome>)
    ensures
        ({
            let known = if outcomes.len() < 5 {
                outcomes.len() as int
            } else {
                5
            };
            if forall|i: int| 0 <= i < known ==> #[trigger] outcomes[i] is Done {
                persist_all(PersistStep::CreateTemp, outcomes) == persist_order(
                    outcomes.len() as int,
                )
            } else {
                let step = persist_all(PersistStep::CreateTemp, outcomes);
                step is Failed || step is Stamp
            }
        }),
    decreases outcomes.len(),
{
    if outcomes.len() > 0 {
        let before = outcomes.drop_last();
        lemma_persist_order(before);
        let n = before.len() as int;
        assert(forall|i: int| 0 <= i < n ==> #[trigger] before[i] == outcomes[i]);
        if n < 5 {
            if forall|i: int| 0 <= i < n ==> #[trigger] before[i] is Done {
                if outcomes.last() is Done {
                    assert forall|i: int| 0 <= i < n + 1 implies #[trigger] outcomes[i] is Done by {
                        if i < n {
                            assert(before[i] is Done);
                        }
                    }
                } else {
                    assert(!(outcomes[n] is Done));
                }
            } else {
                let i = choose|i: int| 0 <= i < n && !(#[trigger] before[i] is Done);
                assert(!(outcomes[i] is Done));
            }
        } else {
            if forall|i: int| 0 <= i < 5 ==> #[trigger] outcomes[i] is Done {
                assert(forall|i: int| 0 <= i < 5 ==> #[trigger] before[i] is Done);
            } else {
                let i = choose|i: int| 0 <= i < 5 && !(#[trigger] outcomes[i] is Done);
                assert(!(before[i] is Done));
            }
        }
    }
}

/// A record is committed only after its file was created, written and synced, renamed, and
/// its directory synced, in this order and each with success.
pub proof fn law_commit_needs_every_step(outcomes: Seq<FileOutcome>)
    ensures
        persist_all(PersistStep::CreateTemp, outcomes) is Committed <==> outcomes.len() >= 5 && (
        forall|i: int| 0 <= i < 5 ==> #[trigger] outcomes[i] is Done),
        forall|k: int|
            0 <= k <= 5 && k <= outcomes.len() && (forall|i: int|
                0 <= i < k ==> #[trigger] outcomes[i] is Done) ==> #[trigger] persist_all(
                PersistStep::CreateTemp,
                outcomes.take(k),
            ) == persist_order(k),
{
    lemma_persist_order(outcomes);
    assert forall|k: int|
        0 <= k <= 5 && k <= outcomes.len() && (forall|i: int|
            0 <= i < k ==> #[trigger] outcomes[i] is Done) implies #[trigger] persist_all(
        PersistStep::CreateTemp,
        outcomes.take(k),
    ) == persist_order(k) by {
        lemma_persist_order(outcomes.take(k));
        assert forall|i: int| 0 <= i < k implies #[trigger] outcomes.take(k)[i] is Done by {
            assert(outcomes[i] is Done);
        }
    }
}

} // verus!
