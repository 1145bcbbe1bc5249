//! Recovering the journal when it is opened: the records that were completely written are
//! committed one after another, and then the directory is synced.

use vstd::prelude::*;

use crate::journal::Promotion;

verus! {

/// What is done next to recover the journal.
#[derive(Clone, Copy, Debug, PartialEq, Eq, Structural)]
pub enum RecoveryStep {
    /// Rename the current record.
    Rename,
    /// Sync the directory.
    SyncDirectory,
    /// The journal is open.
    Open,
    /// The journal could not be recovered, and is not open.
    Failed,
}

/// A recovery: what it does next, and the renames that are still to be done.
#[verifier::ext_equal]
pub struct RecoveryView {
    pub step: RecoveryStep,
    pub queue: Seq<(Seq<char>, Seq<char>)>,
}

/// The recovery before anything was renamed. Where nothing is to be renamed, nothing is to be
/// synced either.
pub open spec fn recovery_begun(plan: Seq<(Seq<char>, Seq<char>)>) -> RecoveryView {
    RecoveryView {
        step: if plan.len() == 0 {
            RecoveryStep::Open
        } else {
            RecoveryStep::Rename
        },
        queue: plan,
    }
}

/// The recovery after a file operation that was done or failed. The first failure ends it.
pub open spec fn recovery_next(v: RecoveryView, done: bool) -> RecoveryView {
    match v.step {
        RecoveryStep::Rename => if !done {
            RecoveryView { step: RecoveryStep::Failed, ..v }
        } else if v.queue.len() > 1 {
            RecoveryView { step: RecoveryStep::Rename, queue: v.queue.skip(1) }
        } else {
            RecoveryView { step: RecoveryStep::SyncDirectory, queue: Seq::empty() }
        },
        RecoveryStep::SyncDirectory => RecoveryView {
            step: if done {
                RecoveryStep::Open
            } else {
                RecoveryStep::Failed
            },
            ..v
        },
        _ => v,
    }
}

/// A journal that is being recovered.
#[derive(Debug)]
pub struct Recovery {
    step: RecoveryStep,
    plan: Vec<Promotion>,
    next: usize,
}

impl View for Recovery {
    type V = RecoveryView;

    closed spec fn view(&self) -> RecoveryView {
        RecoveryView {
            step: self.step,
            queue: self.plan@.skip(self.next as int).map_values(|p: Promotion| p@),
        }
    }
}

impl Recovery {
    #[verifier::type_invariant]
    spec fn in_range(self) -> bool {
        &&& self.next <= self.plan@.len() <= usize::MAX
        &&& self.step is Rename ==> self.next < self.plan@.len()
    }

    /// Begins to carry out what recovery planned.
    pub fn begin(plan: Vec<Promotion>) -> (r: Recovery)
        ensures
            r@ == recovery_begun(plan@.map_values(|p: Promotion| p@)),
    {
        let step: RecoveryStep = if plan.len() == 0 {
            RecoveryStep::Open
        } else {
            RecoveryStep::Rename
        };
        assert(plan@.skip(0) =~= plan@);
        Recovery { step, plan, next: 0 }
    }

    /// What is done next.
    pub fn step(&self) -> (r: RecoveryStep)
        ensures
            r == self@.step,
    {
        self.step
    }

    /// The record that is renamed next.
    pub fn current(&self) -> (r: Option<&Promotion>)
        ensures
            match r {
                Some(promotion) => self@.queue.len() > 0 && promotion@ == self@.queue[0],
                None => self@.queue.len() == 0,
            },
    {
        proof {
            use_type_invariant(self);
        }
        if self.next < self.plan.len() {
            Some(&self.plan[self.next])
        } else {
            None
        }
    }

    /// The recovery after a file operation that was done or failed.
    pub fn after(self, done: bool) -> (r: Recovery)
        ensures
            r@ == recovery_next(self@, done),
    {
        proof {
            use_type_invariant(&self);
            if self.next < self.plan@.len() {
                assert(self.plan@.skip(self.next + 1).map_values(|p: Promotion| p@)
                    =~= self@.queue.skip(1));
            }
        }
        let Recovery { step, plan, next } = self;
        match step {
            RecoveryStep::Rename => {
                if !done {
                    Recovery { step: RecoveryStep::Failed, plan, next }
                } else {
                    let step: RecoveryStep = if next + 1 < plan.len() {
                        RecoveryStep::Rename
                    } else {
                        RecoveryStep::SyncDirectory
                    };
                    let r: Recovery = Recovery { step, plan, next: next + 1 };
                    assert(r@.queue.len() == 0 ==> r@.queue =~= Seq::empty());
                    r
                }
            },
            RecoveryStep::SyncDirectory => {
                let step: RecoveryStep = if done {
                    RecoveryStep::Open
                } else {
                    RecoveryStep::Failed
                };
                Recovery { step, plan, next }
            },
            step => Recovery { step, plan, next },
        }
    }
}

/// The recovery after a sequence of file operations.
pub open spec fn recovery_all(v: RecoveryView, outcomes: Seq<bool>) -> RecoveryView
    decreases outcomes.len(),
{
    if outcomes.len() == 0 {
        v
    } else {
        recovery_next(recovery_all(v, outcomes.drop_last()), outcomes.last())
    }
}

/// The journal is open exactly where every planned rename was done, in the order of the plan,
/// and after them, where there was one, the sync of the directory. After the first failure it
/// never is.
pub proof fn law_open_needs_every_rename_and_sync(
    plan: Seq<(Seq<char>, Seq<char>)>,
    outcomes: Seq<bool>,
)
    ensures
        ({
            let v = recovery_all(recovery_begun(plan), outcomes);
            let k = outcomes.len() as int;
            if plan.len() == 0 {
                v.step is Open
            } else if exists|i: int|
                0 <= i < outcomes.len() && i <= plan.len() && !#[trigger] outcomes[i] {
                v.step is Failed
            } else if k < plan.len() {
                v == RecoveryView { step: RecoveryStep::Rename, queue: plan.skip(k) }
            } else if k == plan.len() {
                v == RecoveryView { step: RecoveryStep::SyncDirectory, queue: Seq::empty() }
            } else {
                v.step is Open
            }
        }),
    decreases outcomes.len(),
{
    if outcomes.len() == 0 {
        assert(plan.skip(0) =~= plan);
    } else {
        let before = outcomes.drop_last();
        let n = before.len() as int;
        law_open_needs_every_rename_and_sync(plan, before);
        assert(forall|i: int| 0 <= i < n ==> #[trigger] before[i] == outcomes[i]);
        if exists|i: int| 0 <= i < before.len() && i <= plan.len() && !#[trigger] before[i] {
            let i = choose|i: int|
                0 <= i < before.len() && i <= plan.len() && !#[trigger] before[i];
            assert(!outcomes[i]);
        } else if exists|i: int|
            0 <= i < outcomes.len() && i <= plan.len() && !#[trigger] outcomes[i] {
            let i = choose|i: int|
                0 <= i < outcomes.len() && i <= plan.len() && !#[trigger] outcomes[i];
            if i < n {
                assert(!before[i]);
            }
        } else {
            assert(n <= plan.len() ==> outcomes[n]);
            if n < plan.len() {
                assert(plan.skip(n).skip(1) =~= plan.skip(n + 1));
            }
        }
    }
}

} // verus!
