use vstd::prelude::*;
use crate::classify::{Classification, FileError, well_formed, target_of};
use crate::paths::{within_root, is_within_root};
use crate::plan::{FileRecord, Outcome, PlanEntry, Action, is_plan, build_plan, lemma_moves_within_root};
use crate::tier::{Tier, budget_of};

verus! {

/// What a classifier's answer for a file of this name comes to.
pub open spec fn outcome_of(result: Result<Classification, FileError>, name: Seq<char>, o: Outcome) -> bool {
    match result {
        Err(e) => o == Outcome::Failed(e),
        Ok(c) => if !well_formed(c) {
            o == Outcome::Failed(FileError::Parse)
        } else if !within_root(target_of(c, name)) {
            o == Outcome::Failed(FileError::OutsideRoot)
        } else {
            o matches Outcome::Placed(t) && t@ == target_of(c, name)
        },
    }
}

/// Turns a classifier's answer for a file of this name into its outcome.
pub fn outcome_for(result: Result<Classification, FileError>, name: &str) -> (r: Outcome)
    ensures
        outcome_of(result, name@, r),
{
    match result {
        Err(e) => Outcome::Failed(e),
        Ok(c) => {
            if !c.is_well_formed() {
                Outcome::Failed(FileError::Parse)
            } else {
                let t = c.target(name);
                if is_within_root(t.as_str()) {
                    Outcome::Placed(t)
                } else {
                    Outcome::Failed(FileError::OutsideRoot)
                }
            }
        },
    }
}

/// One organize run: the files of the folder, classified one by one in order
/// until they are all done or the tier's call budget is spent. A result taken
/// from a cache costs no call.
pub struct Organizer {
    files: Vec<FileRecord>,
    budget: usize,
    outcomes: Vec<Outcome>,
    calls: usize,
    cancelled: bool,
}

impl Organizer {
    pub closed spec fn files(&self) -> Seq<FileRecord> {
        self.files@
    }

    pub closed spec fn budget(&self) -> nat {
        self.budget as nat
    }

    /// The outcome of each classification made so far, in file order.
    pub closed spec fn outcomes(&self) -> Seq<Outcome> {
        self.outcomes@
    }

    /// Whether the run was cancelled.
    pub closed spec fn cancelled(&self) -> bool {
        self.cancelled
    }

    /// How many classification calls were paid for so far.
    pub closed spec fn calls(&self) -> nat {
        self.calls as nat
    }

    /// Never more outcomes than files, never more calls than outcomes or than
    /// the budget allows, and every target inside the organized folder.
    pub open spec fn wf(&self) -> bool {
        &&& self.outcomes().len() <= self.files().len()
        &&& forall|i: int|
            0 <= i < self.outcomes().len() ==> (#[trigger] self.outcomes()[i] matches Outcome::Placed(
                t,
            ) ==> within_root(t@))
        &&& self.calls() <= self.outcomes().len()
        &&& self.calls() <= self.budget()
    }

    /// Whether the run goes on: a file is left, the budget still allows a call
    /// for it, and nobody cancelled.
    pub open spec fn may_classify(&self) -> bool {
        self.outcomes().len() < self.files().len() && self.calls() < self.budget() && !self.cancelled()
    }

    /// Starts a run over `files` with the call budget of `tier`.
    pub fn new(files: Vec<FileRecord>, tier: Tier) -> (r: Organizer)
        ensures
            r.wf(),
            r.files() == files@,
            r.budget() == budget_of(tier),
            r.outcomes().len() == 0,
            r.calls() == 0,
            !r.cancelled(),
    {
        Organizer { files, budget: tier.call_budget(), outcomes: Vec::new(), calls: 0, cancelled: false }
    }

    /// Stops the run: no classification is started after this, and what was
    /// recorded stays.
    pub fn cancel(&mut self)
        requires
            old(self).wf(),
        ensures
            final(self).wf(),
            final(self).cancelled(),
            final(self).files() == old(self).files(),
            final(self).budget() == old(self).budget(),
            final(self).calls() == old(self).calls(),
            final(self).outcomes() == old(self).outcomes(),
    {
        self.cancelled = true;
    }

    /// The files of the run.
    pub fn files_ref(&self) -> (r: &Vec<FileRecord>)
        ensures
            r@ == self.files(),
    {
        &self.files
    }

    /// How many classification calls were paid for so far.
    pub fn calls_made(&self) -> (r: usize)
        ensures
            r == self.calls(),
    {
        self.calls
    }

    /// The file to classify next, or `None` when all are done or the budget is spent.
    pub fn next_file(&self) -> (r: Option<usize>)
        requires
            self.wf(),
        ensures
            self.may_classify() ==> r == Some(self.outcomes().len() as usize),
            !self.may_classify() ==> r is None,
    {
        if self.outcomes.len() < self.files.len() && self.calls < self.budget && !self.cancelled {
            Some(self.outcomes.len())
        } else {
            None
        }
    }

    /// Records the classifier's answer for the next file, which cost one call.
    /// A failure is recorded against that file alone.
    pub fn record(&mut self, result: Result<Classification, FileError>)
        requires
            old(self).wf(),
            old(self).may_classify(),
        ensures
            final(self).wf(),
            final(self).files() == old(self).files(),
            final(self).budget() == old(self).budget(),
            final(self).calls() == old(self).calls() + 1,
            final(self).cancelled() == old(self).cancelled(),
            final(self).outcomes().len() == old(self).outcomes().len() + 1,
            final(self).outcomes().drop_last() == old(self).outcomes(),
            outcome_of(
                result,
                old(self).files()[old(self).outcomes().len() as int].name@,
                final(self).outcomes().last(),
            ),
    {
        let k = self.outcomes.len();
        let o = outcome_for(result, self.files[k].name.as_str());
        self.outcomes.push(o);
        self.calls = self.calls + 1;
        assert(self.outcomes@.drop_last() =~= old(self).outcomes@);
    }

    /// Records a cached classification for the next file, which costs no call.
    pub fn record_cached(&mut self, result: Classification)
        requires
            old(self).wf(),
            old(self).may_classify(),
        ensures
            final(self).wf(),
            final(self).files() == old(self).files(),
            final(self).budget() == old(self).budget(),
            final(self).calls() == old(self).calls(),
            final(self).cancelled() == old(self).cancelled(),
            final(self).outcomes().len() == old(self).outcomes().len() + 1,
            final(self).outcomes().drop_last() == old(self).outcomes(),
            outcome_of(
                Ok(result),
                old(self).files()[old(self).outcomes().len() as int].name@,
                final(self).outcomes().last(),
            ),
    {
        let k = self.outcomes.len();
        let o = outcome_for(Ok(result), self.files[k].name.as_str());
        self.outcomes.push(o);
        assert(self.outcomes@.drop_last() =~= old(self).outcomes@);
    }

    /// The plan for the files classified so far; the rest are cancelled, or
    /// skipped by budget.
    pub fn plan(&self) -> (r: Vec<PlanEntry>)
        requires
            self.wf(),
        ensures
            is_plan(self.files(), self.outcomes(), self.cancelled(), r@),
            forall|i: int|
                0 <= i < r@.len() ==> (#[trigger] r@[i].action matches Action::Move(d) ==> within_root(d@)),
    {
        let r = build_plan(&self.files, &self.outcomes, self.cancelled);
        proof {
            lemma_moves_within_root(self.files(), self.outcomes(), self.cancelled(), r@);
        }
        r
    }
}

/// A run never pays for more calls than its budget. Every file an uncancelled
/// run did not get to is skipped by budget; and once the budget stops it, with
/// every result paid for, exactly the files from the budget on are skipped.
pub proof fn lemma_budget_enforced(run: Organizer, plan: Seq<PlanEntry>)
    requires
        run.wf(),
        is_plan(run.files(), run.outcomes(), run.cancelled(), plan),
    ensures
        run.calls() <= run.budget(),
        !run.cancelled() ==> forall|i: int|
            run.outcomes().len() <= i < plan.len() ==> plan[i].action is SkippedByBudget,
        !run.cancelled() && !run.may_classify() && run.calls() == run.outcomes().len() ==> forall|i: int|
            0 <= i < plan.len() ==> (plan[i].action is SkippedByBudget <==> i >= run.budget()),
{
    assert forall|i: int| 0 <= i < plan.len() implies (plan[i].action is SkippedByBudget <==> (i
        >= run.outcomes().len() && !run.cancelled())) by {
        assert(crate::plan::entry_planned(run.files(), run.outcomes(), run.cancelled(), plan.subrange(0, i), i, plan[i]));
    }
}

/// A failed classification touches its own file alone: that file's entry
/// records the failure, and every other classified file is placed or kept
/// exactly when its own classification succeeded.
pub proof fn lemma_failure_isolated(
    files: Seq<FileRecord>,
    outcomes: Seq<Outcome>,
    cancelled: bool,
    plan: Seq<PlanEntry>,
    k: int,
    e: FileError,
)
    requires
        is_plan(files, outcomes, cancelled, plan),
        outcomes.len() <= files.len(),
        0 <= k < outcomes.len(),
        outcomes[k] == Outcome::Failed(e),
    ensures
        plan[k].action == Action::Failed(e),
        plan[k].source@ == files[k].path@,
        forall|i: int|
            0 <= i < outcomes.len() && i != k ==> (plan[i].action is Failed <==> outcomes[i] is Failed),
{
    assert(crate::plan::entry_planned(files, outcomes, cancelled, plan.subrange(0, k), k, plan[k]));
    assert forall|i: int|
        0 <= i < outcomes.len() && i != k implies (plan[i].action is Failed <==> outcomes[i] is Failed) by {
        assert(crate::plan::entry_planned(files, outcomes, cancelled, plan.subrange(0, i), i, plan[i]));
    }
}

} // verus!
