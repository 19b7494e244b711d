use vstd::prelude::*;
use crate::classify::FileError;
use crate::plan::{Action, PlanEntry};

verus! {

/// One move to perform: from the first path to the second.
#[derive(Clone, Debug)]
pub struct Move {
    pub from: String,
    pub to: String,
}

/// What became of one file once a plan was carried out.
#[derive(Clone, Copy, Debug, PartialEq, Eq, Structural)]
pub enum Status {
    Moved,
    Kept,
    Failed(FileError),
    SkippedByBudget,
    Cancelled,
}

/// One line of an execution report.
#[derive(Clone, Debug)]
pub struct ReportEntry {
    pub source: String,
    pub destination: String,
    pub status: Status,
}

/// The moves of `plan`, in order, as pairs of paths.
pub open spec fn planned_moves(plan: Seq<PlanEntry>) -> Seq<(Seq<char>, Seq<char>)>
    decreases plan.len(),
{
    if plan.len() == 0 {
        Seq::empty()
    } else {
        let rest = planned_moves(plan.drop_last());
        match plan.last().action {
            Action::Move(d) => rest.push((plan.last().source@, d@)),
            _ => rest,
        }
    }
}

/// What is to be carried out: nothing on a preview or without approval, else
/// the plan's moves.
pub open spec fn moves_owed(plan: Seq<PlanEntry>, preview: bool, auto_approve: bool) -> Seq<
    (Seq<char>, Seq<char>),
> {
    if preview || !auto_approve {
        Seq::empty()
    } else {
        planned_moves(plan)
    }
}

/// The moves to carry out for `plan`. A preview carries out none, and neither
/// does a run without approval.
pub fn moves_to_perform(plan: &Vec<PlanEntry>, preview: bool, auto_approve: bool) -> (r: Vec<Move>)
    ensures
        r@.map_values(|m: Move| (m.from@, m.to@)) == moves_owed(plan@, preview, auto_approve),
        preview ==> r@.len() == 0,
{
    let mut r: Vec<Move> = Vec::new();
    if preview || !auto_approve {
        assert(r@.map_values(|m: Move| (m.from@, m.to@)) =~= Seq::<(Seq<char>, Seq<char>)>::empty());
        return r;
    }
    let mut i: usize = 0;
    while i < plan.len()
        invariant
            i <= plan@.len(),
            r@.map_values(|m: Move| (m.from@, m.to@)) =~= planned_moves(plan@.subrange(0, i as int)),
        decreases plan@.len() - i,
    {
        assert(plan@.subrange(0, i + 1).drop_last() =~= plan@.subrange(0, i as int));
        if let Action::Move(d) = &plan[i].action {
            r.push(Move { from: plan[i].source.clone(), to: d.clone() });
        }
        i = i + 1;
        assert(r@.map_values(|m: Move| (m.from@, m.to@)) =~= planned_moves(plan@.subrange(0, i as int)));
    }
    assert(plan@.subrange(0, plan@.len() as int) =~= plan@);
    r
}

/// The status of a planned entry, given whether its move (if any) succeeded.
pub open spec fn status_of(action: Action, done: bool) -> Status {
    match action {
        Action::Move(_) => if done {
            Status::Moved
        } else {
            Status::Failed(FileError::Io)
        },
        Action::Keep => Status::Kept,
        Action::Failed(e) => Status::Failed(e),
        Action::SkippedByBudget => Status::SkippedByBudget,
        Action::Cancelled => Status::Cancelled,
    }
}

/// Where an entry's file is after the run: moved, or where it was.
pub open spec fn reported_path(e: PlanEntry, done: bool) -> Seq<char> {
    match e.action {
        Action::Move(d) => if done {
            d@
        } else {
            e.source@
        },
        _ => e.source@,
    }
}

/// The report of an executed plan: every file with its outcome. `done[i]` says
/// whether the move of entry `i` succeeded; it is read for moves only.
pub fn execution_report(plan: &Vec<PlanEntry>, done: &Vec<bool>) -> (r: Vec<ReportEntry>)
    requires
        done@.len() == plan@.len(),
    ensures
        r@.len() == plan@.len(),
        forall|i: int|
            0 <= i < plan@.len() ==> {
                &&& r@[i].source@ == plan@[i].source@
                &&& r@[i].status == status_of(plan@[i].action, done@[i])
                &&& r@[i].destination@ == reported_path(plan@[i], done@[i])
            },
{
    let mut r: Vec<ReportEntry> = Vec::new();
    let mut i: usize = 0;
    while i < plan.len()
        invariant
            done@.len() == plan@.len(),
            i <= plan@.len(),
            r@.len() == i,
            forall|k: int|
                0 <= k < i ==> {
                    &&& r@[k].source@ == plan@[k].source@
                    &&& r@[k].status == status_of(plan@[k].action, done@[k])
                    &&& r@[k].destination@ == reported_path(plan@[k], done@[k])
                },
        decreases plan@.len() - i,
    {
        let e = &plan[i];
        let (status, destination) = match &e.action {
            Action::Move(d) => if done[i] {
                (Status::Moved, d.clone())
            } else {
                (Status::Failed(FileError::Io), e.source.clone())
            },
            Action::Keep => (Status::Kept, e.source.clone()),
            Action::Failed(err) => (Status::Failed(*err), e.source.clone()),
            Action::SkippedByBudget => (Status::SkippedByBudget, e.source.clone()),
            Action::Cancelled => (Status::Cancelled, e.source.clone()),
        };
        r.push(ReportEntry { source: e.source.clone(), destination, status });
        i = i + 1;
    }
    r
}

} // verus!
