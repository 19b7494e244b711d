use vstd::prelude::*;
use crate::classify::FileError;
use crate::paths::{resolve, resolve_destination, taken, within_root, lemma_resolve_free, lemma_resolve_within_root};

verus! {

/// One file found in the organized folder.
#[derive(Clone, Debug)]
pub struct FileRecord {
    /// Relative to the organized folder; unique within one scan.
    pub path: String,
    pub name: String,
    pub size: u64,
    pub modified: String,
    pub category: Option<String>,
}

/// What became of one file's classification.
#[derive(Clone, Debug)]
pub enum Outcome {
    /// Classified, and meant to go to this path inside the organized folder.
    Placed(String),
    /// Not classified or not placeable, for this reason.
    Failed(FileError),
}

/// What the plan does with one file.
#[derive(Clone, Debug)]
pub enum Action {
    /// Move the file to this path.
    Move(String),
    /// The file already sits where it belongs.
    Keep,
    /// The file is left in place: its classification failed.
    Failed(FileError),
    /// The file is left in place: the run's call budget was spent before it.
    SkippedByBudget,
    /// The file is left in place: the run was cancelled before it.
    Cancelled,
}

/// One file of a plan and what is to be done with it.
#[derive(Clone, Debug)]
pub struct PlanEntry {
    pub source: String,
    pub action: Action,
}

pub open spec fn paths_of(files: Seq<FileRecord>) -> Seq<String> {
    files.map_values(|f: FileRecord| f.path)
}

/// No two files share a path.
pub open spec fn distinct_paths(files: Seq<FileRecord>) -> bool {
    forall|i: int, j: int| 0 <= i < j < files.len() ==> files[i].path@ != files[j].path@
}

/// The paths of every file but the `i`-th.
pub open spec fn others(files: Seq<FileRecord>, i: int) -> Seq<String> {
    paths_of(files).subrange(0, i) + paths_of(files).subrange(i + 1, files.len() as int)
}

/// The destinations of the moves among `entries`, in order.
pub open spec fn move_dests(entries: Seq<PlanEntry>) -> Seq<String>
    decreases entries.len(),
{
    if entries.len() == 0 {
        Seq::empty()
    } else {
        let rest = move_dests(entries.drop_last());
        match entries.last().action {
            Action::Move(d) => rest.push(d),
            _ => rest,
        }
    }
}

/// The paths that the `i`-th file may not take: where the other files sit now,
/// and where the moves planned before it go.
pub open spec fn claimed(files: Seq<FileRecord>, i: int, before: Seq<PlanEntry>) -> Seq<String> {
    others(files, i) + move_dests(before)
}

/// Whether `e` is what the plan does with the `i`-th file, given what was planned before it.
pub open spec fn entry_planned(
    files: Seq<FileRecord>,
    outcomes: Seq<Outcome>,
    cancelled: bool,
    before: Seq<PlanEntry>,
    i: int,
    e: PlanEntry,
) -> bool {
    &&& e.source@ == files[i].path@
    &&& if i >= outcomes.len() {
        if cancelled {
            e.action is Cancelled
        } else {
            e.action is SkippedByBudget
        }
    } else {
        match outcomes[i] {
            Outcome::Failed(err) => e.action == Action::Failed(err),
            Outcome::Placed(t) => {
                let d = resolve(t@, claimed(files, i, before));
                if d == files[i].path@ {
                    e.action is Keep
                } else {
                    e.action matches Action::Move(m) && m@ == d
                }
            },
        }
    }
}

/// `plan` is the plan for `files`, whose first `outcomes.len()` were classified
/// before the run stopped, by cancellation where `cancelled` holds.
pub open spec fn is_plan(
    files: Seq<FileRecord>,
    outcomes: Seq<Outcome>,
    cancelled: bool,
    plan: Seq<PlanEntry>,
) -> bool {
    &&& plan.len() == files.len()
    &&& forall|i: int|
        0 <= i < plan.len() ==> #[trigger] entry_planned(
            files,
            outcomes,
            cancelled,
            plan.subrange(0, i),
            i,
            plan[i],
        )
}

/// Where a planned file ends up: its move's destination, or where it is.
pub open spec fn final_path(e: PlanEntry) -> Seq<char> {
    match e.action {
        Action::Move(d) => d@,
        _ => e.source@,
    }
}

/// The paths of every file but the `i`-th.
fn other_paths(files: &Vec<FileRecord>, i: usize) -> (r: Vec<String>)
    requires
        i < files@.len(),
    ensures
        r@ == others(files@, i as int),
{
    let mut r: Vec<String> = Vec::new();
    let mut j: usize = 0;
    while j < files.len()
        invariant
            i < files@.len(),
            j <= files@.len(),
            r@ =~= if j <= i {
                paths_of(files@).subrange(0, j as int)
            } else {
                paths_of(files@).subrange(0, i as int) + paths_of(files@).subrange(
                    i + 1,
                    j as int,
                )
            },
        decreases files@.len() - j,
    {
        if j != i {
            r.push(files[j].path.clone());
        }
        j = j + 1;
    }
    assert(r@ =~= others(files@, i as int));
    r
}

/// Builds the plan: each classified file goes to its target, or, where that is
/// claimed, to the first free numbered variant of it; a file already at its
/// place is kept; a failed file and one the run did not reach stay where they are.
pub fn build_plan(files: &Vec<FileRecord>, outcomes: &Vec<Outcome>, cancelled: bool) -> (r: Vec<
    PlanEntry,
>)
    requires
        outcomes@.len() <= files@.len(),
    ensures
        is_plan(files@, outcomes@, cancelled, r@),
{
    let mut r: Vec<PlanEntry> = Vec::new();
    let mut dests: Vec<String> = Vec::new();
    let mut i: usize = 0;
    while i < files.len()
        invariant
            outcomes@.len() <= files@.len(),
            i <= files@.len(),
            r@.len() == i,
            dests@ == move_dests(r@),
            forall|k: int|
                0 <= k < i ==> #[trigger] entry_planned(
                    files@,
                    outcomes@,
                    cancelled,
                    r@.subrange(0, k),
                    k,
                    r@[k],
                ),
        decreases files@.len() - i,
    {
        let source = files[i].path.clone();
        let action = if i >= outcomes.len() {
            if cancelled {
                Action::Cancelled
            } else {
                Action::SkippedByBudget
            }
        } else {
            match &outcomes[i] {
                Outcome::Failed(err) => Action::Failed(*err),
                Outcome::Placed(t) => {
                    let mut used = other_paths(files, i);
                    let mut j: usize = 0;
                    while j < dests.len()
                        invariant
                            j <= dests@.len(),
                            used@ =~= others(files@, i as int) + dests@.subrange(0, j as int),
                        decreases dests@.len() - j,
                    {
                        used.push(dests[j].clone());
                        j = j + 1;
                    }
                    assert(used@ =~= claimed(files@, i as int, r@));
                    let d = resolve_destination(t.as_str(), &used);
                    if d == source {
                        Action::Keep
                    } else {
                        Action::Move(d)
                    }
                },
            }
        };
        let e = PlanEntry { source, action };
        assert(entry_planned(files@, outcomes@, cancelled, r@, i as int, e));
        let ghost old_r = r@;
        if let Action::Move(d) = &e.action {
            dests.push(d.clone());
        }
        r.push(e);
        proof {
            assert(r@.drop_last() =~= old_r);
            assert forall|k: int| 0 <= k <= i implies r@.subrange(0, k) =~= old_r.subrange(0, k) by {}
            assert(r@.subrange(0, i as int) =~= old_r);
            assert forall|k: int|
                0 <= k < i + 1 implies #[trigger] entry_planned(
                files@,
                outcomes@,
                cancelled,
                r@.subrange(0, k),
                k,
                r@[k],
            ) by {
                assert(r@.subrange(0, k) =~= old_r.subrange(0, k));
            }
        }
        i = i + 1;
    }
    r
}

proof fn lemma_taken_left(a: Seq<String>, b: Seq<String>, x: Seq<char>)
    requires
        taken(a, x),
    ensures
        taken(a + b, x),
{
    let w = choose|w: int| 0 <= w < a.len() && a[w]@ == x;
    assert((a + b)[w]@ == x);
}

proof fn lemma_taken_right(a: Seq<String>, b: Seq<String>, x: Seq<char>)
    requires
        taken(b, x),
    ensures
        taken(a + b, x),
{
    let w = choose|w: int| 0 <= w < b.len() && b[w]@ == x;
    assert((a + b)[a.len() + w]@ == x);
}

proof fn lemma_others_hold(files: Seq<FileRecord>, j: int, i: int)
    requires
        0 <= i < files.len(),
        0 <= j < files.len(),
        i != j,
    ensures
        taken(others(files, j), files[i].path@),
{
    let o = others(files, j);
    if i < j {
        assert(o[i] == files[i].path);
    } else {
        assert(o[i - 1] == files[i].path);
    }
}

proof fn lemma_move_dests_hold(plan: Seq<PlanEntry>, i: int, j: int)
    requires
        0 <= i < j <= plan.len(),
        plan[i].action is Move,
    ensures
        taken(move_dests(plan.subrange(0, j)), final_path(plan[i])),
    decreases j,
{
    let s = plan.subrange(0, j);
    assert(s.drop_last() =~= plan.subrange(0, j - 1));
    let m = move_dests(s);
    if i == j - 1 {
        assert(m[m.len() - 1]@ == final_path(plan[i]));
    } else {
        lemma_move_dests_hold(plan, i, j - 1);
        let prev = move_dests(plan.subrange(0, j - 1));
        let w = choose|w: int| 0 <= w < prev.len() && prev[w]@ == final_path(plan[i]);
        assert(m[w] == prev[w]);
    }
}

proof fn lemma_no_moves_no_dests(plan: Seq<PlanEntry>)
    requires
        forall|k: int| 0 <= k < plan.len() ==> plan[k].action is Keep,
    ensures
        move_dests(plan) =~= Seq::<String>::empty(),
    decreases plan.len(),
{
    if plan.len() > 0 {
        lemma_no_moves_no_dests(plan.drop_last());
    }
}

/// No two files of a plan end up at the same path: a move never lands where
/// another file sits or where an earlier move goes.
pub proof fn lemma_plan_destinations_distinct(
    files: Seq<FileRecord>,
    outcomes: Seq<Outcome>,
    cancelled: bool,
    plan: Seq<PlanEntry>,
)
    requires
        is_plan(files, outcomes, cancelled, plan),
        distinct_paths(files),
    ensures
        forall|i: int, j: int|
            0 <= i < plan.len() && 0 <= j < plan.len() && i != j ==> final_path(plan[i])
                != final_path(plan[j]),
{
    assert forall|i: int, j: int|
        0 <= i < j < plan.len() implies final_path(plan[i]) != final_path(plan[j]) by {
        assert(entry_planned(files, outcomes, cancelled, plan.subrange(0, i), i, plan[i]));
        assert(entry_planned(files, outcomes, cancelled, plan.subrange(0, j), j, plan[j]));
        if plan[j].action is Move {
            let t = outcomes[j]->Placed_0;
            let used = claimed(files, j, plan.subrange(0, j));
            lemma_resolve_free(t@, used);
            if plan[i].action is Move {
                lemma_move_dests_hold(plan, i, j);
                lemma_taken_right(others(files, j), move_dests(plan.subrange(0, j)), final_path(plan[i]));
            } else {
                lemma_others_hold(files, j, i);
                lemma_taken_left(others(files, j), move_dests(plan.subrange(0, j)), final_path(plan[i]));
            }
        } else if plan[i].action is Move {
            let t = outcomes[i]->Placed_0;
            let used = claimed(files, i, plan.subrange(0, i));
            lemma_resolve_free(t@, used);
            lemma_others_hold(files, i, j);
            lemma_taken_left(others(files, i), move_dests(plan.subrange(0, i)), final_path(plan[j]));
        }
    }
    assert forall|i: int, j: int|
        0 <= i < plan.len() && 0 <= j < plan.len() && i != j implies final_path(plan[i])
            != final_path(plan[j]) by {
        if j < i {
            assert(final_path(plan[j]) != final_path(plan[i]));
        }
    }
}

proof fn lemma_settled_prefix(
    files: Seq<FileRecord>,
    outcomes: Seq<Outcome>,
    cancelled: bool,
    plan: Seq<PlanEntry>,
    n: int,
)
    requires
        is_plan(files, outcomes, cancelled, plan),
        distinct_paths(files),
        outcomes.len() == files.len(),
        forall|i: int|
            0 <= i < outcomes.len() ==> (#[trigger] outcomes[i] matches Outcome::Placed(t) && t@
                == files[i].path@),
        0 <= n <= plan.len(),
    ensures
        forall|k: int| 0 <= k < n ==> plan[k].action is Keep,
    decreases n,
{
    if n > 0 {
        let i = n - 1;
        lemma_settled_prefix(files, outcomes, cancelled, plan, i);
        let before = plan.subrange(0, i);
        lemma_no_moves_no_dests(before);
        assert(entry_planned(files, outcomes, cancelled, before, i, plan[i]));
        let t = outcomes[i]->Placed_0;
        let used = claimed(files, i, before);
        assert(used =~= others(files, i));
        assert forall|w: int| 0 <= w < used.len() implies used[w]@ != t@ by {
            if w < i {
                assert(used[w] == files[w].path);
            } else {
                assert(used[w] == files[w + 1].path);
            }
        }
        assert(resolve(t@, used) == t@);
    }
}

/// A folder whose files all sit at their targets already is left as it is:
/// organizing it again plans no move.
pub proof fn lemma_settled_plan_moves_nothing(
    files: Seq<FileRecord>,
    outcomes: Seq<Outcome>,
    cancelled: bool,
    plan: Seq<PlanEntry>,
)
    requires
        is_plan(files, outcomes, cancelled, plan),
        distinct_paths(files),
        outcomes.len() == files.len(),
        forall|i: int|
            0 <= i < outcomes.len() ==> (#[trigger] outcomes[i] matches Outcome::Placed(t) && t@
                == files[i].path@),
    ensures
        forall|k: int| 0 <= k < plan.len() ==> plan[k].action is Keep,
{
    lemma_settled_prefix(files, outcomes, cancelled, plan, plan.len() as int);
}

/// A plan never sends a file outside the organized folder: where every target
/// lies inside it, so does every move, numbered variants included.
pub proof fn lemma_moves_within_root(
    files: Seq<FileRecord>,
    outcomes: Seq<Outcome>,
    cancelled: bool,
    plan: Seq<PlanEntry>,
)
    requires
        is_plan(files, outcomes, cancelled, plan),
        forall|i: int|
            0 <= i < outcomes.len() ==> (#[trigger] outcomes[i] matches Outcome::Placed(t) ==> within_root(t@)),
    ensures
        forall|i: int|
            0 <= i < plan.len() ==> (#[trigger] plan[i].action matches Action::Move(d) ==> within_root(d@)),
{
    assert forall|i: int| 0 <= i < plan.len() implies (#[trigger] plan[i].action matches Action::Move(d)
        ==> within_root(d@)) by {
        assert(entry_planned(files, outcomes, cancelled, plan.subrange(0, i), i, plan[i]));
        if plan[i].action is Move {
            let t = outcomes[i]->Placed_0;
            lemma_resolve_within_root(t@, claimed(files, i, plan.subrange(0, i)));
        }
    }
}

} // verus!
