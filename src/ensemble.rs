use vstd::prelude::*;
use crate::classify::{Classification, CONFIDENCE_SCALE, well_formed, copy_text, copy_tags};

verus! {

/// How many of the first `n` results name category `cat`.
pub open spec fn votes(rs: Seq<Classification>, cat: Seq<char>, n: int) -> nat
    decreases n,
{
    if n <= 0 {
        0
    } else {
        votes(rs, cat, n - 1) + if rs[n - 1].category@ == cat {
            1nat
        } else {
            0nat
        }
    }
}

/// The summed confidence of the first `n` results that name category `cat`.
pub open spec fn agreeing_confidence(rs: Seq<Classification>, cat: Seq<char>, n: int) -> nat
    decreases n,
{
    if n <= 0 {
        0
    } else {
        agreeing_confidence(rs, cat, n - 1) + if rs[n - 1].category@ == cat {
            rs[n - 1].confidence as nat
        } else {
            0nat
        }
    }
}

/// The summed cost of the first `n` results.
pub open spec fn total_cost(rs: Seq<Classification>, n: int) -> nat
    decreases n,
{
    if n <= 0 {
        0
    } else {
        total_cost(rs, n - 1) + rs[n - 1].cost_micro_usd as nat
    }
}

/// The summed tokens of the first `n` results.
pub open spec fn total_tokens(rs: Seq<Classification>, n: int) -> nat
    decreases n,
{
    if n <= 0 {
        0
    } else {
        total_tokens(rs, n - 1) + rs[n - 1].tokens_used as nat
    }
}

/// The longest processing time among the first `n` results.
pub open spec fn slowest(rs: Seq<Classification>, n: int) -> nat
    decreases n,
{
    if n <= 0 {
        0
    } else if rs[n - 1].processing_time_ms > slowest(rs, n - 1) {
        rs[n - 1].processing_time_ms as nat
    } else {
        slowest(rs, n - 1)
    }
}

/// `x`, or `cap` where `x` exceeds it.
pub open spec fn capped(x: nat, cap: nat) -> nat {
    if x > cap {
        cap
    } else {
        x
    }
}

/// Result `w` carries the winning category: no category has more votes, and
/// no earlier result names one with as many.
pub open spec fn is_winner(rs: Seq<Classification>, w: int) -> bool {
    let n = rs.len() as int;
    &&& 0 <= w < n
    &&& forall|j: int| 0 <= j < n ==> votes(rs, rs[j].category@, n) <= votes(rs, rs[w].category@, n)
    &&& forall|j: int| 0 <= j < w ==> votes(rs, rs[j].category@, n) < votes(rs, rs[w].category@, n)
}

/// The combined result: result `w`'s category and placement; as confidence the
/// confidence of the agreeing models summed and divided by the number of all
/// models, so that disagreement lowers it; costs and tokens summed, each stopping
/// at the largest value of its type; the slowest model's time.
pub open spec fn combined(rs: Seq<Classification>, w: int, r: Classification) -> bool {
    let n = rs.len() as int;
    let best = rs[w];
    &&& r.category == best.category
    &&& r.subcategory == best.subcategory
    &&& r.suggested_path == best.suggested_path
    &&& r.suggested_name == best.suggested_name
    &&& r.tags@ == best.tags@
    &&& r.summary == best.summary
    &&& r.reasoning == best.reasoning
    &&& r.model_used == best.model_used
    &&& r.confidence == agreeing_confidence(rs, best.category@, n) / (n as nat)
    &&& r.cost_micro_usd == capped(total_cost(rs, n), u64::MAX as nat)
    &&& r.tokens_used == capped(total_tokens(rs, n), u32::MAX as nat)
    &&& r.processing_time_ms == slowest(rs, n)
}

proof fn lemma_agreeing_bound(rs: Seq<Classification>, cat: Seq<char>, n: int)
    requires
        0 <= n <= rs.len(),
        forall|i: int| 0 <= i < rs.len() ==> well_formed(#[trigger] rs[i]),
    ensures
        agreeing_confidence(rs, cat, n) <= votes(rs, cat, n) * CONFIDENCE_SCALE,
        votes(rs, cat, n) <= n,
    decreases n,
{
    if n > 0 {
        lemma_agreeing_bound(rs, cat, n - 1);
        assert(well_formed(rs[n - 1]));
    }
}

/// How many of the results name `cat`, and their summed confidence.
fn tally(rs: &Vec<Classification>, cat: &String) -> (r: (u64, u64))
    requires
        rs@.len() <= u32::MAX,
        forall|i: int| 0 <= i < rs@.len() ==> well_formed(#[trigger] rs@[i]),
    ensures
        r.0 == votes(rs@, cat@, rs@.len() as int),
        r.1 == agreeing_confidence(rs@, cat@, rs@.len() as int),
{
    let mut count: u64 = 0;
    let mut conf: u64 = 0;
    let mut i: usize = 0;
    while i < rs.len()
        invariant
            i <= rs@.len() <= u32::MAX,
            forall|k: int| 0 <= k < rs@.len() ==> well_formed(#[trigger] rs@[k]),
            count == votes(rs@, cat@, i as int),
            conf == agreeing_confidence(rs@, cat@, i as int),
        decreases rs@.len() - i,
    {
        proof {
            lemma_agreeing_bound(rs@, cat@, i as int + 1);
            assert((i as int + 1) * CONFIDENCE_SCALE <= u32::MAX as int * 1000000) by (nonlinear_arith)
                requires
                    i + 1 <= u32::MAX,
            ;
            assert(votes(rs@, cat@, i as int + 1) * CONFIDENCE_SCALE <= (i as int + 1) * CONFIDENCE_SCALE)
                by (nonlinear_arith)
                requires
                    votes(rs@, cat@, i as int + 1) <= i + 1,
            ;
        }
        if rs[i].category == *cat {
            count = count + 1;
            conf = conf + rs[i].confidence as u64;
        }
        i = i + 1;
    }
    (count, conf)
}

/// Combines the results of several models into one by majority vote on the
/// category, the earliest result winning a tie; `None` when there is none.
pub fn combine(rs: &Vec<Classification>) -> (r: Option<Classification>)
    requires
        rs@.len() <= u32::MAX,
        forall|i: int| 0 <= i < rs@.len() ==> well_formed(#[trigger] rs@[i]),
    ensures
        rs@.len() == 0 ==> r is None,
        rs@.len() > 0 ==> (r matches Some(c) && exists|w: int| is_winner(rs@, w) && combined(rs@, w, c)),
        r matches Some(c) ==> well_formed(c),
{
    let n = rs.len();
    if n == 0 {
        return None;
    }
    let ghost s = rs@;
    let mut best: usize = 0;
    let (mut best_votes, mut best_conf) = tally(rs, &rs[0].category);
    let mut i: usize = 1;
    while i < n
        invariant
            n == s.len(),
            s == rs@,
            1 <= i <= n <= u32::MAX,
            forall|k: int| 0 <= k < n ==> well_formed(#[trigger] s[k]),
            best < i,
            best_votes == votes(s, s[best as int].category@, n as int),
            best_conf == agreeing_confidence(s, s[best as int].category@, n as int),
            forall|j: int| 0 <= j < i ==> votes(s, s[j].category@, n as int) <= best_votes,
            forall|j: int| 0 <= j < best ==> votes(s, s[j].category@, n as int) < best_votes,
        decreases n - i,
    {
        let (v, c) = tally(rs, &rs[i].category);
        if v > best_votes {
            best = i;
            best_votes = v;
            best_conf = c;
        }
        i = i + 1;
    }
    let mut cost: u64 = 0;
    let mut tokens: u32 = 0;
    let mut time: u32 = 0;
    let mut k: usize = 0;
    while k < n
        invariant
            n == s.len(),
            s == rs@,
            k <= n,
            cost == capped(total_cost(s, k as int), u64::MAX as nat),
            tokens == capped(total_tokens(s, k as int), u32::MAX as nat),
            time == slowest(s, k as int),
        decreases n - k,
    {
        let x = &rs[k];
        cost = match cost.checked_add(x.cost_micro_usd) {
            Some(c) => c,
            None => u64::MAX,
        };
        tokens = match tokens.checked_add(x.tokens_used) {
            Some(t) => t,
            None => u32::MAX,
        };
        if x.processing_time_ms > time {
            time = x.processing_time_ms;
        }
        k = k + 1;
    }
    proof {
        lemma_agreeing_bound(s, s[best as int].category@, n as int);
        assert(best_conf <= n * CONFIDENCE_SCALE) by (nonlinear_arith)
            requires
                best_conf <= best_votes * CONFIDENCE_SCALE,
                best_votes <= n,
        ;
    }
    let b = &rs[best];
    let confidence: u64 = best_conf / (n as u64);
    assert(confidence <= CONFIDENCE_SCALE) by (nonlinear_arith)
        requires
            best_conf <= n * CONFIDENCE_SCALE,
            n > 0,
            confidence as int == best_conf as int / (n as int),
    ;
    let r = Classification {
        category: b.category.clone(),
        subcategory: copy_text(&b.subcategory),
        confidence: confidence as u32,
        suggested_path: b.suggested_path.clone(),
        suggested_name: copy_text(&b.suggested_name),
        tags: copy_tags(&b.tags),
        summary: copy_text(&b.summary),
        reasoning: copy_text(&b.reasoning),
        model_used: b.model_used.clone(),
        processing_time_ms: time,
        tokens_used: tokens,
        cost_micro_usd: cost,
    };
    proof {
        assert(is_winner(s, best as int));
    }
    Some(r)
}

} // verus!
