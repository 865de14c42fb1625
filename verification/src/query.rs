//! Query plans: the steps of a stack machine that a path query compiles to,
//! and whether a plan leaves the stack as deep as it found it.

use vstd::prelude::*;
use crate::value::PrimitiveValue;

verus! {

#[derive(Debug)]
pub struct QueryPlan {
    pub steps: Vec<QueryStep>,
}

/// One step of a query plan. Each step pops some values off the stack and
/// pushes some.
#[derive(Debug)]
pub enum QueryStep {
    Const(PrimitiveValue),
    CurrentPoint,
    ExtendPoint(String),
    LensGet,
    LensPut,
    PeekAndFulfillResult(String),
    PointGet,
    PointPut,
    Pop,
    /// Runs the subplan for every entry of an index, with the entry on the
    /// subplan's stack.
    RangeScanIndex { subplan: Box<QueryPlan> },
    /// Runs the subplan for every key of a range, with the key on the
    /// subplan's stack.
    RangeScanKeys { subplan: Box<QueryPlan> },
    Swap2,
}

/// How many values a step pops.
pub open spec fn pops(step: QueryStep) -> nat {
    match step {
        QueryStep::Const(_) => 0,
        QueryStep::CurrentPoint => 0,
        QueryStep::ExtendPoint(_) => 0,
        QueryStep::LensGet => 1,
        QueryStep::LensPut => 2,
        QueryStep::PeekAndFulfillResult(_) => 1,
        QueryStep::PointGet => 1,
        QueryStep::PointPut => 2,
        QueryStep::Pop => 1,
        QueryStep::RangeScanIndex { .. } => 2,
        QueryStep::RangeScanKeys { .. } => 2,
        QueryStep::Swap2 => 2,
    }
}

/// How many values a step pushes.
pub open spec fn pushes(step: QueryStep) -> nat {
    match step {
        QueryStep::Const(_) => 1,
        QueryStep::CurrentPoint => 1,
        QueryStep::ExtendPoint(_) => 1,
        QueryStep::LensGet => 1,
        QueryStep::LensPut => 0,
        QueryStep::PeekAndFulfillResult(_) => 1,
        QueryStep::PointGet => 1,
        QueryStep::PointPut => 0,
        QueryStep::Pop => 0,
        QueryStep::RangeScanIndex { .. } => 0,
        QueryStep::RangeScanKeys { .. } => 0,
        QueryStep::Swap2 => 2,
    }
}

/// The plan, run on a stack of depth `start`, never pops from an empty stack
/// and ends at depth `start`; and so does every subplan, run on a stack of
/// depth 1.
pub open spec fn balanced(plan: QueryPlan, start: nat) -> bool
    decreases plan, 1nat,
{
    depth_after(plan.steps@, start, plan.steps@.len() as int) == Some(start)
}

/// The depth of the stack after the first `upto` steps, run on a stack of
/// depth `start`. Nothing where a step pops from too shallow a stack or a
/// subplan is not balanced.
pub open spec fn depth_after(steps: Seq<QueryStep>, start: nat, upto: int) -> Option<nat>
    decreases steps, upto,
{
    if 0 < upto <= steps.len() {
        match depth_after(steps, start, upto - 1) {
            None => None,
            Some(depth) => {
                let step = steps[upto - 1];
                let inner = match step {
                    QueryStep::RangeScanIndex { subplan } => balanced(*subplan, 1),
                    QueryStep::RangeScanKeys { subplan } => balanced(*subplan, 1),
                    _ => true,
                };
                if inner && depth >= pops(step) {
                    Some((depth - pops(step) + pushes(step)) as nat)
                } else {
                    None
                }
            },
        }
    } else {
        Some(start)
    }
}

proof fn lemma_depth_stays_none(steps: Seq<QueryStep>, start: nat, upto: int, len: int)
    requires
        0 <= upto <= len <= steps.len(),
        depth_after(steps, start, upto) is None,
    ensures
        depth_after(steps, start, len) is None,
    decreases len - upto,
{
    if upto < len {
        lemma_depth_stays_none(steps, start, upto, len - 1);
    }
}

proof fn lemma_depth_bound(steps: Seq<QueryStep>, start: nat, upto: int)
    requires
        0 <= upto <= steps.len(),
    ensures
        depth_after(steps, start, upto) matches Some(depth) ==> depth <= start + 2 * upto,
    decreases upto,
{
    if upto > 0 {
        lemma_depth_bound(steps, start, upto - 1);
    }
}

/// Whether the plan is balanced on a stack of depth `start`.
pub fn check_stack(plan: &QueryPlan, start: usize) -> (ok: bool)
    ensures
        ok == balanced(*plan, start as nat),
    decreases plan,
{
    let mut depth: u128 = start as u128;
    let mut i: usize = 0;
    while i < plan.steps.len()
        invariant
            i <= plan.steps@.len(),
            depth_after(plan.steps@, start as nat, i as int) == Some(depth as nat),
            depth <= start + 2 * i,
        decreases plan.steps.len() - i,
    {
        proof {
            if depth_after(plan.steps@, start as nat, i + 1) is None {
                lemma_depth_stays_none(plan.steps@, start as nat, i + 1, plan.steps@.len() as int);
            }
            lemma_depth_bound(plan.steps@, start as nat, i + 1);
        }
        let (pop, push): (u128, u128) = match &plan.steps[i] {
            QueryStep::Const(_) => (0, 1),
            QueryStep::CurrentPoint => (0, 1),
            QueryStep::ExtendPoint(_) => (0, 1),
            QueryStep::LensGet => (1, 1),
            QueryStep::LensPut => (2, 0),
            QueryStep::PeekAndFulfillResult(_) => (1, 1),
            QueryStep::PointGet => (1, 1),
            QueryStep::PointPut => (2, 0),
            QueryStep::Pop => (1, 0),
            QueryStep::RangeScanIndex { subplan } => {
                if !check_stack(subplan, 1) {
                    return false;
                }
                (2, 0)
            },
            QueryStep::RangeScanKeys { subplan } => {
                if !check_stack(subplan, 1) {
                    return false;
                }
                (2, 0)
            },
            QueryStep::Swap2 => (2, 2),
        };
        if depth < pop {
            return false;
        }
        depth = depth - pop + push;
        i += 1;
    }
    depth == start as u128
}

} // verus!
