//! Whole runs: the order in which the nodes of a graph finish does not
//! matter for where the run ends and what it has handed out.

use vstd::prelude::*;
use super::bytecode::TwGraph;
use super::fire_rules::{rules_of, FireRuleItem};
use super::order::{
    lemma_complete_is, lemma_initially_pending, lemma_order_does_not_matter, lemma_stays_pending, pending,
};
use super::schedule::{
    fire_ready, initial_run, lemma_rules_in_range, result_fits, rules_in_range, run_shape, spec_complete,
    store_result, ReadyView, RunView,
};
use super::vm_value::ValueView;

verus! {

/// A node that finishes, and what it finishes with.
pub type Finish = (u32, Option<ValueView>);

/// Where a run ends after the nodes of `steps` have finished, in order, and
/// what it has handed out on the way; nothing where one of them fails.
pub open spec fn run_through(g: TwGraph, state: RunView, steps: Seq<Finish>) -> Option<(RunView, Set<ReadyView>)>
    decreases steps.len(),
{
    if steps.len() == 0 {
        Some((state, Set::empty()))
    } else {
        match spec_complete(g, rules_of(g, steps[0].0), state, steps[0].0, steps[0].1) {
            Ok((next, ready)) => match run_through(g, next, steps.drop_first()) {
                Some((end, handed)) => Some((end, ready.to_set().union(handed))),
                None => None,
            },
            Err(_) => None,
        }
    }
}

/// No node finishes twice.
pub open spec fn distinct_nodes(steps: Seq<Finish>) -> bool {
    forall|i: int, j: int| 0 <= i < j < steps.len() ==> (#[trigger] steps[i]).0 != (#[trigger] steps[j]).0
}

/// Every step of `q` is a step of `steps`.
pub open spec fn drawn_from(q: Seq<Finish>, steps: Seq<Finish>) -> bool {
    forall|i: int| 0 <= i < q.len() ==> steps.contains(#[trigger] q[i])
}

/// None of the nodes has finished, and each finishes with a result that fits
/// the nodes that wait for it.
pub open spec fn may_finish(g: TwGraph, state: RunView, steps: Seq<Finish>) -> bool {
    forall|i: int|
        0 <= i < steps.len() ==> pending(g, state, (#[trigger] steps[i]).0) && result_fits(
            rules_of(g, steps[i].0),
            steps[i].1,
        )
}

/// In whatever order some of the nodes finish, the run does not fail.
pub open spec fn no_order_fails(g: TwGraph, state: RunView, steps: Seq<Finish>) -> bool {
    forall|q: Seq<Finish>| distinct_nodes(q) && #[trigger] drawn_from(q, steps) ==> run_through(g, state, q) is Some
}

/// A run in `state` in which the nodes of `steps` are about to finish.
pub open spec fn runs_from(g: TwGraph, state: RunView, steps: Seq<Finish>) -> bool {
    &&& g.wf()
    &&& run_shape(g, state)
    &&& distinct_nodes(steps)
    &&& may_finish(g, state, steps)
    &&& no_order_fails(g, state, steps)
}

/// The same steps in another order are about to finish as well.
proof fn lemma_same_steps(g: TwGraph, state: RunView, steps: Seq<Finish>, other: Seq<Finish>)
    requires
        runs_from(g, state, steps),
        distinct_nodes(other),
        drawn_from(other, steps),
    ensures
        runs_from(g, state, other),
{
    assert forall|i: int| 0 <= i < other.len() implies pending(g, state, (#[trigger] other[i]).0) && result_fits(
        rules_of(g, other[i].0),
        other[i].1,
    ) by {
        assert(steps.contains(other[i]));
        let j = choose|j: int| 0 <= j < steps.len() && steps[j] == other[i];
        assert(pending(g, state, steps[j].0));
    }
    assert forall|q: Seq<Finish>| distinct_nodes(q) && #[trigger] drawn_from(q, other) implies run_through(
        g,
        state,
        q,
    ) is Some by {
        assert forall|i: int| 0 <= i < q.len() implies steps.contains(#[trigger] q[i]) by {
            assert(other.contains(q[i]));
            let j = choose|j: int| 0 <= j < other.len() && other[j] == q[i];
            assert(steps.contains(other[j]));
        }
        assert(drawn_from(q, steps));
    }
}

/// After the first step, the others are still about to finish.
proof fn lemma_after_first(g: TwGraph, state: RunView, steps: Seq<Finish>)
    requires
        runs_from(g, state, steps),
        steps.len() > 0,
    ensures
        spec_complete(g, rules_of(g, steps[0].0), state, steps[0].0, steps[0].1) is Ok,
        runs_from(
            g,
            spec_complete(g, rules_of(g, steps[0].0), state, steps[0].0, steps[0].1)->Ok_0.0,
            steps.drop_first(),
        ),
{
    let h = steps[0];
    let tail = steps.drop_first();
    let alone = seq![h];
    assert(steps.contains(alone[0]));
    assert(drawn_from(alone, steps));
    assert(run_through(g, state, alone) is Some);
    let next = spec_complete(g, rules_of(g, h.0), state, h.0, h.1)->Ok_0.0;
    lemma_complete_is(g, state, h.0, h.1);
    assert forall|i: int| 0 <= i < tail.len() implies pending(g, next, (#[trigger] tail[i]).0) && result_fits(
        rules_of(g, tail[i].0),
        tail[i].1,
    ) by {
        assert(tail[i] == steps[i + 1]);
        assert(steps[0].0 != steps[i + 1].0);
        lemma_stays_pending(g, state, h.0, h.1, tail[i].0);
    }
    assert forall|i: int, j: int| 0 <= i < j < tail.len() implies (#[trigger] tail[i]).0 != (#[trigger] tail[j]).0 by {
        assert(tail[i] == steps[i + 1]);
        assert(tail[j] == steps[j + 1]);
    }
    assert forall|q: Seq<Finish>| distinct_nodes(q) && #[trigger] drawn_from(q, tail) implies run_through(
        g,
        next,
        q,
    ) is Some by {
        let first = seq![h] + q;
        assert forall|i: int, j: int| 0 <= i < j < first.len() implies (#[trigger] first[i]).0 != (
        #[trigger] first[j]).0 by {
            assert(first[j] == q[j - 1]);
            if i == 0 {
                assert(tail.contains(q[j - 1]));
                let k = choose|k: int| 0 <= k < tail.len() && tail[k] == q[j - 1];
                assert(tail[k] == steps[k + 1]);
                assert(steps[0].0 != steps[k + 1].0);
            } else {
                assert(first[i] == q[i - 1]);
            }
        }
        assert forall|i: int| 0 <= i < first.len() implies steps.contains(#[trigger] first[i]) by {
            if i == 0 {
                assert(first[0] == steps[0]);
            } else {
                assert(first[i] == q[i - 1]);
                assert(tail.contains(q[i - 1]));
                let k = choose|k: int| 0 <= k < tail.len() && tail[k] == q[i - 1];
                assert(tail[k] == steps[k + 1]);
            }
        }
        assert(drawn_from(first, steps));
        assert(run_through(g, state, first) is Some);
        assert(first[0] == h);
        assert(first.drop_first() =~= q);
    }
}

/// The first two nodes of a run may finish in either order.
proof fn lemma_swap_front(g: TwGraph, state: RunView, a: Finish, b: Finish, rest: Seq<Finish>)
    requires
        runs_from(g, state, seq![a, b] + rest),
    ensures
        run_through(g, state, seq![a, b] + rest) == run_through(g, state, seq![b, a] + rest),
{
    let ab = seq![a, b] + rest;
    let ba = seq![b, a] + rest;
    assert(ab[0] == a && ab[1] == b);
    assert(a.0 != b.0);
    assert(pending(g, state, ab[0].0) && pending(g, state, ab[1].0));
    let q1 = seq![a, b];
    let q2 = seq![b, a];
    assert(drawn_from(q1, ab)) by {
        assert(ab.contains(ab[0]) && ab.contains(ab[1]));
    }
    assert(drawn_from(q2, ab)) by {
        assert(ab.contains(ab[0]) && ab.contains(ab[1]));
    }
    assert(run_through(g, state, q1) is Some);
    assert(run_through(g, state, q2) is Some);
    assert(q1.drop_first() =~= seq![b]);
    assert(q2.drop_first() =~= seq![a]);
    let (s1, r1) = spec_complete(g, rules_of(g, a.0), state, a.0, a.1)->Ok_0;
    let (s2, r2) = spec_complete(g, rules_of(g, b.0), state, b.0, b.1)->Ok_0;
    assert(run_through(g, s1, seq![b]) is Some);
    assert(run_through(g, s2, seq![a]) is Some);
    let (s12, r12) = spec_complete(g, rules_of(g, b.0), s1, b.0, b.1)->Ok_0;
    let (s21, r21) = spec_complete(g, rules_of(g, a.0), s2, a.0, a.1)->Ok_0;
    lemma_order_does_not_matter(g, state, a.0, a.1, b.0, b.1);
    assert(ab.drop_first() =~= seq![b] + rest);
    assert(ba.drop_first() =~= seq![a] + rest);
    assert((seq![b] + rest).drop_first() =~= rest);
    assert((seq![a] + rest).drop_first() =~= rest);
    assert((seq![b] + rest)[0] == b);
    assert((seq![a] + rest)[0] == a);
    assert(ba[0] == b);
    assert(s12 == s21);
    let after = run_through(g, s12, rest);
    assert(run_through(g, s1, seq![b] + rest) == (match after {
        Some((end, handed)) => Some((end, r12.to_set().union(handed))),
        None => None,
    }));
    assert(run_through(g, s2, seq![a] + rest) == (match after {
        Some((end, handed)) => Some((end, r21.to_set().union(handed))),
        None => None,
    }));
    assert(run_through(g, state, ab) == (match after {
        Some((end, handed)) => Some((end, r1.to_set().union(r12.to_set().union(handed)))),
        None => None,
    }));
    assert(run_through(g, state, ba) == (match after {
        Some((end, handed)) => Some((end, r2.to_set().union(r21.to_set().union(handed)))),
        None => None,
    }));
    match after {
        Some((end, handed)) => {
            assert forall|x: ReadyView|
                r1.to_set().union(r12.to_set().union(handed)).contains(x) == r2.to_set().union(
                    r21.to_set().union(handed),
                ).contains(x) by {
                assert((r1 + r12).contains(x) == (r2 + r21).contains(x));
                lemma_either_part(r1, r12, x);
                lemma_either_part(r2, r21, x);
            }
            assert(r1.to_set().union(r12.to_set().union(handed)) =~= r2.to_set().union(r21.to_set().union(handed)));
        },
        None => {},
    }
}

/// What two sequences hold together is what either holds.
proof fn lemma_either_part(a: Seq<ReadyView>, b: Seq<ReadyView>, x: ReadyView)
    ensures
        (a + b).contains(x) == (a.contains(x) || b.contains(x)),
{
    if a.contains(x) {
        let i = choose|i: int| 0 <= i < a.len() && a[i] == x;
        assert((a + b)[i] == x);
    }
    if b.contains(x) {
        let i = choose|i: int| 0 <= i < b.len() && b[i] == x;
        assert((a + b)[a.len() + i] == x);
    }
    if (a + b).contains(x) {
        let i = choose|i: int| 0 <= i < (a + b).len() && (a + b)[i] == x;
        if i < a.len() {
            assert(a[i] == x);
        } else {
            assert(b[i - a.len()] == x);
        }
    }
}

/// The steps with the step at `k` moved to the front.
pub open spec fn moved_to_front(steps: Seq<Finish>, k: int) -> Seq<Finish> {
    seq![steps[k]] + steps.remove(k)
}

/// Moving a step to the front keeps the steps.
proof fn lemma_moved_same(steps: Seq<Finish>, k: int)
    requires
        distinct_nodes(steps),
        0 <= k < steps.len(),
    ensures
        distinct_nodes(moved_to_front(steps, k)),
        drawn_from(moved_to_front(steps, k), steps),
{
    let m = moved_to_front(steps, k);
    assert forall|i: int| 0 <= i < m.len() implies steps.contains(#[trigger] m[i]) && exists|j: int|
        0 <= j < steps.len() && steps[j] == m[i] && (i == 0 ==> j == k) && (0 < i <= k ==> j == i - 1) && (i > k
            ==> j == i) by {
        if i == 0 {
            assert(m[0] == steps[k]);
        } else if i <= k {
            assert(m[i] == steps[i - 1]);
        } else {
            assert(m[i] == steps[i]);
        }
    }
    assert forall|i: int, j: int| 0 <= i < j < m.len() implies (#[trigger] m[i]).0 != (#[trigger] m[j]).0 by {
        let a = if i == 0 {
            k
        } else if i <= k {
            i - 1
        } else {
            i
        };
        let b = if j <= k {
            j - 1
        } else {
            j
        };
        assert(m[i] == steps[a]);
        assert(m[j] == steps[b]);
        assert(a != b);
        if a < b {
            assert(steps[a].0 != steps[b].0);
        } else {
            assert(steps[b].0 != steps[a].0);
        }
    }
}

/// A node of a run may finish first instead of later.
proof fn lemma_to_front(g: TwGraph, state: RunView, steps: Seq<Finish>, k: int)
    requires
        runs_from(g, state, steps),
        0 <= k < steps.len(),
    ensures
        run_through(g, state, steps) == run_through(g, state, moved_to_front(steps, k)),
    decreases k,
{
    if k == 0 {
        assert(moved_to_front(steps, 0) =~= steps);
    } else {
        let h = steps[0];
        let x = steps[k];
        let tail = steps.drop_first();
        lemma_after_first(g, state, steps);
        let next = spec_complete(g, rules_of(g, h.0), state, h.0, h.1)->Ok_0.0;
        lemma_to_front(g, next, tail, k - 1);
        let rest = tail.remove(k - 1);
        assert(tail[k - 1] == x);
        let mid = seq![h, x] + rest;
        assert(mid[0] == h);
        assert(mid.drop_first() =~= moved_to_front(tail, k - 1));
        assert(run_through(g, state, mid) == run_through(g, state, steps));
        // the steps of `mid` are the steps of the run
        lemma_moved_same(steps, k);
        let front = moved_to_front(steps, k);
        assert(front =~= seq![x, h] + rest);
        assert forall|i: int| 0 <= i < mid.len() implies steps.contains(#[trigger] mid[i]) by {
            if i == 0 {
                assert(mid[0] == front[1]);
            } else if i == 1 {
                assert(mid[1] == front[0]);
            } else {
                assert(mid[i] == front[i]);
            }
            assert(steps.contains(front[if i == 0 { 1int } else if i == 1 { 0int } else { i }]));
        }
        assert forall|i: int, j: int| 0 <= i < j < mid.len() implies (#[trigger] mid[i]).0 != (#[trigger] mid[j]).0 by {
            let a = if i == 0 { 1int } else if i == 1 { 0int } else { i };
            let b = if j == 1 { 0int } else { j };
            assert(mid[i] == front[a]);
            assert(mid[j] == front[b]);
            if a < b {
                assert(front[a].0 != front[b].0);
            } else {
                assert(front[b].0 != front[a].0);
            }
        }
        lemma_same_steps(g, state, steps, mid);
        lemma_swap_front(g, state, h, x, rest);
    }
}

/// The order in which the nodes of a run finish does not matter. Where the
/// same nodes finish with the same results in two orders, both runs end in
/// the same state, with the same output, and have handed out the same nodes
/// with the same parameters; where no order fails, which one does in which
/// two of the nodes feed a select.
pub proof fn lemma_any_order(g: TwGraph, state: RunView, steps: Seq<Finish>, other: Seq<Finish>)
    requires
        runs_from(g, state, steps),
        distinct_nodes(other),
        drawn_from(other, steps),
        other.len() == steps.len(),
    ensures
        run_through(g, state, steps) == run_through(g, state, other),
    decreases steps.len(),
{
    if steps.len() == 0 {
        assert(steps =~= other);
    } else {
        let x = other[0];
        assert(steps.contains(other[0]));
        let k = choose|k: int| 0 <= k < steps.len() && steps[k] == x;
        lemma_to_front(g, state, steps, k);
        let front = moved_to_front(steps, k);
        lemma_moved_same(steps, k);
        lemma_same_steps(g, state, steps, front);
        lemma_after_first(g, state, front);
        assert(front[0] == x);
        let next = spec_complete(g, rules_of(g, x.0), state, x.0, x.1)->Ok_0.0;
        let a = front.drop_first();
        let b = other.drop_first();
        assert(a =~= steps.remove(k));
        assert forall|i: int, j: int| 0 <= i < j < b.len() implies (#[trigger] b[i]).0 != (#[trigger] b[j]).0 by {
            assert(b[i] == other[i + 1]);
            assert(b[j] == other[j + 1]);
        }
        assert forall|i: int| 0 <= i < b.len() implies a.contains(#[trigger] b[i]) by {
            assert(b[i] == other[i + 1]);
            assert(steps.contains(other[i + 1]));
            let m = choose|m: int| 0 <= m < steps.len() && steps[m] == other[i + 1];
            assert(other[0].0 != other[i + 1].0);
            assert(m != k);
            if m < k {
                assert(a[m] == steps[m]);
            } else {
                assert(a[m - 1] == steps[m]);
            }
        }
        lemma_any_order(g, next, a, b);
    }
}

/// No node of the graph is a select.
pub open spec fn no_select(g: TwGraph) -> bool {
    forall|t: int| 0 <= t < g.nodes@.len() ==> !((#[trigger] g.nodes@[t]).0 is Select)
}

/// Without a select, looking at the nodes that wait does not fail.
proof fn lemma_fire_without_select(g: TwGraph, state: RunView, rules: Seq<FireRuleItem>, upto: int)
    requires
        no_select(g),
        rules_in_range(g, rules),
    ensures
        fire_ready(g, state, rules, upto) is Ok,
    decreases upto,
{
    if 0 < upto <= rules.len() {
        lemma_fire_without_select(g, state, rules, upto - 1);
        let t = rules[upto - 1].target_node as int;
        assert(!(g.nodes@[t].0 is Select));
    }
}

/// Without a select, no finishing fails.
proof fn lemma_run_without_select(g: TwGraph, state: RunView, q: Seq<Finish>)
    requires
        g.wf(),
        run_shape(g, state),
        no_select(g),
    ensures
        run_through(g, state, q) is Some,
    decreases q.len(),
{
    if q.len() > 0 {
        let rules = rules_of(g, q[0].0);
        lemma_rules_in_range(g, q[0].0);
        let noted = if g.output == Some(q[0].0) {
            RunView { output: q[0].1, ..state }
        } else {
            state
        };
        lemma_fire_without_select(g, store_result(noted, rules, q[0].1, rules.len() as int), rules, rules.len() as int);
        lemma_complete_is(g, state, q[0].0, q[0].1);
        lemma_run_without_select(g, spec_complete(g, rules, state, q[0].0, q[0].1)->Ok_0.0, q.drop_first());
    }
}

/// In a graph without a select no order fails.
pub proof fn lemma_without_select(g: TwGraph, state: RunView, steps: Seq<Finish>)
    requires
        g.wf(),
        run_shape(g, state),
        no_select(g),
    ensures
        no_order_fails(g, state, steps),
{
    assert forall|q: Seq<Finish>| distinct_nodes(q) && #[trigger] drawn_from(q, steps) implies run_through(
        g,
        state,
        q,
    ) is Some by {
        lemma_run_without_select(g, state, q);
    }
}

/// Whole runs do not depend on the order in which their nodes finish. Two
/// runs of a graph, from its start, in which the same nodes finish with the
/// same results, in whatever order, end in the same state, so with the same
/// output, and have handed out the same nodes with the same parameters;
/// where no order fails.
pub proof fn lemma_whole_run_any_order(g: TwGraph, steps: Seq<Finish>, other: Seq<Finish>)
    requires
        g.wf(),
        distinct_nodes(steps),
        distinct_nodes(other),
        drawn_from(other, steps),
        other.len() == steps.len(),
        forall|i: int| 0 <= i < steps.len() ==> result_fits(rules_of(g, (#[trigger] steps[i]).0), steps[i].1),
        no_order_fails(g, initial_run(g), steps),
    ensures
        run_through(g, initial_run(g), steps) is Some,
        run_through(g, initial_run(g), steps) == run_through(g, initial_run(g), other),
{
    assert forall|i: int| 0 <= i < steps.len() implies pending(g, initial_run(g), (#[trigger] steps[i]).0) by {
        lemma_initially_pending(g, steps[i].0);
    }
    assert(drawn_from(steps, steps));
    lemma_any_order(g, initial_run(g), steps, other);
}

} // verus!
