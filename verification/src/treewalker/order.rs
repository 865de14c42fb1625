//! The order in which nodes finish does not matter: what a run hands out and
//! where it ends up is the same whichever of two unfinished nodes finishes
//! first.

use vstd::prelude::*;
use super::bytecode::TwGraph;
use super::exec::ExecErrorView;
use super::fire_rules::{edge_rules, guard_rules, rules_of, rules_upto, FireRuleItem, FireRuleKind};
use super::schedule::{
    all_some, fire_one, fire_ready, first_some, initial_run, lemma_rules_in_range, lemma_rules_upto_in_range,
    result_fits, rules_in_range, run_shape, spec_complete, store_one, store_result, truthy, unwrap_all, ReadyView,
    RunView,
};
use super::vm_value::ValueView;

verus! {

/// The node `n` feeds the parameter `p` of the node `t`.
pub open spec fn fed_by(g: TwGraph, t: int, p: int, n: u32) -> bool {
    0 <= t < g.nodes@.len() && 0 <= p < g.nodes@[t].1@.len() && g.nodes@[t].1@[p] == n
}

/// The node `n` guards the node `t`.
pub open spec fn guarded_by(g: TwGraph, t: int, n: u32) -> bool {
    0 <= t < g.nodes@.len() && g.nodes@[t].2 == Some(n)
}

/// The node `t` waits for the node `n`: `n` feeds or guards it.
pub open spec fn waits_for(g: TwGraph, t: int, n: u32) -> bool {
    guarded_by(g, t, n) || exists|p: int| fed_by(g, t, p, n)
}

pub open spec fn param_rule(t: int, p: int) -> FireRuleItem {
    FireRuleItem { target_node: t as u32, kind: FireRuleKind::ParamDep(p as u32) }
}

pub open spec fn guard_rule(t: int) -> FireRuleItem {
    FireRuleItem { target_node: t as u32, kind: FireRuleKind::Precondition }
}

proof fn lemma_edge_rules_complete(edges: Seq<u32>, target: u32, source: u32, upto: int, p: int)
    requires
        0 <= p < upto <= edges.len() <= u32::MAX,
        edges[p] == source,
    ensures
        edge_rules(edges, target, source, upto).contains(
            FireRuleItem { target_node: target, kind: FireRuleKind::ParamDep(p as u32) },
        ),
    decreases upto,
{
    let item = FireRuleItem { target_node: target, kind: FireRuleKind::ParamDep(p as u32) };
    let before = edge_rules(edges, target, source, upto - 1);
    if p == upto - 1 {
        assert(before.push(item)[before.len() as int] == item);
    } else {
        lemma_edge_rules_complete(edges, target, source, upto - 1, p);
        let i = choose|i: int| 0 <= i < before.len() && before[i] == item;
        if edges[upto - 1] == source {
            assert(edge_rules(edges, target, source, upto)[i] == item);
        }
    }
}

/// The rules of a node hold a rule for every parameter that it feeds and for
/// every node that it guards.
pub proof fn lemma_rules_complete(g: TwGraph, source: u32, upto: int, t: int)
    requires
        g.wf(),
        0 <= t < upto <= g.nodes@.len(),
    ensures
        forall|p: int| fed_by(g, t, p, source) ==> rules_upto(g, source, upto).contains(#[trigger] param_rule(t, p)),
        guarded_by(g, t, source) ==> rules_upto(g, source, upto).contains(guard_rule(t)),
    decreases upto,
{
    let before = rules_upto(g, source, upto - 1);
    let edges = g.nodes@[upto - 1].1@;
    let from_edges = edge_rules(edges, (upto - 1) as u32, source, edges.len() as int);
    let from_guard = guard_rules(g.nodes@[upto - 1].2, (upto - 1) as u32, source);
    assert(rules_upto(g, source, upto) == before + from_edges + from_guard);
    if t < upto - 1 {
        lemma_rules_complete(g, source, upto - 1, t);
        assert forall|p: int| fed_by(g, t, p, source) implies rules_upto(g, source, upto).contains(
            #[trigger] param_rule(t, p),
        ) by {
            crate::seqs::lemma_concat_contains(before, from_edges, param_rule(t, p));
            crate::seqs::lemma_concat_contains(before + from_edges, from_guard, param_rule(t, p));
        }
        if guarded_by(g, t, source) {
            crate::seqs::lemma_concat_contains(before, from_edges, guard_rule(t));
            crate::seqs::lemma_concat_contains(before + from_edges, from_guard, guard_rule(t));
        }
    } else {
        assert forall|p: int| fed_by(g, t, p, source) implies rules_upto(g, source, upto).contains(
            #[trigger] param_rule(t, p),
        ) by {
            lemma_edge_rules_complete(edges, t as u32, source, edges.len() as int, p);
            crate::seqs::lemma_concat_contains(before, from_edges, param_rule(t, p));
            crate::seqs::lemma_concat_contains(before + from_edges, from_guard, param_rule(t, p));
        }
        if guarded_by(g, t, source) {
            assert(from_guard[0] == guard_rule(t));
            crate::seqs::lemma_concat_contains(before + from_edges, from_guard, guard_rule(t));
        }
    }
}

/// A rule of the node `n` for a node `t` says that `t` waits for `n`, and
/// every node that waits for `n` has a rule among the rules of `n`.
pub proof fn lemma_rules_are_waits(g: TwGraph, n: u32)
    requires
        g.wf(),
    ensures
        forall|k: int|
            0 <= k < rules_of(g, n).len() ==> match (#[trigger] rules_of(g, n)[k]).kind {
                FireRuleKind::ParamDep(p) => fed_by(g, rules_of(g, n)[k].target_node as int, p as int, n),
                FireRuleKind::Precondition => guarded_by(g, rules_of(g, n)[k].target_node as int, n),
            },
        forall|t: int, p: int| fed_by(g, t, p, n) ==> rules_of(g, n).contains(#[trigger] param_rule(t, p)),
        forall|t: int| guarded_by(g, t, n) ==> rules_of(g, n).contains(#[trigger] guard_rule(t)),
{
    let rules = rules_of(g, n);
    assert forall|k: int| 0 <= k < rules.len() implies match (#[trigger] rules[k]).kind {
        FireRuleKind::ParamDep(p) => fed_by(g, rules[k].target_node as int, p as int, n),
        FireRuleKind::Precondition => guarded_by(g, rules[k].target_node as int, n),
    } by {
        lemma_rules_upto_in_range(g, n, g.nodes@.len() as int, k);
    }
    assert forall|t: int, p: int| fed_by(g, t, p, n) implies rules.contains(#[trigger] param_rule(t, p)) by {
        lemma_rules_complete(g, n, g.nodes@.len() as int, t);
    }
    assert forall|t: int| guarded_by(g, t, n) implies rules.contains(#[trigger] guard_rule(t)) by {
        lemma_rules_complete(g, n, g.nodes@.len() as int, t);
    }
}

/// The state after the node `n` has stored its result `r`: every parameter
/// that `n` feeds holds `r`, and every node that `n` guards is free to run
/// exactly if `r` lets it pass.
pub open spec fn stored(g: TwGraph, state: RunView, n: u32, r: Option<ValueView>) -> RunView {
    RunView {
        deps: Seq::new(
            state.deps.len(),
            |t: int|
                Seq::new(
                    state.deps[t].len(),
                    |p: int|
                        if fed_by(g, t, p, n) {
                            r
                        } else {
                            state.deps[t][p]
                        },
                ),
        ),
        pre: Seq::new(
            state.pre.len(),
            |t: int|
                if guarded_by(g, t, n) {
                    truthy(r) == Some(true)
                } else {
                    state.pre[t]
                },
        ),
        fired: state.fired,
        output: state.output,
    }
}

spec fn has_rule(rules: Seq<FireRuleItem>, upto: int, item: FireRuleItem) -> bool {
    exists|k: int| 0 <= k < upto && k < rules.len() && rules[k] == item
}

spec fn stored_upto(state: RunView, rules: Seq<FireRuleItem>, r: Option<ValueView>, upto: int) -> RunView {
    RunView {
        deps: Seq::new(
            state.deps.len(),
            |t: int|
                Seq::new(
                    state.deps[t].len(),
                    |p: int|
                        if has_rule(rules, upto, param_rule(t, p)) {
                            r
                        } else {
                            state.deps[t][p]
                        },
                ),
        ),
        pre: Seq::new(
            state.pre.len(),
            |t: int|
                if has_rule(rules, upto, guard_rule(t)) {
                    truthy(r) == Some(true)
                } else {
                    state.pre[t]
                },
        ),
        fired: state.fired,
        output: state.output,
    }
}

proof fn lemma_store_upto(g: TwGraph, state: RunView, rules: Seq<FireRuleItem>, r: Option<ValueView>, upto: int)
    requires
        g.wf(),
        rules_in_range(g, rules),
        run_shape(g, state),
        0 <= upto <= rules.len(),
    ensures
        store_result(state, rules, r, upto) == stored_upto(state, rules, r, upto),
    decreases upto,
{
    if upto == 0 {
        assert(stored_upto(state, rules, r, 0).deps =~~= state.deps);
        assert(stored_upto(state, rules, r, 0).pre =~= state.pre);
    } else {
        lemma_store_upto(g, state, rules, r, upto - 1);
        let before = stored_upto(state, rules, r, upto - 1);
        let item = rules[upto - 1];
        let t0 = item.target_node as int;
        let after = store_one(before, item, r);
        let goal = stored_upto(state, rules, r, upto);
        assert(state.deps[t0].len() == g.nodes@[t0].1@.len());
        assert forall|t: int, p: int| 0 <= t < state.deps.len() && 0 <= p < state.deps[t].len() implies has_rule(
            rules,
            upto,
            #[trigger] param_rule(t, p),
        ) == (has_rule(rules, upto - 1, param_rule(t, p)) || item == param_rule(t, p)) by {
            if has_rule(rules, upto - 1, param_rule(t, p)) {
                let k = choose|k: int| 0 <= k < upto - 1 && k < rules.len() && rules[k] == param_rule(t, p);
                assert(rules[k] == param_rule(t, p));
            }
            if item == param_rule(t, p) {
                assert(rules[upto - 1] == param_rule(t, p));
            }
        }
        assert forall|t: int| 0 <= t < state.pre.len() implies has_rule(rules, upto, #[trigger] guard_rule(t)) == (
        has_rule(rules, upto - 1, guard_rule(t)) || item == guard_rule(t)) by {
            if has_rule(rules, upto - 1, guard_rule(t)) {
                let k = choose|k: int| 0 <= k < upto - 1 && k < rules.len() && rules[k] == guard_rule(t);
                assert(rules[k] == guard_rule(t));
            }
            if item == guard_rule(t) {
                assert(rules[upto - 1] == guard_rule(t));
            }
        }
        match item.kind {
            FireRuleKind::ParamDep(pos) => {
                assert forall|t: int, p: int|
                    0 <= t < state.deps.len() && 0 <= p < state.deps[t].len() implies #[trigger] after.deps[t][p]
                    == goal.deps[t][p] by {
                    assert(state.deps[t].len() == g.nodes@[t].1@.len());
                    let _ = param_rule(t, p);
                    assert((item == param_rule(t, p)) == (t == t0 && p == pos));
                }
                assert(after.deps =~~= goal.deps);
                assert forall|t: int| 0 <= t < state.pre.len() implies #[trigger] after.pre[t] == goal.pre[t] by {
                    let _ = guard_rule(t);
                }
                assert(after.pre =~= goal.pre);
            },
            FireRuleKind::Precondition => {
                assert forall|t: int, p: int|
                    0 <= t < state.deps.len() && 0 <= p < state.deps[t].len() implies #[trigger] after.deps[t][p]
                    == goal.deps[t][p] by {
                    let _ = param_rule(t, p);
                }
                assert(after.deps =~~= goal.deps);
                assert forall|t: int| 0 <= t < state.pre.len() implies #[trigger] after.pre[t] == goal.pre[t] by {
                    let _ = guard_rule(t);
                    assert((item == guard_rule(t)) == (t == t0));
                }
                assert(after.pre =~= goal.pre);
            },
        }
    }
}

/// Storing a result by the rules of a node stores it where the graph says
/// that the node feeds or guards.
pub proof fn lemma_store_is_stored(g: TwGraph, state: RunView, n: u32, r: Option<ValueView>)
    requires
        g.wf(),
        run_shape(g, state),
    ensures
        store_result(state, rules_of(g, n), r, rules_of(g, n).len() as int) == stored(g, state, n, r),
{
    let rules = rules_of(g, n);
    lemma_rules_in_range(g, n);
    lemma_rules_are_waits(g, n);
    lemma_store_upto(g, state, rules, r, rules.len() as int);
    let a = stored_upto(state, rules, r, rules.len() as int);
    let b = stored(g, state, n, r);
    assert forall|t: int, p: int| 0 <= t < state.deps.len() && 0 <= p < state.deps[t].len() implies #[trigger] a.deps[t][p]
        == b.deps[t][p] by {
        assert(state.deps[t].len() == g.nodes@[t].1@.len());
        if has_rule(rules, rules.len() as int, param_rule(t, p)) {
            let k = choose|k: int| 0 <= k < rules.len() && rules[k] == param_rule(t, p);
            assert(rules[k].kind == FireRuleKind::ParamDep(p as u32));
            assert(fed_by(g, t, p, n));
        }
        if fed_by(g, t, p, n) {
            assert(rules.contains(param_rule(t, p)));
        }
    }
    assert(a.deps =~~= b.deps);
    assert forall|t: int| 0 <= t < state.pre.len() implies #[trigger] a.pre[t] == b.pre[t] by {
        if has_rule(rules, rules.len() as int, guard_rule(t)) {
            let k = choose|k: int| 0 <= k < rules.len() && rules[k] == guard_rule(t);
            assert(rules[k].kind == FireRuleKind::Precondition);
            assert(guarded_by(g, t, n));
        }
        if guarded_by(g, t, n) {
            assert(rules.contains(guard_rule(t)));
        }
    }
    assert(a.pre =~= b.pre);
}

/// The node `t` may run in `state`: its guard lets it pass, it has not run,
/// and its parameters have arrived, all of them or, for a select, one.
pub open spec fn can_fire(g: TwGraph, state: RunView, t: int) -> bool {
    &&& state.pre[t]
    &&& !state.fired[t]
    &&& if g.nodes@[t].0 is Select {
        first_some(state.deps[t], 0) is Some
    } else {
        all_some(state.deps[t])
    }
}

/// What is handed out for the node `t` when it may run.
pub open spec fn ready_of(g: TwGraph, state: RunView, t: int) -> ReadyView {
    if g.nodes@[t].0 is Select {
        ReadyView::Pass { node: t as u32, value: first_some(state.deps[t], 0)->Some_0 }
    } else {
        ReadyView::Run { node: t as u32, params: unwrap_all(state.deps[t]) }
    }
}

spec fn woken(rules: Seq<FireRuleItem>, upto: int, t: int) -> bool {
    exists|k: int| 0 <= k < upto && k < rules.len() && (#[trigger] rules[k]).target_node == t
}

spec fn fires_now(g: TwGraph, state: RunView, rules: Seq<FireRuleItem>, upto: int, t: int) -> bool {
    0 <= t < g.nodes@.len() && woken(rules, upto, t) && can_fire(g, state, t)
}

spec fn hands_out(g: TwGraph, state: RunView, rules: Seq<FireRuleItem>, upto: int, x: ReadyView) -> bool {
    exists|t: int| #[trigger] fires_now(g, state, rules, upto, t) && x == ready_of(g, state, t)
}

/// What looking at the first `upto` rules has done, where it has not failed.
spec fn fired_upto(
    g: TwGraph,
    state: RunView,
    rules: Seq<FireRuleItem>,
    upto: int,
    st: RunView,
    ready: Seq<ReadyView>,
) -> bool {
    &&& st.deps == state.deps
    &&& st.pre == state.pre
    &&& st.output == state.output
    &&& st.fired.len() == state.fired.len()
    &&& forall|t: int|
        0 <= t < g.nodes@.len() ==> (#[trigger] st.fired[t]) == (state.fired[t] || fires_now(
            g,
            state,
            rules,
            upto,
            t,
        ))
    &&& forall|x: ReadyView| ready.contains(x) == #[trigger] hands_out(g, state, rules, upto, x)
    &&& forall|t: int|
        0 <= t < g.nodes@.len() && #[trigger] woken(rules, upto, t) && state.pre[t] && g.nodes@[t].0 is Select
            ==> !state.fired[t]
}

proof fn lemma_woken_step(rules: Seq<FireRuleItem>, upto: int, t: int)
    requires
        0 < upto <= rules.len(),
    ensures
        woken(rules, upto, t) == (woken(rules, upto - 1, t) || rules[upto - 1].target_node == t),
{
    if woken(rules, upto - 1, t) {
        let k = choose|k: int| 0 <= k < upto - 1 && k < rules.len() && (#[trigger] rules[k]).target_node == t;
        assert(rules[k].target_node == t);
    }
    if rules[upto - 1].target_node == t {
        assert(rules[upto - 1].target_node == t);
    }
}

proof fn lemma_fire_upto(g: TwGraph, state: RunView, rules: Seq<FireRuleItem>, upto: int)
    requires
        g.wf(),
        rules_in_range(g, rules),
        run_shape(g, state),
        0 <= upto <= rules.len(),
        fire_ready(g, state, rules, upto) is Ok,
    ensures
        fired_upto(
            g,
            state,
            rules,
            upto,
            fire_ready(g, state, rules, upto)->Ok_0.0,
            fire_ready(g, state, rules, upto)->Ok_0.1,
        ),
    decreases upto,
{
    if upto == 0 {
        let ready = Seq::<ReadyView>::empty();
        assert forall|x: ReadyView| ready.contains(x) == #[trigger] hands_out(g, state, rules, 0, x) by {
            if hands_out(g, state, rules, 0, x) {
                let t = choose|t: int| #[trigger] fires_now(g, state, rules, 0, t) && x == ready_of(g, state, t);
                assert(woken(rules, 0, t));
            }
        }
    } else {
        lemma_fire_upto(g, state, rules, upto - 1);
        let (st, ready) = fire_ready(g, state, rules, upto - 1)->Ok_0;
        let (st2, ready2) = fire_ready(g, state, rules, upto)->Ok_0;
        let item = rules[upto - 1];
        let t0 = item.target_node as int;
        assert(fire_one(g, st, ready, item) == Ok::<(RunView, Seq<ReadyView>), ExecErrorView>((st2, ready2)));
        assert forall|t: int| woken(rules, upto, t) == (woken(rules, upto - 1, t) || t0 == t) by {
            lemma_woken_step(rules, upto, t);
        }
        assert(st.fired[t0] == (state.fired[t0] || fires_now(g, state, rules, upto - 1, t0)));
        let fires = st.pre[t0] && !st.fired[t0] && (if g.nodes@[t0].0 is Select {
            first_some(st.deps[t0], 0) is Some
        } else {
            all_some(st.deps[t0])
        });
        if !fires {
            // nothing is handed out for this rule
            assert(st2 == st);
            assert(ready2 == ready);
            assert(!fires_now(g, state, rules, upto, t0) || fires_now(g, state, rules, upto - 1, t0));
            assert forall|t: int| 0 <= t < g.nodes@.len() implies (#[trigger] st2.fired[t]) == (state.fired[t]
                || fires_now(g, state, rules, upto, t)) by {
                let _ = st.fired[t];
            }
            assert forall|x: ReadyView| ready2.contains(x) == #[trigger] hands_out(g, state, rules, upto, x) by {
                if hands_out(g, state, rules, upto, x) {
                    let t = choose|t: int| #[trigger] fires_now(g, state, rules, upto, t) && x == ready_of(g, state, t);
                    assert(fires_now(g, state, rules, upto - 1, t));
                    assert(hands_out(g, state, rules, upto - 1, x));
                }
                if hands_out(g, state, rules, upto - 1, x) {
                    let t = choose|t: int|
                        #[trigger] fires_now(g, state, rules, upto - 1, t) && x == ready_of(g, state, t);
                    assert(fires_now(g, state, rules, upto, t));
                }
            }
        } else {
            // the rule's node is handed out
            let y = ready_of(g, state, t0);
            assert(ready2 == ready.push(y));
            assert(!st.fired[t0]);
            assert(can_fire(g, state, t0));
            assert(fires_now(g, state, rules, upto, t0));
            assert(st2.fired == st.fired.update(t0, true));
            assert forall|t: int| 0 <= t < g.nodes@.len() implies (#[trigger] st2.fired[t]) == (state.fired[t]
                || fires_now(g, state, rules, upto, t)) by {
                let _ = st.fired[t];
            }
            assert forall|x: ReadyView| ready2.contains(x) == #[trigger] hands_out(g, state, rules, upto, x) by {
                if ready2.contains(x) {
                    let i = choose|i: int| 0 <= i < ready2.len() && ready2[i] == x;
                    if i < ready.len() {
                        assert(ready[i] == x);
                        assert(hands_out(g, state, rules, upto - 1, x));
                        let t = choose|t: int|
                            #[trigger] fires_now(g, state, rules, upto - 1, t) && x == ready_of(g, state, t);
                        assert(fires_now(g, state, rules, upto, t));
                    } else {
                        assert(x == y);
                    }
                }
                if hands_out(g, state, rules, upto, x) {
                    let t = choose|t: int| #[trigger] fires_now(g, state, rules, upto, t) && x == ready_of(g, state, t);
                    if t == t0 {
                        assert(ready2[ready.len() as int] == x);
                    } else {
                        assert(fires_now(g, state, rules, upto - 1, t));
                        assert(hands_out(g, state, rules, upto - 1, x));
                        let i = choose|i: int| 0 <= i < ready.len() && ready[i] == x;
                        assert(ready2[i] == x);
                    }
                }
            }
        }
        assert forall|t: int|
            0 <= t < g.nodes@.len() && #[trigger] woken(rules, upto, t) && state.pre[t]
                && g.nodes@[t].0 is Select implies !state.fired[t] by {
            if t == t0 {
                assert(!st.fired[t0]);
            }
        }
    }
}

/// The state in which the nodes that wait for `n` are looked at: the result
/// is kept if `n` is the graph's output, and stored.
pub open spec fn after_store(g: TwGraph, state: RunView, n: u32, r: Option<ValueView>) -> RunView {
    stored(
        g,
        if g.output == Some(n) {
            RunView { output: r, ..state }
        } else {
            state
        },
        n,
        r,
    )
}

/// The node `t` is handed out when `n` finishes with `r`.
pub open spec fn fires_after(g: TwGraph, state: RunView, n: u32, r: Option<ValueView>, t: int) -> bool {
    0 <= t < g.nodes@.len() && waits_for(g, t, n) && can_fire(g, after_store(g, state, n, r), t)
}

/// `x` is handed out when `n` finishes with `r`.
pub open spec fn handed_after(g: TwGraph, state: RunView, n: u32, r: Option<ValueView>, x: ReadyView) -> bool {
    exists|t: int| #[trigger] fires_after(g, state, n, r, t) && x == ready_of(g, after_store(g, state, n, r), t)
}

/// What the finishing of `n` with `r` does to a run, said by the graph: the
/// result is stored where `n` feeds or guards; the nodes handed out are those
/// that wait for `n` and may run now; and these have run from now on.
pub open spec fn completes_to(
    g: TwGraph,
    state: RunView,
    n: u32,
    r: Option<ValueView>,
    st: RunView,
    ready: Seq<ReadyView>,
) -> bool {
    &&& st.deps == after_store(g, state, n, r).deps
    &&& st.pre == after_store(g, state, n, r).pre
    &&& st.output == after_store(g, state, n, r).output
    &&& st.fired.len() == state.fired.len()
    &&& forall|t: int|
        0 <= t < g.nodes@.len() ==> (#[trigger] st.fired[t]) == (state.fired[t] || fires_after(g, state, n, r, t))
    &&& forall|x: ReadyView| ready.contains(x) == #[trigger] handed_after(g, state, n, r, x)
    &&& forall|t: int|
        0 <= t < g.nodes@.len() && #[trigger] waits_for(g, t, n) && after_store(g, state, n, r).pre[t]
            && g.nodes@[t].0 is Select ==> !state.fired[t]
}

proof fn lemma_woken_is_waiting(g: TwGraph, n: u32, t: int)
    requires
        g.wf(),
        0 <= t < g.nodes@.len(),
    ensures
        woken(rules_of(g, n), rules_of(g, n).len() as int, t) == waits_for(g, t, n),
{
    let rules = rules_of(g, n);
    lemma_rules_are_waits(g, n);
    if woken(rules, rules.len() as int, t) {
        let k = choose|k: int| 0 <= k < rules.len() && (#[trigger] rules[k]).target_node == t;
        match rules[k].kind {
            FireRuleKind::ParamDep(p) => {
                assert(fed_by(g, t, p as int, n));
            },
            FireRuleKind::Precondition => {},
        }
    }
    if guarded_by(g, t, n) {
        assert(rules.contains(guard_rule(t)));
        let k = choose|k: int| 0 <= k < rules.len() && rules[k] == guard_rule(t);
        assert(rules[k].target_node == t);
    }
    if exists|p: int| fed_by(g, t, p, n) {
        let p = choose|p: int| fed_by(g, t, p, n);
        assert(rules.contains(param_rule(t, p)));
        let k = choose|k: int| 0 <= k < rules.len() && rules[k] == param_rule(t, p);
        assert(rules[k].target_node == t);
    }
}

/// What `complete` does, said by the graph.
pub proof fn lemma_complete_is(g: TwGraph, state: RunView, n: u32, r: Option<ValueView>)
    requires
        g.wf(),
        run_shape(g, state),
        spec_complete(g, rules_of(g, n), state, n, r) is Ok,
    ensures
        completes_to(
            g,
            state,
            n,
            r,
            spec_complete(g, rules_of(g, n), state, n, r)->Ok_0.0,
            spec_complete(g, rules_of(g, n), state, n, r)->Ok_0.1,
        ),
        run_shape(g, spec_complete(g, rules_of(g, n), state, n, r)->Ok_0.0),
{
    let rules = rules_of(g, n);
    let noted = if g.output == Some(n) {
        RunView { output: r, ..state }
    } else {
        state
    };
    let mid = after_store(g, state, n, r);
    lemma_rules_in_range(g, n);
    lemma_store_is_stored(g, noted, n, r);
    assert(run_shape(g, mid));
    lemma_fire_upto(g, mid, rules, rules.len() as int);
    let (st, ready) = spec_complete(g, rules, state, n, r)->Ok_0;
    assert forall|t: int| 0 <= t < g.nodes@.len() implies fires_now(g, mid, rules, rules.len() as int, t)
        == fires_after(g, state, n, r, t) by {
        lemma_woken_is_waiting(g, n, t);
    }
    assert forall|t: int| 0 <= t < g.nodes@.len() implies (#[trigger] st.fired[t]) == (state.fired[t]
        || fires_after(g, state, n, r, t)) by {
        assert(mid.fired[t] == state.fired[t]);
    }
    assert forall|x: ReadyView| ready.contains(x) == #[trigger] handed_after(g, state, n, r, x) by {
        assert(ready.contains(x) == hands_out(g, mid, rules, rules.len() as int, x));
        if hands_out(g, mid, rules, rules.len() as int, x) {
            let t = choose|t: int|
                #[trigger] fires_now(g, mid, rules, rules.len() as int, t) && x == ready_of(g, mid, t);
            assert(fires_after(g, state, n, r, t));
        }
        if handed_after(g, state, n, r, x) {
            let t = choose|t: int| #[trigger] fires_after(g, state, n, r, t) && x == ready_of(g, mid, t);
            assert(fires_now(g, mid, rules, rules.len() as int, t));
        }
    }
    assert forall|t: int|
        0 <= t < g.nodes@.len() && #[trigger] waits_for(g, t, n) && mid.pre[t]
            && g.nodes@[t].0 is Select implies !state.fired[t] by {
        lemma_woken_is_waiting(g, n, t);
        assert(woken(rules, rules.len() as int, t));
        assert(mid.fired[t] == state.fired[t]);
    }
}

/// The node `n` has not finished, as far as the state shows: no parameter
/// that it feeds has arrived, and no node that it guards is free to run.
pub open spec fn pending(g: TwGraph, state: RunView, n: u32) -> bool {
    &&& forall|t: int, p: int| #[trigger] fed_by(g, t, p, n) ==> state.deps[t][p] is None
    &&& forall|t: int| #[trigger] guarded_by(g, t, n) ==> !state.pre[t]
}

/// The result of `n` is a value if `n` feeds a parameter.
pub open spec fn feeds_a_value(g: TwGraph, n: u32, r: Option<ValueView>) -> bool {
    forall|t: int, p: int| #[trigger] fed_by(g, t, p, n) ==> r is Some
}

/// Before any node has run, every node is pending.
pub proof fn lemma_initially_pending(g: TwGraph, n: u32)
    ensures
        pending(g, initial_run(g), n),
{
}

/// A result that fits the rules of a node is a value if the node feeds a
/// parameter.
pub proof fn lemma_fits_feeds_a_value(g: TwGraph, n: u32, r: Option<ValueView>)
    requires
        g.wf(),
        result_fits(rules_of(g, n), r),
    ensures
        feeds_a_value(g, n, r),
{
    lemma_rules_are_waits(g, n);
    let rules = rules_of(g, n);
    assert forall|t: int, p: int| #[trigger] fed_by(g, t, p, n) implies r is Some by {
        assert(rules.contains(param_rule(t, p)));
        let k = choose|k: int| 0 <= k < rules.len() && rules[k] == param_rule(t, p);
        assert(rules[k].kind is ParamDep);
    }
}

/// For one node `t`: what the finishing of `a` and then `b` does to it is
/// what the finishing of `b` and then `a` does to it.
proof fn lemma_node_either_order(
    g: TwGraph,
    state: RunView,
    a: u32,
    ra: Option<ValueView>,
    b: u32,
    rb: Option<ValueView>,
    s1: RunView,
    r1: Seq<ReadyView>,
    s12: RunView,
    r12: Seq<ReadyView>,
    s2: RunView,
    r2: Seq<ReadyView>,
    s21: RunView,
    r21: Seq<ReadyView>,
    t: int,
)
    requires
        g.wf(),
        run_shape(g, state),
        run_shape(g, s1),
        run_shape(g, s2),
        a != b,
        pending(g, state, a),
        pending(g, state, b),
        feeds_a_value(g, a, ra),
        feeds_a_value(g, b, rb),
        completes_to(g, state, a, ra, s1, r1),
        completes_to(g, s1, b, rb, s12, r12),
        completes_to(g, state, b, rb, s2, r2),
        completes_to(g, s2, a, ra, s21, r21),
        0 <= t < g.nodes@.len(),
    ensures
        after_store(g, s1, b, rb).deps[t] == after_store(g, s2, a, ra).deps[t],
        after_store(g, s1, b, rb).pre[t] == after_store(g, s2, a, ra).pre[t],
        s12.fired[t] == s21.fired[t],
        fires_after(g, state, a, ra, t) ==> fires_after(g, s2, a, ra, t) && ready_of(
            g,
            after_store(g, state, a, ra),
            t,
        ) == ready_of(g, after_store(g, s2, a, ra), t),
        fires_after(g, s1, b, rb, t) ==> (fires_after(g, state, b, rb, t) && ready_of(
            g,
            after_store(g, s1, b, rb),
            t,
        ) == ready_of(g, after_store(g, state, b, rb), t)) || (fires_after(g, s2, a, ra, t) && ready_of(
            g,
            after_store(g, s1, b, rb),
            t,
        ) == ready_of(g, after_store(g, s2, a, ra), t)),
{
    let a1 = after_store(g, state, a, ra);
    let b12 = after_store(g, s1, b, rb);
    let a2 = after_store(g, state, b, rb);
    let b21 = after_store(g, s2, a, ra);
    let width = state.deps[t].len();
    assert(width == g.nodes@[t].1@.len());
    assert(s1.deps[t].len() == width);
    assert(s2.deps[t].len() == width);
    // the rows of `t`, parameter by parameter
    assert forall|p: int| 0 <= p < width implies {
        &&& #[trigger] a1.deps[t][p] == (if fed_by(g, t, p, a) {
            ra
        } else {
            state.deps[t][p]
        })
        &&& a2.deps[t][p] == (if fed_by(g, t, p, b) {
            rb
        } else {
            state.deps[t][p]
        })
        &&& b12.deps[t][p] == (if fed_by(g, t, p, b) {
            rb
        } else {
            a1.deps[t][p]
        })
        &&& b21.deps[t][p] == (if fed_by(g, t, p, a) {
            ra
        } else {
            a2.deps[t][p]
        })
        &&& !(fed_by(g, t, p, a) && fed_by(g, t, p, b))
    } by {}
    assert(b12.deps[t] =~= b21.deps[t]);
    assert(!(guarded_by(g, t, a) && guarded_by(g, t, b)));
    let wa = waits_for(g, t, a);
    let wb = waits_for(g, t, b);
    let f = state.fired[t];
    let x1 = fires_after(g, state, a, ra, t);
    let x2 = fires_after(g, state, b, rb, t);
    assert(s1.fired[t] == (f || x1));
    assert(s2.fired[t] == (f || x2));
    assert(s12.fired[t] == (s1.fired[t] || fires_after(g, s1, b, rb, t)));
    assert(s21.fired[t] == (s2.fired[t] || fires_after(g, s2, a, ra, t)));
    if !wb {
        // `b` leaves `t` alone
        assert forall|p: int| 0 <= p < width implies !fed_by(g, t, p, b) by {}
        assert(a1.deps[t] =~= b21.deps[t]);
        assert(b12.deps[t] =~= a1.deps[t]);
        assert(a2.deps[t] =~= state.deps[t]);
    }
    if !wa {
        // `a` leaves `t` alone
        assert forall|p: int| 0 <= p < width implies !fed_by(g, t, p, a) by {}
        assert(a2.deps[t] =~= b12.deps[t]);
        assert(b21.deps[t] =~= a2.deps[t]);
        assert(a1.deps[t] =~= state.deps[t]);
    }
    if wa && wb {
        // `t` waits for both: it cannot run before both have finished
        if x1 {
            if guarded_by(g, t, b) {
                assert(false);
            } else {
                let p = choose|p: int| fed_by(g, t, p, b);
                assert(a1.deps[t][p] is None);
                if g.nodes@[t].0 is Select {
                    assert(s1.fired[t]);
                    assert(b12.pre[t]);
                    assert(false);
                } else {
                    assert(false);
                }
            }
        }
        if x2 {
            if guarded_by(g, t, a) {
                assert(false);
            } else {
                let p = choose|p: int| fed_by(g, t, p, a);
                assert(a2.deps[t][p] is None);
                if g.nodes@[t].0 is Select {
                    assert(s2.fired[t]);
                    assert(b21.pre[t]);
                    assert(false);
                } else {
                    assert(false);
                }
            }
        }
    }
}

/// What is handed out when `a` finishes and then `b` is handed out when `b`
/// finishes and then `a`.
proof fn lemma_handed_either_order(
    g: TwGraph,
    state: RunView,
    a: u32,
    ra: Option<ValueView>,
    b: u32,
    rb: Option<ValueView>,
    s1: RunView,
    r1: Seq<ReadyView>,
    s12: RunView,
    r12: Seq<ReadyView>,
    s2: RunView,
    r2: Seq<ReadyView>,
    s21: RunView,
    r21: Seq<ReadyView>,
    x: ReadyView,
)
    requires
        g.wf(),
        run_shape(g, state),
        run_shape(g, s1),
        run_shape(g, s2),
        a != b,
        pending(g, state, a),
        pending(g, state, b),
        feeds_a_value(g, a, ra),
        feeds_a_value(g, b, rb),
        completes_to(g, state, a, ra, s1, r1),
        completes_to(g, s1, b, rb, s12, r12),
        completes_to(g, state, b, rb, s2, r2),
        completes_to(g, s2, a, ra, s21, r21),
        (r1 + r12).contains(x),
    ensures
        (r2 + r21).contains(x),
{
    crate::seqs::lemma_concat_contains(r1, r12, x);
    crate::seqs::lemma_concat_contains(r2, r21, x);
    if r1.contains(x) {
        assert(handed_after(g, state, a, ra, x));
        let t = choose|t: int|
            #[trigger] fires_after(g, state, a, ra, t) && x == ready_of(g, after_store(g, state, a, ra), t);
        lemma_node_either_order(g, state, a, ra, b, rb, s1, r1, s12, r12, s2, r2, s21, r21, t);
        assert(fires_after(g, s2, a, ra, t));
        assert(handed_after(g, s2, a, ra, x));
    } else {
        assert(handed_after(g, s1, b, rb, x));
        let t = choose|t: int|
            #[trigger] fires_after(g, s1, b, rb, t) && x == ready_of(g, after_store(g, s1, b, rb), t);
        lemma_node_either_order(g, state, a, ra, b, rb, s1, r1, s12, r12, s2, r2, s21, r21, t);
        if fires_after(g, state, b, rb, t) && x == ready_of(g, after_store(g, state, b, rb), t) {
            assert(handed_after(g, state, b, rb, x));
        } else {
            assert(fires_after(g, s2, a, ra, t));
            assert(handed_after(g, s2, a, ra, x));
        }
    }
}

/// The order in which two nodes finish does not matter. In a run in which
/// neither `a` nor `b` has finished, the finishing of `a` and then `b` leaves
/// the run in the state in which the finishing of `b` and then `a` leaves it,
/// and hands out the same nodes with the same parameters; where neither order
/// fails, which a select does of which both `a` and `b` feed a parameter.
pub proof fn lemma_order_does_not_matter(
    g: TwGraph,
    state: RunView,
    a: u32,
    ra: Option<ValueView>,
    b: u32,
    rb: Option<ValueView>,
)
    requires
        g.wf(),
        run_shape(g, state),
        a != b,
        pending(g, state, a),
        pending(g, state, b),
        result_fits(rules_of(g, a), ra),
        result_fits(rules_of(g, b), rb),
        spec_complete(g, rules_of(g, a), state, a, ra) is Ok,
        spec_complete(g, rules_of(g, b), spec_complete(g, rules_of(g, a), state, a, ra)->Ok_0.0, b, rb) is Ok,
        spec_complete(g, rules_of(g, b), state, b, rb) is Ok,
        spec_complete(g, rules_of(g, a), spec_complete(g, rules_of(g, b), state, b, rb)->Ok_0.0, a, ra) is Ok,
    ensures
        ({
            let (s1, r1) = spec_complete(g, rules_of(g, a), state, a, ra)->Ok_0;
            let (s12, r12) = spec_complete(g, rules_of(g, b), s1, b, rb)->Ok_0;
            let (s2, r2) = spec_complete(g, rules_of(g, b), state, b, rb)->Ok_0;
            let (s21, r21) = spec_complete(g, rules_of(g, a), s2, a, ra)->Ok_0;
            &&& s12 == s21
            &&& forall|x: ReadyView| (r1 + r12).contains(x) == (r2 + r21).contains(x)
        }),
{
    let (s1, r1) = spec_complete(g, rules_of(g, a), state, a, ra)->Ok_0;
    let (s12, r12) = spec_complete(g, rules_of(g, b), s1, b, rb)->Ok_0;
    let (s2, r2) = spec_complete(g, rules_of(g, b), state, b, rb)->Ok_0;
    let (s21, r21) = spec_complete(g, rules_of(g, a), s2, a, ra)->Ok_0;
    lemma_complete_is(g, state, a, ra);
    lemma_complete_is(g, s1, b, rb);
    lemma_complete_is(g, state, b, rb);
    lemma_complete_is(g, s2, a, ra);
    lemma_fits_feeds_a_value(g, a, ra);
    lemma_fits_feeds_a_value(g, b, rb);
    assert forall|t: int| 0 <= t < g.nodes@.len() implies {
        &&& #[trigger] s12.deps[t] == s21.deps[t]
        &&& s12.pre[t] == s21.pre[t]
        &&& s12.fired[t] == s21.fired[t]
    } by {
        lemma_node_either_order(g, state, a, ra, b, rb, s1, r1, s12, r12, s2, r2, s21, r21, t);
    }
    assert(s12.deps =~= s21.deps);
    assert(s12.pre =~= s21.pre);
    assert(s12.fired =~= s21.fired);
    assert(s12.output == s21.output);
    assert forall|x: ReadyView| (r1 + r12).contains(x) == (r2 + r21).contains(x) by {
        if (r1 + r12).contains(x) {
            lemma_handed_either_order(g, state, a, ra, b, rb, s1, r1, s12, r12, s2, r2, s21, r21, x);
        }
        if (r2 + r21).contains(x) {
            lemma_handed_either_order(g, state, b, rb, a, ra, s2, r2, s21, r21, s1, r1, s12, r12, x);
        }
    }
}

/// A node stays pending while other nodes finish.
pub proof fn lemma_stays_pending(g: TwGraph, state: RunView, n: u32, r: Option<ValueView>, other: u32)
    requires
        g.wf(),
        run_shape(g, state),
        other != n,
        pending(g, state, other),
        spec_complete(g, rules_of(g, n), state, n, r) is Ok,
    ensures
        pending(g, spec_complete(g, rules_of(g, n), state, n, r)->Ok_0.0, other),
{
    lemma_complete_is(g, state, n, r);
    let st = spec_complete(g, rules_of(g, n), state, n, r)->Ok_0.0;
    assert forall|t: int, p: int| #[trigger] fed_by(g, t, p, other) implies st.deps[t][p] is None by {
        assert(state.deps[t].len() == g.nodes@[t].1@.len());
        assert(!fed_by(g, t, p, n));
    }
    assert forall|t: int| #[trigger] guarded_by(g, t, other) implies !st.pre[t] by {
        assert(!guarded_by(g, t, n));
    }
}

} // verus!
