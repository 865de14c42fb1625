//! The scheduling of a graph: which nodes may run once a node has finished.
//!
//! A node runs once the nodes that feed its parameters have finished and the
//! node that guards it, if any, has let it pass. A select node runs as soon
//! as one of its parameters has arrived, and passes that value on.

use vstd::prelude::*;
use super::bytecode::TwGraph;
use super::exec::{ExecError, ExecErrorView};
use super::fire_rules::{
    edge_rules, rule_items, rules_get, rules_len, rules_of, rules_upto, table_of, FireRuleItem,
    FireRuleKind, FireRuleTable,
};
use super::slots::{
    flag_items, flags_get, flags_len, flags_new, flags_push, flags_set, slot_rows, slots_get, slots_len,
    slots_new, slots_push, slots_push_row, slots_set, slots_width, FlagList, SlotTable,
};
use super::vm_value::{ValueView, VmValue};

verus! {

/// The state of one run of a graph.
#[derive(Debug)]
pub struct GraphRun {
    /// For every node, the values that have arrived for its parameters.
    pub deps_satisfied: SlotTable,
    /// For every node, whether it is free to run as far as its guard goes.
    pub precondition_satisfied: FlagList,
    /// For every node, whether it has been handed out to run.
    pub fired: Vec<bool>,
    /// The result of the output node, once it has finished.
    pub output: Option<VmValue>,
}

pub struct RunView {
    pub deps: Seq<Seq<Option<ValueView>>>,
    pub pre: Seq<bool>,
    pub fired: Seq<bool>,
    pub output: Option<ValueView>,
}

pub open spec fn option_view(v: Option<VmValue>) -> Option<ValueView> {
    match v {
        Some(x) => Some(x@),
        None => None,
    }
}

pub open spec fn slots_view(row: Seq<Option<VmValue>>) -> Seq<Option<ValueView>> {
    Seq::new(row.len(), |p: int| option_view(row[p]))
}

pub open spec fn deps_view(deps: Seq<Seq<Option<VmValue>>>) -> Seq<Seq<Option<ValueView>>> {
    Seq::new(deps.len(), |t: int| slots_view(deps[t]))
}

impl View for GraphRun {
    type V = RunView;

    open spec fn view(&self) -> RunView {
        RunView {
            deps: deps_view(slot_rows(self.deps_satisfied)),
            pre: flag_items(self.precondition_satisfied),
            fired: self.fired@,
            output: option_view(self.output),
        }
    }
}

/// A node that may run now.
#[derive(Debug)]
pub enum ReadyNode {
    /// Run the node's operation on these parameters.
    Run { node: u32, params: Vec<VmValue> },
    /// The node is a select: its result is this value.
    Pass { node: u32, value: VmValue },
}

pub enum ReadyView {
    Run { node: u32, params: Seq<ValueView> },
    Pass { node: u32, value: ValueView },
}

pub open spec fn values_view(values: Seq<VmValue>) -> Seq<ValueView> {
    Seq::new(values.len(), |i: int| values[i]@)
}

impl View for ReadyNode {
    type V = ReadyView;

    open spec fn view(&self) -> ReadyView {
        match self {
            ReadyNode::Run { node, params } => ReadyView::Run { node: *node, params: values_view(params@) },
            ReadyNode::Pass { node, value } => ReadyView::Pass { node: *node, value: value@ },
        }
    }
}

pub open spec fn ready_views(list: Seq<ReadyNode>) -> Seq<ReadyView> {
    Seq::new(list.len(), |i: int| list[i]@)
}

/// The state has a slot for every parameter of every node of the graph.
pub open spec fn run_shape(g: TwGraph, state: RunView) -> bool {
    &&& state.deps.len() == g.nodes@.len()
    &&& state.pre.len() == g.nodes@.len()
    &&& state.fired.len() == g.nodes@.len()
    &&& forall|t: int| 0 <= t < g.nodes@.len() ==> (#[trigger] state.deps[t]).len() == g.nodes@[t].1@.len()
}

/// Whether a result lets a guarded node pass: true does, false and null do
/// not, and the absence of a value, which is what an effect leaves, does.
/// Nothing where the result is no answer.
pub open spec fn truthy(result: Option<ValueView>) -> Option<bool> {
    match result {
        Some(ValueView::Bool(b)) => Some(b),
        Some(ValueView::Null(_)) => Some(false),
        None => Some(true),
        _ => None,
    }
}

/// Every rule points at a node of the graph and, where it is for a
/// parameter, at a parameter of that node.
pub open spec fn rules_in_range(g: TwGraph, rules: Seq<FireRuleItem>) -> bool {
    forall|k: int|
        0 <= k < rules.len() ==> {
            &&& (#[trigger] rules[k]).target_node < g.nodes@.len()
            &&& (rules[k].kind matches FireRuleKind::ParamDep(p) ==> p < g.nodes@[rules[k].target_node as int].1@.len())
        }
}

/// The result can be stored by the rules: it is a value where a parameter
/// waits for it, and an answer where a guarded node waits for it.
pub open spec fn result_fits(rules: Seq<FireRuleItem>, result: Option<ValueView>) -> bool {
    forall|k: int|
        0 <= k < rules.len() ==> {
            &&& ((#[trigger] rules[k]).kind is ParamDep ==> result is Some)
            &&& (rules[k].kind is Precondition ==> truthy(result) is Some)
        }
}

/// The state after one rule has stored the result.
pub open spec fn store_one(state: RunView, item: FireRuleItem, result: Option<ValueView>) -> RunView {
    let t = item.target_node as int;
    match item.kind {
        FireRuleKind::ParamDep(p) => RunView {
            deps: state.deps.update(t, state.deps[t].update(p as int, result)),
            ..state
        },
        FireRuleKind::Precondition => RunView { pre: state.pre.update(t, truthy(result) == Some(true)), ..state },
    }
}

/// The state after the first `upto` rules have stored the result.
pub open spec fn store_result(state: RunView, rules: Seq<FireRuleItem>, result: Option<ValueView>, upto: int) -> RunView
    decreases upto,
{
    if 0 < upto <= rules.len() {
        store_one(store_result(state, rules, result, upto - 1), rules[upto - 1], result)
    } else {
        state
    }
}

/// The first value at or after `from` that has arrived.
pub open spec fn first_some(row: Seq<Option<ValueView>>, from: int) -> Option<ValueView>
    decreases row.len() - from,
{
    if 0 <= from < row.len() {
        match row[from] {
            Some(x) => Some(x),
            None => first_some(row, from + 1),
        }
    } else {
        None
    }
}

/// Every value has arrived.
pub open spec fn all_some(row: Seq<Option<ValueView>>) -> bool {
    forall|p: int| 0 <= p < row.len() ==> (#[trigger] row[p]) is Some
}

/// The values that have arrived, where all have.
pub open spec fn unwrap_all(row: Seq<Option<ValueView>>) -> Seq<ValueView> {
    Seq::new(row.len(), |p: int| row[p]->Some_0)
}

/// The state and the ready nodes after one rule has been looked at. The
/// rule's node becomes ready if its guard lets it pass and
/// - it is a select that has not run, and one of its parameters has arrived:
///   it passes on the first that has; or
/// - it is no select and has not run, and all of its parameters have arrived.
/// A select that has run already fails the graph.
pub open spec fn fire_one(g: TwGraph, state: RunView, ready: Seq<ReadyView>, item: FireRuleItem) -> Result<
    (RunView, Seq<ReadyView>),
    ExecErrorView,
> {
    let t = item.target_node as int;
    if !state.pre[t] {
        Ok((state, ready))
    } else if g.nodes@[t].0 is Select {
        if state.fired[t] {
            Err(ExecErrorView::BothSelectCandidatesFired)
        } else {
            match first_some(state.deps[t], 0) {
                Some(x) => Ok(
                    (
                        RunView { fired: state.fired.update(t, true), ..state },
                        ready.push(ReadyView::Pass { node: item.target_node, value: x }),
                    ),
                ),
                None => Ok((state, ready)),
            }
        }
    } else {
        if !state.fired[t] && all_some(state.deps[t]) {
            Ok(
                (
                    RunView { fired: state.fired.update(t, true), ..state },
                    ready.push(ReadyView::Run { node: item.target_node, params: unwrap_all(state.deps[t]) }),
                ),
            )
        } else {
            Ok((state, ready))
        }
    }
}

/// The state and the ready nodes after the first `upto` rules have been
/// looked at.
pub open spec fn fire_ready(g: TwGraph, state: RunView, rules: Seq<FireRuleItem>, upto: int) -> Result<
    (RunView, Seq<ReadyView>),
    ExecErrorView,
>
    decreases upto,
{
    if 0 < upto <= rules.len() {
        match fire_ready(g, state, rules, upto - 1) {
            Err(e) => Err(e),
            Ok((so_far, ready)) => fire_one(g, so_far, ready, rules[upto - 1]),
        }
    } else {
        Ok((state, seq![]))
    }
}

/// What the finishing of the node `node` with `result` does to a run: the
/// result is kept if the node is the graph's output; it is stored in every
/// parameter that waits for it and opens or shuts every node that it guards;
/// then the nodes that wait for it are looked at, in rule order, and those
/// that may run now are handed out.
pub open spec fn spec_complete(
    g: TwGraph,
    rules: Seq<FireRuleItem>,
    state: RunView,
    node: u32,
    result: Option<ValueView>,
) -> Result<(RunView, Seq<ReadyView>), ExecErrorView> {
    let noted = if g.output == Some(node) {
        RunView { output: result, ..state }
    } else {
        state
    };
    fire_ready(g, store_result(noted, rules, result, rules.len() as int), rules, rules.len() as int)
}

/// The state before any node has run: no value has arrived, and a node is
/// free to run exactly if it has no guard.
pub open spec fn initial_run(g: TwGraph) -> RunView {
    RunView {
        deps: Seq::new(g.nodes@.len(), |t: int| Seq::new(g.nodes@[t].1@.len(), |p: int| None::<ValueView>)),
        pre: Seq::new(g.nodes@.len(), |t: int| g.nodes@[t].2 is None),
        fired: Seq::new(g.nodes@.len(), |t: int| false),
        output: None,
    }
}

/// The nodes among the first `upto` that wait for nothing: they have no
/// parameters and no guard.
pub open spec fn seeds(g: TwGraph, upto: int) -> Seq<u32>
    decreases upto,
{
    if 0 < upto <= g.nodes@.len() {
        let before = seeds(g, upto - 1);
        if g.nodes@[upto - 1].1@.len() == 0 && g.nodes@[upto - 1].2 is None {
            before.push((upto - 1) as u32)
        } else {
            before
        }
    } else {
        seq![]
    }
}

proof fn lemma_edge_rules_in_range(edges: Seq<u32>, target: u32, source: u32, upto: int, k: int)
    requires
        0 <= upto <= edges.len() <= u32::MAX,
        0 <= k < edge_rules(edges, target, source, upto).len(),
    ensures
        edge_rules(edges, target, source, upto)[k].target_node == target,
        edge_rules(edges, target, source, upto)[k].kind matches FireRuleKind::ParamDep(p) && p < edges.len()
            && edges[p as int] == source,
    decreases upto,
{
    if upto > 0 {
        let before = edge_rules(edges, target, source, upto - 1);
        if k < before.len() {
            lemma_edge_rules_in_range(edges, target, source, upto - 1, k);
        }
    }
}

/// Every rule of a node points at a node that it feeds or guards.
pub proof fn lemma_rules_upto_in_range(g: TwGraph, source: u32, upto: int, k: int)
    requires
        g.wf(),
        0 <= upto <= g.nodes@.len(),
        0 <= k < rules_upto(g, source, upto).len(),
    ensures
        ({
            let item = rules_upto(g, source, upto)[k];
            &&& item.target_node < upto
            &&& match item.kind {
                FireRuleKind::ParamDep(p) => p < g.nodes@[item.target_node as int].1@.len()
                    && g.nodes@[item.target_node as int].1@[p as int] == source,
                FireRuleKind::Precondition => g.nodes@[item.target_node as int].2 == Some(source),
            }
        }),
    decreases upto,
{
    if upto > 0 {
        let before = rules_upto(g, source, upto - 1);
        let edges = g.nodes@[upto - 1].1@;
        let from_edges = edge_rules(edges, (upto - 1) as u32, source, edges.len() as int);
        if k < before.len() {
            lemma_rules_upto_in_range(g, source, upto - 1, k);
        } else if k < before.len() + from_edges.len() {
            lemma_edge_rules_in_range(edges, (upto - 1) as u32, source, edges.len() as int, k - before.len());
        }
    }
}

/// The rules of a node of a well-formed graph are in range.
pub proof fn lemma_rules_in_range(g: TwGraph, source: u32)
    requires
        g.wf(),
    ensures
        rules_in_range(g, rules_of(g, source)),
{
    let rules = rules_of(g, source);
    assert forall|k: int| 0 <= k < rules.len() implies {
        &&& (#[trigger] rules[k]).target_node < g.nodes@.len()
        &&& (rules[k].kind matches FireRuleKind::ParamDep(p) ==> p < g.nodes@[rules[k].target_node as int].1@.len())
    } by {
        lemma_rules_upto_in_range(g, source, g.nodes@.len() as int, k);
    }
}

/// A copy of a value that may be absent.
pub fn duplicate_option(v: &Option<VmValue>) -> (copy: Option<VmValue>)
    ensures
        option_view(copy) == option_view(*v),
{
    match v {
        Some(x) => Some(x.duplicate()),
        None => None,
    }
}

/// Stores `value` as the parameter at `p` of the node `t`.
pub fn set_slot(deps: &mut SlotTable, t: usize, p: usize, value: VmValue)
    requires
        t < slot_rows(*old(deps)).len(),
        p < slot_rows(*old(deps))[t as int].len(),
    ensures
        slot_rows(*final(deps)).len() == slot_rows(*old(deps)).len(),
        deps_view(slot_rows(*final(deps))) == deps_view(slot_rows(*old(deps))).update(
            t as int,
            deps_view(slot_rows(*old(deps)))[t as int].update(p as int, Some(value@)),
        ),
{
    let ghost before = slot_rows(*deps);
    slots_set(deps, t, p, Some(value));
    proof {
        let after = slot_rows(*deps);
        assert forall|i: int| 0 <= i < after.len() implies #[trigger] deps_view(after)[i] == deps_view(before).update(
            t as int,
            deps_view(before)[t as int].update(p as int, Some(value@)),
        )[i] by {
            if i == t {
                assert(slots_view(after[i]) =~= slots_view(before[i]).update(p as int, Some(value@)));
            }
        }
        assert(deps_view(after) =~= deps_view(before).update(
            t as int,
            deps_view(before)[t as int].update(p as int, Some(value@)),
        ));
    }
}

/// The first value that has arrived for the node `t`, copied.
pub fn first_arrived(deps: &SlotTable, t: usize) -> (found: Option<VmValue>)
    requires
        t < slot_rows(*deps).len(),
    ensures
        option_view(found) == first_some(slots_view(slot_rows(*deps)[t as int]), 0),
{
    let ghost row = slot_rows(*deps)[t as int];
    let width = slots_width(deps, t);
    let mut i: usize = 0;
    while i < width
        invariant
            i <= width,
            t < slot_rows(*deps).len(),
            row == slot_rows(*deps)[t as int],
            width == row.len(),
            first_some(slots_view(row), 0) == first_some(slots_view(row), i as int),
        decreases width - i,
    {
        if let Some(x) = slots_get(deps, t, i) {
            return Some(x.duplicate());
        }
        i += 1;
    }
    None
}

/// The values that have arrived for the node `t`, copied, where all have.
pub fn collect_all(deps: &SlotTable, t: usize) -> (all: Option<Vec<VmValue>>)
    requires
        t < slot_rows(*deps).len(),
    ensures
        match all {
            Some(values) => all_some(slots_view(slot_rows(*deps)[t as int])) && values_view(values@) == unwrap_all(
                slots_view(slot_rows(*deps)[t as int]),
            ),
            None => !all_some(slots_view(slot_rows(*deps)[t as int])),
        },
{
    let ghost row = slot_rows(*deps)[t as int];
    let width = slots_width(deps, t);
    let mut values: Vec<VmValue> = Vec::new();
    let mut i: usize = 0;
    while i < width
        invariant
            i <= width,
            t < slot_rows(*deps).len(),
            row == slot_rows(*deps)[t as int],
            width == row.len(),
            values@.len() == i,
            forall|p: int| 0 <= p < i ==> (#[trigger] slots_view(row)[p]) == Some(values@[p]@),
        decreases width - i,
    {
        match slots_get(deps, t, i) {
            Some(x) => {
                values.push(x.duplicate());
            },
            None => {
                assert(slots_view(row)[i as int] is None);
                return None;
            },
        }
        i += 1;
    }
    assert(values_view(values@) =~= unwrap_all(slots_view(row)));
    Some(values)
}

proof fn lemma_fire_ready_err(g: TwGraph, state: RunView, rules: Seq<FireRuleItem>, upto: int, len: int)
    requires
        0 <= upto <= len <= rules.len(),
        fire_ready(g, state, rules, upto) is Err,
    ensures
        fire_ready(g, state, rules, len) == fire_ready(g, state, rules, upto),
    decreases len - upto,
{
    if upto < len {
        lemma_fire_ready_err(g, state, rules, upto, len - 1);
    }
}

impl GraphRun {
    /// The state before any node has run, and the nodes that wait for
    /// nothing, which run first, in node order.
    pub fn start(g: &TwGraph) -> (begun: (GraphRun, Vec<u32>))
        requires
            g.wf(),
        ensures
            begun.0@ == initial_run(*g),
            run_shape(*g, begun.0@),
            begun.1@ == seeds(*g, g.nodes@.len() as int),
    {
        let mut deps = slots_new();
        let mut pre = flags_new();
        let mut fired: Vec<bool> = Vec::new();
        let mut first: Vec<u32> = Vec::new();
        let mut t: usize = 0;
        while t < g.nodes.len()
            invariant
                t <= g.nodes@.len() <= u32::MAX,
                slot_rows(deps).len() == t,
                flag_items(pre).len() == t,
                fired@.len() == t,
                forall|i: int|
                    0 <= i < t ==> (#[trigger] slot_rows(deps)[i]).len() == g.nodes@[i].1@.len() && forall|p: int|
                        0 <= p < slot_rows(deps)[i].len() ==> (#[trigger] slot_rows(deps)[i][p]) is None,
                forall|i: int| 0 <= i < t ==> (#[trigger] flag_items(pre)[i]) == (g.nodes@[i].2 is None),
                forall|i: int| 0 <= i < t ==> !(#[trigger] fired@[i]),
                first@ == seeds(*g, t as int),
            decreases g.nodes.len() - t,
        {
            let ghost rows_before = slot_rows(deps);
            slots_push_row(&mut deps);
            let width = g.nodes[t].1.len();
            let mut p: usize = 0;
            while p < width
                invariant
                    p <= width,
                    slot_rows(deps).len() == t + 1,
                    slot_rows(deps)[t as int].len() == p,
                    forall|q: int| 0 <= q < p ==> (#[trigger] slot_rows(deps)[t as int][q]) is None,
                    forall|i: int| 0 <= i < t ==> (#[trigger] slot_rows(deps)[i]) == rows_before[i],
                decreases width - p,
            {
                slots_push(&mut deps, t, None);
                p += 1;
            }
            flags_push(&mut pre, g.nodes[t].2.is_none());
            fired.push(false);
            if g.nodes[t].1.len() == 0 && g.nodes[t].2.is_none() {
                first.push(t as u32);
            }
            t += 1;
        }
        let run = GraphRun { deps_satisfied: deps, precondition_satisfied: pre, fired, output: None };
        proof {
            assert(run@.deps =~~= initial_run(*g).deps);
            assert(run@.pre =~= initial_run(*g).pre);
            assert(run@.fired =~= initial_run(*g).fired);
        }
        (run, first)
    }

    /// The flags that say which nodes are free to run as far as their guards
    /// go, copied out.
    pub fn preconditions(&self) -> (flags: Vec<bool>)
        ensures
            flags@ == self@.pre,
    {
        let n = flags_len(&self.precondition_satisfied);
        let mut flags: Vec<bool> = Vec::new();
        let mut i: usize = 0;
        while i < n
            invariant
                i <= n,
                n == flag_items(self.precondition_satisfied).len(),
                flags@ == flag_items(self.precondition_satisfied).subrange(0, i as int),
            decreases n - i,
        {
            flags.push(flags_get(&self.precondition_satisfied, i));
            assert(flags@ =~= flag_items(self.precondition_satisfied).subrange(0, i + 1));
            i += 1;
        }
        assert(flags@ =~= flag_items(self.precondition_satisfied));
        flags
    }

    /// How many parameters every node waits for.
    pub fn widths(&self) -> (widths: Vec<usize>)
        ensures
            widths@.len() == self@.deps.len(),
            forall|t: int| 0 <= t < widths@.len() ==> (#[trigger] widths@[t]) == self@.deps[t].len(),
    {
        let n = slots_len(&self.deps_satisfied);
        let mut widths: Vec<usize> = Vec::new();
        let mut t: usize = 0;
        while t < n
            invariant
                t <= n,
                n == slot_rows(self.deps_satisfied).len(),
                widths@.len() == t,
                forall|i: int| 0 <= i < t ==> (#[trigger] widths@[i]) == slot_rows(self.deps_satisfied)[i].len(),
            decreases n - t,
        {
            widths.push(slots_width(&self.deps_satisfied, t));
            t += 1;
        }
        widths
    }

    /// Takes in that the node `node` has finished with `result`, and hands
    /// out the nodes that may run now. A select of which a second parameter
    /// arrives fails the graph.
    pub fn complete(&mut self, g: &TwGraph, table: &FireRuleTable, node: u32, result: Option<VmValue>) -> (ready: Result<
        Vec<ReadyNode>,
        ExecError,
    >)
        requires
            g.wf(),
            table_of(*g, table@),
            run_shape(*g, old(self)@),
            node < g.nodes@.len(),
            result_fits(rules_of(*g, node), option_view(result)),
        ensures
            spec_complete(*g, rules_of(*g, node), old(self)@, node, option_view(result)) matches Ok(
                (state, handed),
            ) ==> (ready matches Ok(list) && final(self)@ == state && ready_views(list@) == handed && run_shape(
                *g,
                final(self)@,
            )),
            spec_complete(*g, rules_of(*g, node), old(self)@, node, option_view(result)) matches Err(e) ==> (
            ready matches Err(x) && x@ == e),
    {
        let rules = &table[node as usize];
        let ghost items = rules_of(*g, node);
        let ghost outcome = option_view(result);
        proof {
            lemma_rules_in_range(*g, node);
        }
        let is_output = match g.output {
            Some(o) => o == node,
            None => false,
        };
        if is_output {
            self.output = duplicate_option(&result);
        }
        let ghost noted = self@;
        let n = rules_len(rules);
        let mut k: usize = 0;
        while k < n
            invariant
                k <= n,
                n == items.len(),
                items == rule_items(*rules),
                outcome == option_view(result),
                rules_in_range(*g, items),
                result_fits(items, outcome),
                run_shape(*g, self@),
                self@ == store_result(noted, items, outcome, k as int),
            decreases n - k,
        {
            let item = rules_get(rules, k);
            let t = item.target_node as usize;
            assert(items[k as int] == item);
            assert(self@.deps[t as int].len() == g.nodes@[t as int].1@.len());
            match item.kind {
                FireRuleKind::ParamDep(p) => {
                    match &result {
                        Some(v) => {
                            let copy = v.duplicate();
                            assert(slot_rows(self.deps_satisfied)[t as int].len() == slots_view(
                                slot_rows(self.deps_satisfied)[t as int],
                            ).len());
                            set_slot(&mut self.deps_satisfied, t, p as usize, copy);
                        },
                        None => {
                            assert(false);
                        },
                    }
                },
                FireRuleKind::Precondition => {
                    let open = match &result {
                        Some(VmValue::Bool(b)) => *b,
                        Some(VmValue::Null(_)) => false,
                        None => true,
                        _ => false,
                    };
                    flags_set(&mut self.precondition_satisfied, t, open);
                },
            }
            proof {
                assert(self@.deps =~~= store_result(noted, items, outcome, k + 1).deps);
                assert(self@.pre =~= store_result(noted, items, outcome, k + 1).pre);
            }
            k += 1;
        }
        let ghost stored = self@;
        let mut ready: Vec<ReadyNode> = Vec::new();
        assert(ready_views(ready@) =~= Seq::<ReadyView>::empty());
        k = 0;
        while k < n
            invariant
                k <= n,
                n == items.len(),
                items == rule_items(*rules),
                items == rules_of(*g, node),
                outcome == option_view(result),
                rules_in_range(*g, items),
                run_shape(*g, self@),
                stored == store_result(noted, items, outcome, items.len() as int),
                spec_complete(*g, items, old(self)@, node, outcome) == fire_ready(
                    *g,
                    stored,
                    items,
                    items.len() as int,
                ),
                fire_ready(*g, stored, items, k as int) == Ok::<(RunView, Seq<ReadyView>), ExecErrorView>(
                    (self@, ready_views(ready@)),
                ),
            decreases n - k,
        {
            let item = rules_get(rules, k);
            let t = item.target_node as usize;
            assert(items[k as int] == item);
            let ghost before = ready@;
            proof {
                if fire_ready(*g, stored, items, k + 1) is Err {
                    lemma_fire_ready_err(*g, stored, items, k + 1, items.len() as int);
                }
                assert(slot_rows(self.deps_satisfied)[t as int].len() == slots_view(
                    slot_rows(self.deps_satisfied)[t as int],
                ).len());
            }
            if flags_get(&self.precondition_satisfied, t) {
                if g.nodes[t].0.is_select() {
                    if self.fired[t] {
                        return Err(ExecError::BothSelectCandidatesFired);
                    }
                    if let Some(value) = first_arrived(&self.deps_satisfied, t) {
                        self.fired.set(t, true);
                        ready.push(ReadyNode::Pass { node: item.target_node, value });
                        assert(ready_views(ready@) =~= ready_views(before).push(
                            ReadyView::Pass { node: item.target_node, value: value@ },
                        ));
                    }
                } else if !self.fired[t] {
                    if let Some(params) = collect_all(&self.deps_satisfied, t) {
                        self.fired.set(t, true);
                        ready.push(ReadyNode::Run { node: item.target_node, params });
                        assert(ready_views(ready@) =~= ready_views(before).push(
                            ReadyView::Run { node: item.target_node, params: values_view(params@) },
                        ));
                    }
                }
            }
            k += 1;
        }
        Ok(ready)
    }
}

} // verus!
