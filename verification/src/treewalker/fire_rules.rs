//! Fire rules: for every node of a graph, the nodes that wait for its result,
//! each with what it waits for.

use vstd::prelude::*;
use smallvec::SmallVec;
use super::bytecode::{TwGraph};

verus! {

/// What a node waits for from another node.
#[derive(Clone, Copy, PartialEq, Eq, Structural, Debug)]
pub enum FireRuleKind {
    /// The value of its parameter at this position.
    ParamDep(u32),
    /// The result that guards it.
    Precondition,
}

#[derive(Clone, Copy, PartialEq, Eq, Structural, Debug)]
pub struct FireRuleItem {
    pub target_node: u32,
    pub kind: FireRuleKind,
}

/// The rules of one node, in a small vector that holds up to four rules
/// without allocating.
#[verifier::external_body]
pub struct FireRuleList {
    inner: SmallVec<[FireRuleItem; 4]>,
}

/// The rules of every node of a graph, by node.
pub type FireRuleTable = Vec<FireRuleList>;

/// The rules that a list holds, in order.
pub uninterp spec fn rule_items(list: FireRuleList) -> Seq<FireRuleItem>;

/// `SmallVec::new`: a vector without items.
#[verifier::external_body]
pub(crate) fn rules_new() -> (list: FireRuleList)
    ensures
        rule_items(list) == Seq::<FireRuleItem>::empty(),
{
    FireRuleList { inner: SmallVec::new() }
}

/// `SmallVec::push`: the item is appended after the items that the vector
/// holds.
#[verifier::external_body]
pub(crate) fn rules_push(list: &mut FireRuleList, item: FireRuleItem)
    ensures
        rule_items(*final(list)) == rule_items(*old(list)).push(item),
{
    list.inner.push(item)
}

/// `SmallVec::len`: the number of items that the vector holds.
#[verifier::external_body]
pub(crate) fn rules_len(list: &FireRuleList) -> (n: usize)
    ensures
        n == rule_items(*list).len(),
{
    list.inner.len()
}

/// Indexing a `SmallVec` through its slice: the item at position `i`.
#[verifier::external_body]
pub(crate) fn rules_get(list: &FireRuleList, i: usize) -> (item: FireRuleItem)
    requires
        i < rule_items(*list).len(),
    ensures
        item == rule_items(*list)[i as int],
{
    list.inner[i]
}

/// The rules that the first `upto` parameters of the node `target` give the
/// node `source`: one for each parameter that `source` feeds.
pub open spec fn edge_rules(edges: Seq<u32>, target: u32, source: u32, upto: int) -> Seq<FireRuleItem>
    decreases upto,
{
    if 0 < upto <= edges.len() {
        let before = edge_rules(edges, target, source, upto - 1);
        if edges[upto - 1] == source {
            before.push(FireRuleItem { target_node: target, kind: FireRuleKind::ParamDep((upto - 1) as u32) })
        } else {
            before
        }
    } else {
        seq![]
    }
}

/// The rule that the guard of the node `target` gives the node `source`.
pub open spec fn guard_rules(guard: Option<u32>, target: u32, source: u32) -> Seq<FireRuleItem> {
    if guard == Some(source) {
        seq![FireRuleItem { target_node: target, kind: FireRuleKind::Precondition }]
    } else {
        seq![]
    }
}

/// The rules that the first `upto` nodes of the graph give the node `source`:
/// for each node in turn, one rule per parameter that `source` feeds, in
/// parameter order, then one if `source` guards the node.
pub open spec fn rules_upto(g: TwGraph, source: u32, upto: int) -> Seq<FireRuleItem>
    decreases upto,
{
    if 0 < upto <= g.nodes@.len() {
        rules_upto(g, source, upto - 1) + edge_rules(
            g.nodes@[upto - 1].1@,
            (upto - 1) as u32,
            source,
            g.nodes@[upto - 1].1@.len() as int,
        ) + guard_rules(g.nodes@[upto - 1].2, (upto - 1) as u32, source)
    } else {
        seq![]
    }
}

/// The rules of the node `source`.
pub open spec fn rules_of(g: TwGraph, source: u32) -> Seq<FireRuleItem> {
    rules_upto(g, source, g.nodes@.len() as int)
}

/// The table holds the rules of every node of the graph.
pub open spec fn table_of(g: TwGraph, table: Seq<FireRuleList>) -> bool {
    &&& table.len() == g.nodes@.len()
    &&& forall|s: int| 0 <= s < table.len() ==> rule_items(#[trigger] table[s]) == rules_of(g, s as u32)
}

/// The fire rules of a graph.
pub fn generate_fire_rules(g: &TwGraph) -> (table: FireRuleTable)
    requires
        g.wf(),
    ensures
        table_of(*g, table@),
{
    let mut m: FireRuleTable = Vec::new();
    let mut s: usize = 0;
    while s < g.nodes.len()
        invariant
            s <= g.nodes@.len(),
            m@.len() == s,
            forall|i: int| 0 <= i < s ==> rule_items(#[trigger] m@[i]) == Seq::<FireRuleItem>::empty(),
        decreases g.nodes.len() - s,
    {
        m.push(rules_new());
        s += 1;
    }
    let mut t: usize = 0;
    while t < g.nodes.len()
        invariant
            t <= g.nodes@.len(),
            g.wf(),
            m@.len() == g.nodes@.len(),
            forall|i: int| 0 <= i < m@.len() ==> rule_items(#[trigger] m@[i]) == rules_upto(*g, i as u32, t as int),
        decreases g.nodes.len() - t,
    {
        let edges = &g.nodes[t].1;
        let mut p: usize = 0;
        while p < edges.len()
            invariant
                p <= edges@.len(),
                t < g.nodes@.len(),
                g.wf(),
                edges@ == g.nodes@[t as int].1@,
                m@.len() == g.nodes@.len(),
                forall|i: int|
                    0 <= i < m@.len() ==> rule_items(#[trigger] m@[i]) == rules_upto(*g, i as u32, t as int)
                        + edge_rules(edges@, t as u32, i as u32, p as int),
            decreases edges.len() - p,
        {
            let source = edges[p] as usize;
            assert(edges@[p as int] < t);
            let ghost before = m@;
            rules_push(&mut m[source], FireRuleItem { target_node: t as u32, kind: FireRuleKind::ParamDep(p as u32) });
            proof {
                assert forall|i: int| 0 <= i < m@.len() implies rule_items(#[trigger] m@[i]) == rules_upto(
                    *g,
                    i as u32,
                    t as int,
                ) + edge_rules(edges@, t as u32, i as u32, p + 1) by {
                    if i != source {
                        assert(m@[i] == before[i]);
                    }
                }
            }
            p += 1;
        }
        if let Some(guard) = g.nodes[t].2 {
            let ghost before = m@;
            rules_push(
                &mut m[guard as usize],
                FireRuleItem { target_node: t as u32, kind: FireRuleKind::Precondition },
            );
            proof {
                assert forall|i: int| 0 <= i < m@.len() implies rule_items(#[trigger] m@[i]) == rules_upto(
                    *g,
                    i as u32,
                    t + 1,
                ) by {
                    if i != guard {
                        assert(m@[i] == before[i]);
                    }
                }
            }
        } else {
            proof {
                assert forall|i: int| 0 <= i < m@.len() implies rule_items(#[trigger] m@[i]) == rules_upto(
                    *g,
                    i as u32,
                    t + 1,
                ) by {}
            }
        }
        t += 1;
    }
    m
}

/// The rules of the node `source`, copied out of the table.
pub fn rules_for(table: &FireRuleTable, source: usize) -> (rules: Vec<FireRuleItem>)
    requires
        source < table@.len(),
    ensures
        rules@ == rule_items(table@[source as int]),
{
    let list = &table[source];
    let mut rules: Vec<FireRuleItem> = Vec::new();
    let mut i: usize = 0;
    while i < rules_len(list)
        invariant
            i <= rule_items(*list).len(),
            rules@ == rule_items(*list).subrange(0, i as int),
        decreases rule_items(*list).len() - i,
    {
        rules.push(rules_get(list, i));
        assert(rules@ =~= rule_items(*list).subrange(0, i + 1));
        i += 1;
    }
    assert(rules@ =~= rule_items(*list));
    rules
}

} // verus!
