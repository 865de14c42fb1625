//! The bytecode of query scripts: graphs of typed operation nodes.

use vstd::prelude::*;
use super::vm_value::{VmConst, VmType};

verus! {

/// A script: its graphs, the graph to start with, and the pools of literals,
/// identifiers and types that the nodes refer to by position.
#[derive(Debug)]
pub struct TwScript {
    pub graphs: Vec<TwGraph>,
    pub entry: u32,
    pub consts: Vec<VmConst>,
    pub idents: Vec<String>,
    pub types: Vec<VmType>,
}

#[derive(Debug)]
pub struct TwGraph {
    pub name: String,
    pub exported: bool,
    /// The nodes in topological order: each with the nodes that feed its
    /// parameters, in parameter order, and the node whose result guards it.
    pub nodes: Vec<(TwGraphNode, Vec<u32>, Option<u32>)>,
    /// The node whose result is the result of the graph.
    pub output: Option<u32>,
    /// The nodes that run for their effect.
    pub effects: Vec<u32>,
    /// The types of the parameters, by position in the type pool.
    pub param_types: Vec<u32>,
    /// The type of the result, by position in the type pool.
    pub output_type: Option<u32>,
}

#[derive(Clone, Copy, PartialEq, Eq, Structural, Debug)]
pub enum TwGraphNode {
    /// The graph parameter at this position.
    LoadParam(u32),
    /// The literal at this position.
    LoadConst(u32),
    /// Map -> Table of the record type named by the identifier.
    BuildTable(u32),
    /// List<T> -> Set<T>
    BuildSet,
    /// -> Map
    CreateMap,
    /// -> List of the member type at this position.
    CreateList(u32),
    /// (Map | Table) -> the field named by the identifier.
    GetField(u32),
    /// primary key -> Set<T> -> T
    GetSetElement,
    /// parameter -> Set<T> -> Set<T>, by the subgraph. Reserved.
    FilterSet(u32),
    /// T -> Map -> Map with the field named by the identifier.
    InsertIntoMap(u32),
    /// T -> Table -> (): an effect.
    InsertIntoTable(u32),
    /// T -> Set<T> -> (): an effect.
    InsertIntoSet,
    /// Map -> Map without the field named by the identifier.
    DeleteFromMap(u32),
    /// Table -> (): an effect.
    DeleteFromTable(u32),
    /// primary key -> Set<T> -> (): an effect.
    DeleteFromSet,
    /// T -> List<T> -> List<T>
    PrependToList,
    /// List<T> -> List<T>
    PopFromList,
    /// List<T> -> T
    ListHead,
    Eq,
    Ne,
    And,
    Or,
    Not,
    /// Whether a table or set exists in the store.
    IsPresent,
    IsNull,
    /// T? -> T
    UnwrapOptional,
    Add,
    Sub,
    /// Passes on the one of its inputs that arrives.
    Select,
    /// Runs the subgraph on the parameters.
    Call(u32),
    /// parameter -> initial -> (List | Set) [-> from -> to] -> the reduction
    /// by the subgraph; with bounds on the primary key if the flag is set.
    Reduce(u32, bool),
    /// Fails the script with a message.
    Throw,
    /// T -> T
    Nop,
}

/// Whether a null among the parameters of the operation makes its result
/// null without the operation being run.
pub open spec fn optional_chained(n: TwGraphNode) -> bool {
    match n {
        TwGraphNode::BuildTable(_) => true,
        TwGraphNode::BuildSet => true,
        TwGraphNode::GetField(_) => true,
        TwGraphNode::GetSetElement => true,
        TwGraphNode::FilterSet(_) => true,
        TwGraphNode::InsertIntoSet => true,
        TwGraphNode::DeleteFromTable(_) => true,
        TwGraphNode::DeleteFromSet => true,
        TwGraphNode::PopFromList => true,
        TwGraphNode::ListHead => true,
        TwGraphNode::And => true,
        TwGraphNode::Or => true,
        TwGraphNode::Not => true,
        TwGraphNode::IsPresent => true,
        TwGraphNode::Add => true,
        TwGraphNode::Sub => true,
        _ => false,
    }
}

impl TwGraphNode {
    pub fn is_optional_chained(&self) -> (yes: bool)
        ensures
            yes == optional_chained(*self),
    {
        match self {
            TwGraphNode::BuildTable(_) => true,
            TwGraphNode::BuildSet => true,
            TwGraphNode::GetField(_) => true,
            TwGraphNode::GetSetElement => true,
            TwGraphNode::FilterSet(_) => true,
            TwGraphNode::InsertIntoSet => true,
            TwGraphNode::DeleteFromTable(_) => true,
            TwGraphNode::DeleteFromSet => true,
            TwGraphNode::PopFromList => true,
            TwGraphNode::ListHead => true,
            TwGraphNode::And => true,
            TwGraphNode::Or => true,
            TwGraphNode::Not => true,
            TwGraphNode::IsPresent => true,
            TwGraphNode::Add => true,
            TwGraphNode::Sub => true,
            _ => false,
        }
    }

    /// Whether the node runs as soon as one of its inputs arrives.
    pub fn is_select(&self) -> (yes: bool)
        ensures
            yes == (self is Select),
    {
        match self {
            TwGraphNode::Select => true,
            _ => false,
        }
    }
}

impl TwGraph {
    /// Every node is fed and gated by earlier nodes only, and the output and
    /// the effects are nodes of the graph.
    pub open spec fn wf(self) -> bool {
        &&& self.nodes@.len() <= u32::MAX
        &&& forall|t: int| 0 <= t < self.nodes@.len() ==> (#[trigger] self.nodes@[t]).1@.len() <= u32::MAX
        &&& forall|t: int, p: int|
            0 <= t < self.nodes@.len() && 0 <= p < self.nodes@[t].1@.len() ==> (#[trigger] self.nodes@[t].1@[p]) < t
        &&& forall|t: int|
            0 <= t < self.nodes@.len() ==> ((#[trigger] self.nodes@[t]).2 matches Some(guard) ==> guard < t)
        &&& self.output matches Some(o) ==> o < self.nodes@.len()
        &&& forall|i: int| 0 <= i < self.effects@.len() ==> (#[trigger] self.effects@[i]) < self.nodes@.len()
    }

    /// Whether the graph is well-formed.
    pub fn is_well_formed(&self) -> (yes: bool)
        ensures
            yes == self.wf(),
    {
        if self.nodes.len() > u32::MAX as usize {
            return false;
        }
        let mut t: usize = 0;
        while t < self.nodes.len()
            invariant
                t <= self.nodes@.len(),
                forall|a: int| 0 <= a < t ==> (#[trigger] self.nodes@[a]).1@.len() <= u32::MAX,
                forall|a: int, p: int|
                    0 <= a < t && 0 <= p < self.nodes@[a].1@.len() ==> (#[trigger] self.nodes@[a].1@[p]) < a,
                forall|a: int| 0 <= a < t ==> ((#[trigger] self.nodes@[a]).2 matches Some(guard) ==> guard < a),
            decreases self.nodes.len() - t,
        {
            let edges = &self.nodes[t].1;
            if edges.len() > u32::MAX as usize {
                return false;
            }
            let mut p: usize = 0;
            while p < edges.len()
                invariant
                    p <= edges@.len(),
                    t < self.nodes@.len(),
                    edges@ == self.nodes@[t as int].1@,
                    forall|q: int| 0 <= q < p ==> (#[trigger] edges@[q]) < t,
                decreases edges.len() - p,
            {
                if edges[p] as usize >= t {
                    return false;
                }
                p += 1;
            }
            if let Some(guard) = self.nodes[t].2 {
                if guard as usize >= t {
                    return false;
                }
            }
            t += 1;
        }
        if let Some(o) = self.output {
            if o as usize >= self.nodes.len() {
                return false;
            }
        }
        let mut i: usize = 0;
        while i < self.effects.len()
            invariant
                i <= self.effects@.len(),
                forall|j: int| 0 <= j < i ==> (#[trigger] self.effects@[j]) < self.nodes@.len(),
            decreases self.effects.len() - i,
        {
            if self.effects[i] as usize >= self.nodes.len() {
                return false;
            }
            i += 1;
        }
        true
    }
}

} // verus!
