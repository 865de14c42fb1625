//! The storage plan: a tree that mirrors the schema and gives every reachable
//! field a key prefix in the key-value store.

use vstd::prelude::*;
use crate::bytes::bytes_eq;
use crate::strmap::{Entry, StrMap};

pub mod apart;
pub mod cycles;
pub mod keygen;
pub mod planner;

verus! {

/// An opaque identifier of a plan node. Keys are concatenated along a path to
/// form the keys of the store.
pub type StorageKey = [u8; 12];

#[derive(Debug)]
pub struct StorageNode {
    pub key: StorageKey,
    /// The children share the parent's prefix: this node's key is no part of
    /// their keys.
    pub flattened: bool,
    /// A back-edge into an enclosing node of a recursive type, by that node's
    /// key.
    pub subspace_reference: bool,
    /// The whole value lives in one entry of the store under this node's key.
    pub packed: bool,
    /// The plan of a member, where this node is a set.
    pub set: Option<Box<StorageNode>>,
    pub children: Vec<Entry<StorageNode>>,
}

#[derive(Debug)]
pub struct StoragePlan {
    pub nodes: StrMap<StorageNode>,
}

/// Every key in the subtree of `node`: its own, then the member plan's, then
/// the children's.
pub open spec fn node_keys(node: StorageNode) -> Seq<StorageKey>
    decreases node,
{
    seq![node.key] + (match node.set {
        Some(member) => node_keys(*member),
        None => seq![],
    }) + entries_keys(node.children@, 0)
}

/// Every key in the subtrees of the entries from `from` on.
pub open spec fn entries_keys(entries: Seq<Entry<StorageNode>>, from: int) -> Seq<StorageKey>
    decreases entries, entries.len() - from,
{
    if 0 <= from < entries.len() {
        node_keys(entries[from].value) + entries_keys(entries, from + 1)
    } else {
        seq![]
    }
}

/// Every key in the plan.
pub open spec fn plan_keys(plan: StoragePlan) -> Seq<StorageKey> {
    entries_keys(plan.nodes.entries@, 0)
}

/// The keys that nodes of the subtree hold for themselves, which leaves out
/// the subspace references: a reference borrows the key of the node it points
/// to. A set lists its member plan before its own key.
pub open spec fn owned_keys(node: StorageNode) -> Seq<StorageKey>
    decreases node,
{
    if node.subspace_reference {
        seq![]
    } else {
        match node.set {
            Some(member) => owned_keys(*member) + seq![node.key],
            None => seq![node.key] + entries_owned_keys(node.children@, node.children@.len() as int),
        }
    }
}

pub open spec fn entries_owned_keys(entries: Seq<Entry<StorageNode>>, upto: int) -> Seq<StorageKey>
    decreases entries, upto,
{
    if 0 < upto <= entries.len() {
        entries_owned_keys(entries, upto - 1) + owned_keys(entries[upto - 1].value)
    } else {
        seq![]
    }
}

/// The keys that the nodes of the plan hold for themselves.
pub open spec fn plan_owned_keys(plan: StoragePlan) -> Seq<StorageKey> {
    entries_owned_keys(plan.nodes.entries@, plan.nodes.entries@.len() as int)
}

/// The node and every node below it is one of: a leaf, a packed leaf, a
/// subspace reference, a record with children, flattened or not, or a set
/// with a member plan. Only a record has children; packed nodes, references
/// and sets are not flattened; a reference has no children.
pub open spec fn well_shaped(node: StorageNode) -> bool
    decreases node,
{
    &&& node.subspace_reference ==> !node.flattened && !node.packed && node.set is None && node.children@.len() == 0
    &&& node.packed ==> !node.flattened && node.set is None && node.children@.len() == 0
    &&& node.set is Some ==> !node.flattened && node.children@.len() == 0
    &&& match node.set {
        Some(member) => well_shaped(*member),
        None => true,
    }
    &&& forall|i: int| 0 <= i < node.children@.len() ==> well_shaped((#[trigger] node.children@[i]).value)
}

/// Two subtrees with the same shape, names, flags and keys.
pub open spec fn same_node(a: StorageNode, b: StorageNode) -> bool
    decreases a,
{
    &&& a.key == b.key
    &&& a.flattened == b.flattened
    &&& a.subspace_reference == b.subspace_reference
    &&& a.packed == b.packed
    &&& match (a.set, b.set) {
        (Some(x), Some(y)) => same_node(*x, *y),
        (None, None) => true,
        _ => false,
    }
    &&& a.children@.len() == b.children@.len()
    &&& forall|i: int|
        0 <= i < a.children@.len() ==> {
            &&& (#[trigger] a.children@[i]).key@ == b.children@[i].key@
            &&& same_node(a.children@[i].value, b.children@[i].value)
        }
}

/// Two plans with the same exports and the same subtree under each.
pub open spec fn same_plan(a: StoragePlan, b: StoragePlan) -> bool {
    &&& a.nodes.entries@.len() == b.nodes.entries@.len()
    &&& forall|i: int|
        0 <= i < a.nodes.entries@.len() ==> {
            &&& (#[trigger] a.nodes.entries@[i]).key@ == b.nodes.entries@[i].key@
            &&& same_node(a.nodes.entries@[i].value, b.nodes.entries@[i].value)
        }
}

/// Whether two storage keys are the same key.
pub fn key_eq(a: &StorageKey, b: &StorageKey) -> (same: bool)
    ensures
        same == (*a == *b),
{
    let same = bytes_eq(a.as_slice(), b.as_slice());
    proof {
        if same {
            assert(a@ =~= b@);
            vstd::array::axiom_array_ext_equal(*a, *b);
        }
    }
    same
}

/// Whether `keys` holds `key`.
pub fn holds_key(keys: &Vec<StorageKey>, key: &StorageKey) -> (yes: bool)
    ensures
        yes == keys@.contains(*key),
{
    let mut i: usize = 0;
    while i < keys.len()
        invariant
            i <= keys.len(),
            forall|j: int| 0 <= j < i ==> keys@[j] != *key,
        decreases keys.len() - i,
    {
        if key_eq(&keys[i], key) {
            return true;
        }
        i += 1;
    }
    false
}

impl StoragePlan {
    /// The plan without exports.
    pub fn new() -> (plan: Self)
        ensures
            plan.nodes.entries@.len() == 0,
    {
        StoragePlan { nodes: StrMap::new() }
    }
}

} // verus!
