//! The path walker: a position in the storage plan together with the key
//! prefix that the path to it has fixed, from which the keys of the store are
//! derived.
//!
//! The key of a node in the store is the keys of its enclosing nodes that are
//! not flattened, in order, followed by its own key. A set keeps its members
//! under two prefixes of its own key: the scan index, which holds each
//! member's primary key, and the data, which holds each member's fields under
//! the member's primary key and a zero byte.

use vstd::prelude::*;
use crate::bytes::{bump_last, in_range, is_prefix, lemma_prefix_range, push_all};
use crate::storage_plan::{key_eq, same_node, same_plan, StorageKey, StorageNode, StoragePlan};
use crate::strmap::Entry;
use crate::strmap::{find_entry, first_index_from};
use crate::value::{key_component, PrimitiveValue};

verus! {

/// The byte after a set's key under which the members' data lies.
pub const SET_DATA_TAG: u8 = 0x00;

/// The byte after a set's key under which the members' primary keys are
/// listed.
pub const SET_FAST_SCAN_TAG: u8 = 0x01;

/// The byte that ends a member's primary key in the data of a set.
pub const MEMBER_END: u8 = 0x00;

/// One step down the plan.
#[derive(Clone, Copy, PartialEq, Eq, Structural, Debug)]
pub enum Step {
    /// To the child at this position.
    Child(usize),
    /// To the member plan of a set.
    Member,
}

#[derive(Debug)]
pub struct PathWalker {
    /// The export that the path starts at, by position in the plan.
    pub export: usize,
    /// The steps from the export's node to the node the walker stands on. A
    /// walker never stands on a subspace reference but on the node that the
    /// reference points to.
    pub route: Vec<Step>,
    /// The part of the key that the path has fixed.
    pub prefix: Vec<u8>,
}

pub struct WalkerView {
    pub export: usize,
    pub route: Seq<Step>,
    pub prefix: Seq<u8>,
}

impl View for PathWalker {
    type V = WalkerView;

    open spec fn view(&self) -> WalkerView {
        WalkerView { export: self.export, route: self.route@, prefix: self.prefix@ }
    }
}

/// The node that the steps from `from` on lead to, starting at `node`.
pub open spec fn descend(node: StorageNode, route: Seq<Step>, from: int) -> Option<StorageNode>
    decreases route.len() - from,
{
    if 0 <= from < route.len() {
        match route[from] {
            Step::Child(c) => if c < node.children@.len() {
                descend(node.children@[c as int].value, route, from + 1)
            } else {
                None
            },
            Step::Member => match node.set {
                Some(member) => descend(*member, route, from + 1),
                None => None,
            },
        }
    } else {
        Some(node)
    }
}

/// The node at the end of `route` from the export at `export`.
pub open spec fn node_at(plan: StoragePlan, export: usize, route: Seq<Step>) -> Option<StorageNode> {
    if export < plan.nodes.entries@.len() {
        descend(plan.nodes.entries@[export as int].value, route, 0)
    } else {
        None
    }
}

/// The longest start of `route`, of at most `len` steps, that leads to a node
/// with the key `key` that is no reference: the node that a reference with
/// that key, met at the end of `route`, points to.
pub open spec fn enclosing(plan: StoragePlan, export: usize, route: Seq<Step>, key: StorageKey, len: int) -> Option<
    int,
>
    decreases len + 1,
{
    if len < 0 || len > route.len() {
        None
    } else {
        match node_at(plan, export, route.subrange(0, len)) {
            Some(node) => if node.key == key && !node.subspace_reference {
                Some(len)
            } else {
                enclosing(plan, export, route, key, len - 1)
            },
            None => enclosing(plan, export, route, key, len - 1),
        }
    }
}

/// The walker that has arrived at the end of `target` with `prefix` fixed: it
/// stands on the node there, or, where that node is a reference, on the node
/// that the reference points to. Nothing where the route leaves the plan or
/// the reference points nowhere.
pub open spec fn arrive(plan: StoragePlan, export: usize, target: Seq<Step>, prefix: Seq<u8>) -> Option<
    WalkerView,
> {
    match node_at(plan, export, target) {
        None => None,
        Some(node) => if node.subspace_reference {
            match enclosing(plan, export, target, node.key, target.len() - 1) {
                Some(len) => Some(WalkerView { export, route: target.subrange(0, len), prefix }),
                None => None,
            }
        } else {
            Some(WalkerView { export, route: target, prefix })
        },
    }
}

/// The node that the walker stands on.
pub open spec fn walker_node(plan: StoragePlan, w: WalkerView) -> Option<StorageNode> {
    node_at(plan, w.export, w.route)
}

/// The walker stands on a node of the plan that is no reference.
pub open spec fn stands(plan: StoragePlan, w: WalkerView) -> bool {
    walker_node(plan, w) matches Some(node) && !node.subspace_reference
}

/// The key of the walker's node in the store.
pub open spec fn walker_key(plan: StoragePlan, w: WalkerView) -> Seq<u8> {
    w.prefix + walker_node(plan, w)->Some_0.key@
}

/// The prefix that the walker's node fixes for its children: its own key
/// after its own prefix, unless it is flattened.
pub open spec fn child_prefix(node: StorageNode, prefix: Seq<u8>) -> Seq<u8> {
    if node.flattened {
        prefix
    } else {
        prefix + node.key@
    }
}

/// The walker after entering the field `name`.
pub open spec fn spec_enter_field(plan: StoragePlan, w: WalkerView, name: Seq<char>) -> Option<WalkerView> {
    match walker_node(plan, w) {
        None => None,
        Some(node) => match first_index_from(node.children@, name, 0) {
            None => None,
            Some(c) => arrive(plan, w.export, w.route.push(Step::Child(c as usize)), child_prefix(node, w.prefix)),
        },
    }
}

/// The prefix under which a set lists its members' primary keys.
pub open spec fn spec_set_fast_scan_prefix(plan: StoragePlan, w: WalkerView) -> Option<Seq<u8>> {
    match walker_node(plan, w) {
        Some(node) => if node.set is Some {
            Some(w.prefix + node.key@ + seq![SET_FAST_SCAN_TAG])
        } else {
            None
        },
        None => None,
    }
}

/// The prefix under which a set keeps its members' data.
pub open spec fn spec_set_data_prefix(plan: StoragePlan, w: WalkerView) -> Option<Seq<u8>> {
    match walker_node(plan, w) {
        Some(node) => if node.set is Some {
            Some(w.prefix + node.key@ + seq![SET_DATA_TAG])
        } else {
            None
        },
        None => None,
    }
}

/// The walker after entering the member of a set whose primary key is written
/// as `primary_key`.
pub open spec fn spec_enter_set_raw(plan: StoragePlan, w: WalkerView, primary_key: Seq<u8>) -> Option<
    WalkerView,
> {
    match spec_set_data_prefix(plan, w) {
        None => None,
        Some(data) => arrive(
            plan,
            w.export,
            w.route.push(Step::Member),
            data + primary_key + seq![MEMBER_END],
        ),
    }
}

/// The walker at the export `name`.
pub open spec fn spec_from_export(plan: StoragePlan, name: Seq<char>) -> Option<WalkerView> {
    match plan.nodes.index_of(name) {
        None => None,
        Some(e) => arrive(plan, e as usize, seq![], seq![]),
    }
}

/// What `enclosing` finds is a start of the route that leads to a node which
/// is no reference.
pub proof fn lemma_enclosing(plan: StoragePlan, export: usize, route: Seq<Step>, key: StorageKey, len: int)
    ensures
        enclosing(plan, export, route, key, len) matches Some(l) ==> 0 <= l <= len && l <= route.len() && (
        node_at(plan, export, route.subrange(0, l)) matches Some(node) && node.key == key
            && !node.subspace_reference),
    decreases len + 1,
{
    if 0 <= len <= route.len() {
        lemma_enclosing(plan, export, route, key, len - 1);
    }
}

/// A walker that has arrived stands on a node of the plan.
pub proof fn lemma_arrive_stands(plan: StoragePlan, export: usize, target: Seq<Step>, prefix: Seq<u8>)
    ensures
        arrive(plan, export, target, prefix) matches Some(w) ==> stands(plan, w),
{
    match node_at(plan, export, target) {
        None => {},
        Some(node) => {
            if node.subspace_reference {
                lemma_enclosing(plan, export, target, node.key, target.len() - 1);
            }
        },
    }
}

/// The data of a set lies in one range of the store that holds nothing else:
/// the keys from the set's data prefix up to the prefix with its last byte
/// raised are exactly the keys that start with the prefix.
pub proof fn lemma_set_data_range(plan: StoragePlan, w: WalkerView, k: Seq<u8>)
    requires
        spec_set_data_prefix(plan, w) is Some,
    ensures
        ({
            let data = spec_set_data_prefix(plan, w)->Some_0;
            in_range(k, data, bump_last(data)) == is_prefix(data, k)
        }),
{
    let data = spec_set_data_prefix(plan, w)->Some_0;
    assert(data.last() == SET_DATA_TAG);
    lemma_prefix_range(data, k);
}

/// The scan index of a set lies in one range of the store that holds nothing
/// else.
pub proof fn lemma_set_fast_scan_range(plan: StoragePlan, w: WalkerView, k: Seq<u8>)
    requires
        spec_set_fast_scan_prefix(plan, w) is Some,
    ensures
        ({
            let index = spec_set_fast_scan_prefix(plan, w)->Some_0;
            in_range(k, index, bump_last(index)) == is_prefix(index, k)
        }),
{
    let index = spec_set_fast_scan_prefix(plan, w)->Some_0;
    assert(index.last() == SET_FAST_SCAN_TAG);
    lemma_prefix_range(index, k);
}

/// The node at the end of the first `len` steps of `route`.
pub fn node_at_len<'a>(plan: &'a StoragePlan, export: usize, route: &Vec<Step>, len: usize) -> (found: Option<
    &'a StorageNode,
>)
    requires
        len <= route@.len(),
    ensures
        match found {
            Some(node) => node_at(*plan, export, route@.subrange(0, len as int)) == Some(*node),
            None => node_at(*plan, export, route@.subrange(0, len as int)) is None,
        },
{
    if export >= plan.nodes.entries.len() {
        return None;
    }
    let ghost steps = route@.subrange(0, len as int);
    let ghost root = plan.nodes.entries@[export as int].value;
    let mut node: &'a StorageNode = &plan.nodes.entries[export].value;
    let mut i: usize = 0;
    while i < len
        invariant
            i <= len <= route@.len(),
            export < plan.nodes.entries@.len(),
            root == plan.nodes.entries@[export as int].value,
            steps == route@.subrange(0, len as int),
            descend(root, steps, 0) == descend(*node, steps, i as int),
        decreases len - i,
    {
        assert(steps[i as int] == route@[i as int]);
        match route[i] {
            Step::Child(c) => {
                if c < node.children.len() {
                    node = &node.children[c].value;
                } else {
                    return None;
                }
            },
            Step::Member => match &node.set {
                Some(member) => {
                    node = &**member;
                },
                None => {
                    return None;
                },
            },
        }
        i += 1;
    }
    Some(node)
}

/// The first `len` steps of `route`.
pub fn route_start(route: &Vec<Step>, len: usize) -> (start: Vec<Step>)
    requires
        len <= route@.len(),
    ensures
        start@ == route@.subrange(0, len as int),
{
    let mut start: Vec<Step> = Vec::new();
    let mut i: usize = 0;
    while i < len
        invariant
            i <= len <= route@.len(),
            start@ == route@.subrange(0, i as int),
        decreases len - i,
    {
        start.push(route[i]);
        assert(start@ =~= route@.subrange(0, i + 1));
        i += 1;
    }
    start
}

/// The walker that has arrived at the end of `target` with `prefix` fixed.
pub fn arrive_at(plan: &StoragePlan, export: usize, target: Vec<Step>, prefix: Vec<u8>) -> (walker: Option<
    PathWalker,
>)
    ensures
        match walker {
            Some(w) => arrive(*plan, export, target@, prefix@) == Some(w@),
            None => arrive(*plan, export, target@, prefix@) is None,
        },
{
    assert(target@.subrange(0, target@.len() as int) =~= target@);
    let node = match node_at_len(plan, export, &target, target.len()) {
        Some(node) => node,
        None => {
            return None;
        },
    };
    if !node.subspace_reference {
        return Some(PathWalker { export, route: target, prefix });
    }
    let mut len: usize = target.len();
    while len > 0
        invariant
            len <= target@.len(),
            node_at(*plan, export, target@) == Some(*node),
            node.subspace_reference,
            enclosing(*plan, export, target@, node.key, target@.len() - 1) == enclosing(
                *plan,
                export,
                target@,
                node.key,
                len - 1,
            ),
        decreases len,
    {
        len -= 1;
        if let Some(above) = node_at_len(plan, export, &target, len) {
            if key_eq(&above.key, &node.key) && !above.subspace_reference {
                let route = route_start(&target, len);
                return Some(PathWalker { export, route, prefix });
            }
        }
    }
    None
}

impl PathWalker {
    /// The walker at the export `name`.
    pub fn from_export(plan: &StoragePlan, name: &str) -> (walker: Option<PathWalker>)
        ensures
            match walker {
                Some(w) => spec_from_export(*plan, name@) == Some(w@) && stands(*plan, w@),
                None => spec_from_export(*plan, name@) is None,
            },
    {
        proof {
            if let Some(e) = plan.nodes.index_of(name@) {
                lemma_arrive_stands(*plan, e as usize, seq![], seq![]);
            }
        }
        match plan.nodes.find(name) {
            Some(e) => arrive_at(plan, e, Vec::new(), Vec::new()),
            None => None,
        }
    }

    /// Whether the walker stands on a node of `plan`.
    pub fn stands_on(&self, plan: &StoragePlan) -> (yes: bool)
        ensures
            yes == stands(*plan, self@),
    {
        assert(self.route@.subrange(0, self.route@.len() as int) =~= self.route@);
        match node_at_len(plan, self.export, &self.route, self.route.len()) {
            Some(node) => !node.subspace_reference,
            None => false,
        }
    }

    /// The node that the walker stands on.
    pub fn node<'a>(&self, plan: &'a StoragePlan) -> (found: Option<&'a StorageNode>)
        ensures
            match found {
                Some(node) => walker_node(*plan, self@) == Some(*node),
                None => walker_node(*plan, self@) is None,
            },
    {
        assert(self.route@.subrange(0, self.route@.len() as int) =~= self.route@);
        node_at_len(plan, self.export, &self.route, self.route.len())
    }

    /// The key of the walker's node in the store.
    pub fn generate_key(&self, plan: &StoragePlan) -> (key: Vec<u8>)
        requires
            stands(*plan, self@),
        ensures
            key@ == walker_key(*plan, self@),
    {
        let mut key = crate::value::copy_bytes(self.prefix.as_slice());
        match self.node(plan) {
            Some(node) => {
                push_all(&mut key, node.key.as_slice());
            },
            None => {},
        }
        key
    }

    /// The walker after entering the field `name`: nothing where the node has
    /// no such field.
    pub fn enter_field(&self, plan: &StoragePlan, name: &str) -> (walker: Option<PathWalker>)
        ensures
            match walker {
                Some(w) => spec_enter_field(*plan, self@, name@) == Some(w@) && stands(*plan, w@),
                None => spec_enter_field(*plan, self@, name@) is None,
            },
    {
        let node = match self.node(plan) {
            Some(node) => node,
            None => {
                return None;
            },
        };
        let c = match find_entry(&node.children, name) {
            Some(c) => c,
            None => {
                return None;
            },
        };
        let mut prefix = crate::value::copy_bytes(self.prefix.as_slice());
        if !node.flattened {
            push_all(&mut prefix, node.key.as_slice());
        }
        let mut target = route_start(&self.route, self.route.len());
        target.push(Step::Child(c));
        proof {
            assert(target@ =~= self.route@.push(Step::Child(c)));
            lemma_arrive_stands(*plan, self.export, target@, prefix@);
        }
        arrive_at(plan, self.export, target, prefix)
    }

    /// The prefix under which a set lists its members' primary keys; nothing
    /// where the walker stands on no set.
    pub fn set_fast_scan_prefix(&self, plan: &StoragePlan) -> (prefix: Option<Vec<u8>>)
        ensures
            match prefix {
                Some(p) => spec_set_fast_scan_prefix(*plan, self@) == Some(p@),
                None => spec_set_fast_scan_prefix(*plan, self@) is None,
            },
    {
        match self.node(plan) {
            Some(node) => {
                if node.set.is_some() {
                    let mut prefix = crate::value::copy_bytes(self.prefix.as_slice());
                    push_all(&mut prefix, node.key.as_slice());
                    prefix.push(SET_FAST_SCAN_TAG);
                    assert(prefix@ =~= self.prefix@ + node.key@ + seq![SET_FAST_SCAN_TAG]);
                    Some(prefix)
                } else {
                    None
                }
            },
            None => None,
        }
    }

    /// The prefix under which a set keeps its members' data; nothing where
    /// the walker stands on no set.
    pub fn set_data_prefix(&self, plan: &StoragePlan) -> (prefix: Option<Vec<u8>>)
        ensures
            match prefix {
                Some(p) => spec_set_data_prefix(*plan, self@) == Some(p@),
                None => spec_set_data_prefix(*plan, self@) is None,
            },
    {
        match self.node(plan) {
            Some(node) => {
                if node.set.is_some() {
                    let mut prefix = crate::value::copy_bytes(self.prefix.as_slice());
                    push_all(&mut prefix, node.key.as_slice());
                    prefix.push(SET_DATA_TAG);
                    assert(prefix@ =~= self.prefix@ + node.key@ + seq![SET_DATA_TAG]);
                    Some(prefix)
                } else {
                    None
                }
            },
            None => None,
        }
    }

    /// The walker after entering the member of a set whose primary key is
    /// written as `primary_key`; nothing where the walker stands on no set.
    pub fn enter_set_raw(&self, plan: &StoragePlan, primary_key: &[u8]) -> (walker: Option<PathWalker>)
        ensures
            match walker {
                Some(w) => spec_enter_set_raw(*plan, self@, primary_key@) == Some(w@) && stands(*plan, w@),
                None => spec_enter_set_raw(*plan, self@, primary_key@) is None,
            },
    {
        let mut prefix = match self.set_data_prefix(plan) {
            Some(prefix) => prefix,
            None => {
                return None;
            },
        };
        push_all(&mut prefix, primary_key);
        prefix.push(MEMBER_END);
        let mut target = route_start(&self.route, self.route.len());
        target.push(Step::Member);
        proof {
            assert(target@ =~= self.route@.push(Step::Member));
            assert(prefix@ =~= spec_set_data_prefix(*plan, self@)->Some_0 + primary_key@ + seq![MEMBER_END]);
            lemma_arrive_stands(*plan, self.export, target@, prefix@);
        }
        arrive_at(plan, self.export, target, prefix)
    }

    /// The walker after entering the member of a set with the primary key
    /// `primary_key`.
    pub fn enter_set(&self, plan: &StoragePlan, primary_key: &PrimitiveValue) -> (walker: Option<PathWalker>)
        ensures
            match walker {
                Some(w) => spec_enter_set_raw(*plan, self@, key_component(primary_key@)) == Some(w@)
                    && stands(*plan, w@),
                None => spec_enter_set_raw(*plan, self@, key_component(primary_key@)) is None,
            },
    {
        let raw = primary_key.serialize_for_key_component();
        self.enter_set_raw(plan, raw.as_slice())
    }

    /// A copy of the walker.
    pub fn duplicate(&self) -> (copy: PathWalker)
        ensures
            copy@ == self@,
    {
        let route = route_start(&self.route, self.route.len());
        assert(route@ =~= self.route@);
        PathWalker { export: self.export, route, prefix: crate::value::copy_bytes(self.prefix.as_slice()) }
    }
}

impl PathWalker {
    /// Whether two walkers stand at the same place with the same prefix.
    pub fn same_as(&self, other: &PathWalker) -> (same: bool)
        ensures
            same == (self@ == other@),
    {
        if self.export != other.export || self.route.len() != other.route.len() {
            return false;
        }
        let mut i: usize = 0;
        while i < self.route.len()
            invariant
                i <= self.route@.len(),
                self.route@.len() == other.route@.len(),
                forall|j: int| 0 <= j < i ==> self.route@[j] == other.route@[j],
            decreases self.route.len() - i,
        {
            if self.route[i] != other.route[i] {
                return false;
            }
            i += 1;
        }
        assert(self.route@ =~= other.route@);
        crate::bytes::bytes_eq(self.prefix.as_slice(), other.prefix.as_slice())
    }
}

/// Entries with the same names find the same names at the same places.
proof fn lemma_same_names_same_index(
    a: Seq<Entry<StorageNode>>,
    b: Seq<Entry<StorageNode>>,
    name: Seq<char>,
    from: int,
)
    requires
        0 <= from,
        a.len() == b.len(),
        forall|i: int| 0 <= i < a.len() ==> (#[trigger] a[i]).key@ == b[i].key@,
    ensures
        first_index_from(a, name, from) == first_index_from(b, name, from),
    decreases a.len() - from,
{
    if from < a.len() {
        assert(a[from].key@ == b[from].key@);
        lemma_same_names_same_index(a, b, name, from + 1);
    }
}

/// A route leads through two nodes of the same shape, names, flags and keys
/// to such nodes again.
proof fn lemma_same_node_descends(a: StorageNode, b: StorageNode, route: Seq<Step>, from: int)
    requires
        0 <= from,
        same_node(a, b),
    ensures
        descend(a, route, from) is Some == descend(b, route, from) is Some,
        descend(a, route, from) is Some ==> same_node(descend(a, route, from)->Some_0, descend(b, route, from)->Some_0),
    decreases route.len() - from,
{
    if from < route.len() {
        match route[from] {
            Step::Child(c) => {
                if c < a.children@.len() {
                    assert(a.children@[c as int].key@ == b.children@[c as int].key@);
                    lemma_same_node_descends(a.children@[c as int].value, b.children@[c as int].value, route, from + 1);
                }
            },
            Step::Member => {
                if a.set is Some {
                    lemma_same_node_descends(*a.set->Some_0, *b.set->Some_0, route, from + 1);
                }
            },
        }
    }
}

proof fn lemma_same_plan_node(a: StoragePlan, b: StoragePlan, export: usize, route: Seq<Step>)
    requires
        same_plan(a, b),
    ensures
        node_at(a, export, route) is Some == node_at(b, export, route) is Some,
        node_at(a, export, route) is Some ==> same_node(node_at(a, export, route)->Some_0, node_at(b, export, route)->Some_0),
{
    if export < a.nodes.entries@.len() {
        assert(a.nodes.entries@[export as int].key@ == b.nodes.entries@[export as int].key@);
        lemma_same_node_descends(a.nodes.entries@[export as int].value, b.nodes.entries@[export as int].value, route, 0);
    }
}

proof fn lemma_same_plan_enclosing(a: StoragePlan, b: StoragePlan, export: usize, route: Seq<Step>, key: StorageKey, len: int)
    requires
        same_plan(a, b),
    ensures
        enclosing(a, export, route, key, len) == enclosing(b, export, route, key, len),
    decreases len + 1,
{
    if 0 <= len <= route.len() {
        lemma_same_plan_node(a, b, export, route.subrange(0, len));
        lemma_same_plan_enclosing(a, b, export, route, key, len - 1);
    }
}

proof fn lemma_same_plan_arrive(a: StoragePlan, b: StoragePlan, export: usize, target: Seq<Step>, prefix: Seq<u8>)
    requires
        same_plan(a, b),
    ensures
        arrive(a, export, target, prefix) == arrive(b, export, target, prefix),
{
    lemma_same_plan_node(a, b, export, target);
    if let Some(node) = node_at(a, export, target) {
        lemma_same_plan_enclosing(a, b, export, target, node.key, target.len() - 1);
    }
}

/// Two plans of the same shape, names, flags and keys give the same key
/// layout: a walker stands on both or on neither, has the same key in both,
/// and enters the fields and set members of both alike.
pub proof fn lemma_same_plan_same_layout(a: StoragePlan, b: StoragePlan, w: WalkerView)
    requires
        same_plan(a, b),
    ensures
        stands(a, w) == stands(b, w),
        stands(a, w) ==> walker_key(a, w) == walker_key(b, w),
        spec_set_fast_scan_prefix(a, w) == spec_set_fast_scan_prefix(b, w),
        spec_set_data_prefix(a, w) == spec_set_data_prefix(b, w),
        forall|name: Seq<char>| #[trigger] spec_enter_field(a, w, name) == spec_enter_field(b, w, name),
        forall|primary_key: Seq<u8>|
            #[trigger] spec_enter_set_raw(a, w, primary_key) == spec_enter_set_raw(b, w, primary_key),
        forall|name: Seq<char>| #[trigger] spec_from_export(a, name) == spec_from_export(b, name),
{
    lemma_same_plan_node(a, b, w.export, w.route);
    assert forall|name: Seq<char>| #[trigger] spec_enter_field(a, w, name) == spec_enter_field(b, w, name) by {
        if let Some(node) = walker_node(a, w) {
            let other = walker_node(b, w)->Some_0;
            lemma_same_names_same_index(node.children@, other.children@, name, 0);
            if let Some(c) = first_index_from(node.children@, name, 0) {
                lemma_same_plan_arrive(
                    a,
                    b,
                    w.export,
                    w.route.push(Step::Child(c as usize)),
                    child_prefix(node, w.prefix),
                );
            }
        }
    }
    assert forall|primary_key: Seq<u8>|
        #[trigger] spec_enter_set_raw(a, w, primary_key) == spec_enter_set_raw(b, w, primary_key) by {
        if let Some(data) = spec_set_data_prefix(a, w) {
            lemma_same_plan_arrive(a, b, w.export, w.route.push(Step::Member), data + primary_key + seq![MEMBER_END]);
        }
    }
    assert forall|name: Seq<char>| #[trigger] spec_from_export(a, name) == spec_from_export(b, name) by {
        lemma_same_names_same_index(a.nodes.entries@, b.nodes.entries@, name, 0);
        if let Some(e) = a.nodes.index_of(name) {
            lemma_same_plan_arrive(a, b, e as usize, seq![], seq![]);
        }
    }
}

} // verus!
