//! In a plan whose nodes hold unique keys, the children of one node have
//! different keys, subspace references included: a reference has the key of
//! a node that encloses it, and two children that are references point to
//! different enclosing nodes.

use vstd::prelude::*;
use crate::schema::{is_packed, CompiledSchema, FieldAnnotation, FieldType};
use crate::seqs::lemma_concat_parts;
use crate::strmap::Entry;
use super::planner::{
    child_old, export_old, fits, member_old, plan_fits, stack_key, stack_key_from, unwrapped_old,
    wrappers, Occurrence, OldTreePoint, StackEntry,
};
use super::{entries_owned_keys, owned_keys, plan_owned_keys, StorageKey, StorageNode, StoragePlan};

verus! {

/// The children of the node have different keys, and so have the children of
/// every node below it.
pub open spec fn siblings_apart(node: StorageNode) -> bool
    decreases node,
{
    &&& forall|a: int, b: int|
        0 <= a < b < node.children@.len() ==> (#[trigger] node.children@[a]).value.key != (
        #[trigger] node.children@[b]).value.key
    &&& match node.set {
        Some(member) => siblings_apart(*member),
        None => true,
    }
    &&& forall|i: int| 0 <= i < node.children@.len() ==> siblings_apart((#[trigger] node.children@[i]).value)
}

/// The stack holds no occurrence and no key twice, and none of its keys is
/// among `keys`.
pub open spec fn stack_apart(stack: Seq<StackEntry>, keys: Seq<StorageKey>) -> bool {
    &&& forall|i: int, j: int| 0 <= i < j < stack.len() ==> (#[trigger] stack[i]).key != (#[trigger] stack[j]).key
    &&& forall|i: int, j: int| 0 <= i < j < stack.len() ==> (#[trigger] stack[i]).site != (#[trigger] stack[j]).site
    &&& forall|i: int| 0 <= i < stack.len() ==> !keys.contains((#[trigger] stack[i]).key)
}

/// No key of one entry is a key of another, where the keys of the entries are
/// unique.
proof fn lemma_entry_keys(entries: Seq<Entry<StorageNode>>, upto: int, a: int, b: int)
    requires
        0 <= a < b < upto <= entries.len(),
        entries_owned_keys(entries, upto).no_duplicates(),
    ensures
        forall|x: StorageKey| owned_keys(entries[a].value).contains(x) ==> !owned_keys(entries[b].value).contains(x),
    decreases upto,
{
    let before = entries_owned_keys(entries, upto - 1);
    let last = owned_keys(entries[upto - 1].value);
    assert(entries_owned_keys(entries, upto) == before + last);
    lemma_concat_parts(before, last);
    if b < upto - 1 {
        lemma_entry_keys(entries, upto - 1, a, b);
    } else {
        lemma_one_entry_keys(entries, upto - 1, a);
        assert forall|x: StorageKey| owned_keys(entries[a].value).contains(x) implies !owned_keys(
            entries[b].value,
        ).contains(x) by {
            assert(before.contains(x));
        }
    }
}

/// The keys of one entry are among the keys of the entries up to `upto`, and
/// unique among themselves where those are.
proof fn lemma_one_entry_keys(entries: Seq<Entry<StorageNode>>, upto: int, a: int)
    requires
        0 <= a < upto <= entries.len(),
        entries_owned_keys(entries, upto).no_duplicates(),
    ensures
        owned_keys(entries[a].value).no_duplicates(),
        forall|x: StorageKey|
            owned_keys(entries[a].value).contains(x) ==> entries_owned_keys(entries, upto).contains(x),
    decreases upto,
{
    let before = entries_owned_keys(entries, upto - 1);
    let last = owned_keys(entries[upto - 1].value);
    let whole = entries_owned_keys(entries, upto);
    assert(whole == before + last);
    lemma_concat_parts(before, last);
    if a < upto - 1 {
        lemma_one_entry_keys(entries, upto - 1, a);
        assert forall|x: StorageKey| owned_keys(entries[a].value).contains(x) implies whole.contains(x) by {
            assert(before.contains(x));
        }
    } else {
        assert forall|x: StorageKey| owned_keys(entries[a].value).contains(x) implies whole.contains(x) by {
            assert(last.contains(x));
        }
    }
}

proof fn lemma_stack_key_entry(stack: Seq<StackEntry>, site: Occurrence, from: int)
    requires
        0 <= from,
        stack_key_from(stack, site, from) is Some,
    ensures
        exists|i: int|
            from <= i < stack.len() && (#[trigger] stack[i]).site == site && stack[i].key == stack_key_from(
                stack,
                site,
                from,
            )->Some_0,
    decreases stack.len() - from,
{
    if stack[from].site != site {
        lemma_stack_key_entry(stack, site, from + 1);
    }
}

/// The key of the plan of a field is a key on the stack, where the plan is a
/// reference, or among the keys that the plan holds for itself.
proof fn lemma_key_of_plan(
    schema: CompiledSchema,
    old_schema: &CompiledSchema,
    recursive: Set<Occurrence>,
    field: FieldType,
    annotations: Seq<FieldAnnotation>,
    site: Occurrence,
    old: Option<OldTreePoint>,
    stack: Seq<StackEntry>,
    node: StorageNode,
)
    requires
        fits(schema, old_schema, recursive, field, annotations, site, old, stack, node),
    ensures
        node.subspace_reference ==> stack_key(stack, site) == Some(node.key),
        !node.subspace_reference ==> owned_keys(node).contains(node.key),
    decreases field,
{
    match field {
        FieldType::Optional(inner) => {
            lemma_key_of_plan(
                schema,
                old_schema,
                recursive,
                *inner,
                annotations,
                site,
                unwrapped_old(old),
                stack,
                node,
            );
        },
        FieldType::SetOf(_) => {
            let keys = owned_keys(node);
            assert(keys[keys.len() - 1] == node.key);
        },
        _ => {
            let keys = owned_keys(node);
            if !node.subspace_reference {
                assert(keys[0] == node.key);
            }
        },
    }
}

/// In the plan of a field whose nodes hold unique keys, none of them a key
/// on the stack, the children of every node have different keys.
pub proof fn lemma_fits_siblings_apart(
    schema: CompiledSchema,
    old_schema: &CompiledSchema,
    recursive: Set<Occurrence>,
    field: FieldType,
    annotations: Seq<FieldAnnotation>,
    site: Occurrence,
    old: Option<OldTreePoint>,
    stack: Seq<StackEntry>,
    node: StorageNode,
)
    requires
        fits(schema, old_schema, recursive, field, annotations, site, old, stack, node),
        owned_keys(node).no_duplicates(),
        stack_apart(stack, owned_keys(node)),
    ensures
        siblings_apart(node),
    decreases node, wrappers(field),
{
    match field {
        FieldType::Optional(inner) => {
            lemma_fits_siblings_apart(
                schema,
                old_schema,
                recursive,
                *inner,
                annotations,
                site,
                unwrapped_old(old),
                stack,
                node,
            );
        },
        FieldType::Primitive(_) => {},
        FieldType::SetOf(inner) => {
            let member = *node.set->Some_0;
            lemma_concat_parts(owned_keys(member), seq![node.key]);
            lemma_fits_siblings_apart(
                schema,
                old_schema,
                recursive,
                *inner,
                annotations,
                site,
                member_old(old, *inner, annotations),
                stack,
                member,
            );
        },
        FieldType::Named(name) => {
            if is_packed(annotations) {
            } else if stack_key(stack, site) is Some {
            } else {
                let t = schema.types.index_of(name@)->Some_0;
                let fields = schema.types.entries@[t].value.fields.entries@;
                let entry = StackEntry { site, key: node.key };
                let pushed = stack.push(entry);
                let children = node.children@;
                let below = entries_owned_keys(children, children.len() as int);
                let keys = owned_keys(node);
                assert(keys == seq![node.key] + below);
                lemma_concat_parts(seq![node.key], below);
                assert(keys[0] == node.key);
                assert(keys.contains(node.key));
                assert(seq![node.key].contains(node.key)) by {
                    assert(seq![node.key][0] == node.key);
                }
                assert(!below.contains(node.key));
                // the stack with this node on it stays apart from the keys below
                assert forall|i: int| 0 <= i < stack.len() implies (#[trigger] stack[i]).site != site by {
                    if stack[i].site == site {
                        lemma_site_has_key(stack, site, i);
                    }
                }
                assert(stack_apart(pushed, below)) by {
                    assert forall|i: int| 0 <= i < pushed.len() implies !below.contains((#[trigger] pushed[i]).key) by {
                        if i < stack.len() {
                            assert(!keys.contains(stack[i].key));
                        }
                    }
                    assert forall|i: int, j: int| 0 <= i < j < pushed.len() implies (#[trigger] pushed[i]).key != (
                    #[trigger] pushed[j]).key by {
                        if j == stack.len() {
                            assert(!keys.contains(stack[i].key));
                        }
                    }
                }
                assert forall|i: int| 0 <= i < children.len() implies siblings_apart((#[trigger] children[i]).value) by {
                    lemma_one_entry_keys(children, children.len() as int, i);
                    assert(stack_apart(pushed, owned_keys(children[i].value))) by {
                        assert forall|k: int| 0 <= k < pushed.len() implies !owned_keys(children[i].value).contains(
                            (#[trigger] pushed[k]).key,
                        ) by {
                            assert(!below.contains(pushed[k].key));
                        }
                    }
                    lemma_fits_siblings_apart(
                        schema,
                        old_schema,
                        recursive,
                        fields[i].value.ty,
                        fields[i].value.annotations@,
                        Occurrence::Field(t as usize, i as usize),
                        child_old(old_schema, old, fields[i].key@, fields[i].value),
                        pushed,
                        children[i].value,
                    );
                }
                assert forall|a: int, b: int| 0 <= a < b < children.len() implies (#[trigger] children[a]).value.key != (
                #[trigger] children[b]).value.key by {
                    let ca = children[a].value;
                    let cb = children[b].value;
                    let sa = Occurrence::Field(t as usize, a as usize);
                    let sb = Occurrence::Field(t as usize, b as usize);
                    assert(schema.types.entries@[t].value.fields.entries.len() == fields.len());
                    assert(sa != sb);
                    lemma_entry_keys(children, children.len() as int, a, b);
                    lemma_one_entry_keys(children, children.len() as int, a);
                    lemma_one_entry_keys(children, children.len() as int, b);
                    lemma_key_of_plan(
                        schema,
                        old_schema,
                        recursive,
                        fields[a].value.ty,
                        fields[a].value.annotations@,
                        sa,
                        child_old(old_schema, old, fields[a].key@, fields[a].value),
                        pushed,
                        ca,
                    );
                    lemma_key_of_plan(
                        schema,
                        old_schema,
                        recursive,
                        fields[b].value.ty,
                        fields[b].value.annotations@,
                        sb,
                        child_old(old_schema, old, fields[b].key@, fields[b].value),
                        pushed,
                        cb,
                    );
                    if ca.subspace_reference {
                        lemma_stack_key_entry(pushed, sa, 0);
                        let i = choose|i: int|
                            0 <= i < pushed.len() && (#[trigger] pushed[i]).site == sa && pushed[i].key == ca.key;
                        if cb.subspace_reference {
                            lemma_stack_key_entry(pushed, sb, 0);
                            let j = choose|j: int|
                                0 <= j < pushed.len() && (#[trigger] pushed[j]).site == sb && pushed[j].key == cb.key;
                            assert(i != j);
                            if i < j {
                                assert(pushed[i].key != pushed[j].key);
                            } else {
                                assert(pushed[j].key != pushed[i].key);
                            }
                        } else {
                            assert(owned_keys(cb).contains(cb.key));
                            assert(below.contains(cb.key));
                            assert(!below.contains(pushed[i].key));
                        }
                    } else if cb.subspace_reference {
                        lemma_stack_key_entry(pushed, sb, 0);
                        let j = choose|j: int|
                            0 <= j < pushed.len() && (#[trigger] pushed[j]).site == sb && pushed[j].key == cb.key;
                        assert(owned_keys(ca).contains(ca.key));
                        assert(below.contains(ca.key));
                        assert(!below.contains(pushed[j].key));
                    } else {
                        assert(owned_keys(ca).contains(ca.key));
                        assert(owned_keys(cb).contains(cb.key));
                        assert(!owned_keys(cb).contains(ca.key));
                    }
                }
            }
        },
    }
}

/// An occurrence on the stack has a key there.
proof fn lemma_site_has_key(stack: Seq<StackEntry>, site: Occurrence, i: int)
    requires
        0 <= i < stack.len(),
        stack[i].site == site,
    ensures
        stack_key(stack, site) is Some,
{
    lemma_site_has_key_from(stack, site, 0, i);
}

proof fn lemma_site_has_key_from(stack: Seq<StackEntry>, site: Occurrence, from: int, i: int)
    requires
        0 <= from <= i < stack.len(),
        stack[i].site == site,
    ensures
        stack_key_from(stack, site, from) is Some,
    decreases i - from,
{
    if from < i && stack[from].site != site {
        lemma_site_has_key_from(stack, site, from + 1, i);
    }
}

/// In a plan that the planner has made and whose nodes hold unique keys,
/// which every plan without an earlier plan does, the children of every node
/// have different keys.
pub proof fn lemma_plan_siblings_apart(
    schema: CompiledSchema,
    old_plan: &StoragePlan,
    old_schema: &CompiledSchema,
    recursive: Set<Occurrence>,
    plan: StoragePlan,
    e: int,
)
    requires
        plan_fits(schema, old_plan, old_schema, recursive, plan),
        plan_owned_keys(plan).no_duplicates(),
        0 <= e < plan.nodes.entries@.len(),
    ensures
        siblings_apart(plan.nodes.entries@[e].value),
{
    lemma_one_entry_keys(plan.nodes.entries@, plan.nodes.entries@.len() as int, e);
    assert(plan.nodes.entries@[e].key@ == schema.exports.entries@[e].key@);
    lemma_fits_siblings_apart(
        schema,
        old_schema,
        recursive,
        schema.exports.entries@[e].value,
        seq![],
        Occurrence::Export(e as usize),
        export_old(old_plan, old_schema, schema.exports.entries@[e].key@, schema.exports.entries@[e].value),
        seq![],
        plan.nodes.entries@[e].value,
    );
}

} // verus!
