//! The store as a map from keys to what they hold, and what a read finds
//! after the writes of an insert have been made.

use vstd::prelude::*;
use crate::bytes::in_range;
use crate::pathwalker::{
    child_prefix, lemma_enclosing, node_at, spec_enter_field, spec_enter_set_raw, walker_key,
    walker_node, Step, WalkerView,
};
use crate::strmap::{first_index_from, lemma_first_index};
use crate::schema::CompiledSchema;
use crate::value::key_component;
use crate::storage_plan::apart::lemma_plan_siblings_apart;
use crate::storage_plan::planner::{plan_fits, Occurrence};
use crate::storage_plan::{plan_owned_keys, StoragePlan};
use crate::value::PrimitiveView;
use super::node::{spec_get_set_element, spec_insert_into_set, StepView};
use super::vm_value::{member_key, spec_primary_key, type_of_value, TypeView, ValueView};
use super::writes::{spec_insert, spec_insert_fields, PayloadView, WriteView};

verus! {

/// What the store holds.
pub type Store = Map<Seq<u8>, PayloadView>;

/// The store after one write.
pub open spec fn apply_write(store: Store, write: WriteView) -> Store {
    match write {
        WriteView::Put { key, value } => store.insert(key, value),
        WriteView::Delete { key } => store.remove(key),
        WriteView::DeleteRange { start, end } => Map::new(
            |k: Seq<u8>| store.dom().contains(k) && !in_range(k, start, end),
            |k: Seq<u8>| store[k],
        ),
    }
}

/// The store after the first `upto` of the writes, made in order.
pub open spec fn apply_writes(store: Store, writes: Seq<WriteView>, upto: int) -> Store
    decreases upto,
{
    if 0 < upto <= writes.len() {
        apply_write(apply_writes(store, writes, upto - 1), writes[upto - 1])
    } else {
        store
    }
}

/// The key of the field `name` of the table at `at`.
pub open spec fn field_key(plan: StoragePlan, at: WalkerView, name: Seq<char>) -> Seq<u8> {
    walker_key(plan, spec_enter_field(plan, at, name)->Some_0)
}

/// Every field holds a primitive or a null, and the plan has a place for it.
pub open spec fn flat(plan: StoragePlan, at: WalkerView, fields: Seq<(Seq<char>, ValueView)>) -> bool {
    forall|i: int|
        0 <= i < fields.len() ==> ((#[trigger] fields[i]).1 is Primitive || fields[i].1 is Null) && spec_enter_field(
            plan,
            at,
            fields[i].0,
        ) is Some
}

/// No two fields have the same key in the store.
pub open spec fn keys_apart(plan: StoragePlan, at: WalkerView, fields: Seq<(Seq<char>, ValueView)>) -> bool {
    forall|i: int, j: int|
        0 <= i < j < fields.len() ==> field_key(plan, at, (#[trigger] fields[i]).0) != field_key(
            plan,
            at,
            (#[trigger] fields[j]).0,
        )
}

/// The write for a field that holds a primitive or a null.
pub open spec fn field_write(plan: StoragePlan, at: WalkerView, field: (Seq<char>, ValueView)) -> WriteView {
    match field.1 {
        ValueView::Primitive(p) => WriteView::Put {
            key: field_key(plan, at, field.0),
            value: PayloadView::Primitive(p),
        },
        _ => WriteView::Delete { key: field_key(plan, at, field.0) },
    }
}

/// The writes for flat fields are one write per field, in order.
pub proof fn lemma_flat_writes(plan: StoragePlan, at: WalkerView, fields: Seq<(Seq<char>, ValueView)>, upto: int)
    requires
        flat(plan, at, fields),
        0 <= upto <= fields.len(),
    ensures
        spec_insert_fields(plan, at, fields, upto) matches Ok(writes) && writes.len() == upto && forall|j: int|
            0 <= j < upto ==> #[trigger] writes[j] == field_write(plan, at, fields[j]),
    decreases upto,
{
    if upto > 0 {
        lemma_flat_writes(plan, at, fields, upto - 1);
        let field = fields[upto - 1];
        let before = spec_insert_fields(plan, at, fields, upto - 1)->Ok_0;
        let below = spec_insert(plan, spec_enter_field(plan, at, field.0)->Some_0, field.1)->Ok_0;
        assert(below == seq![field_write(plan, at, field)]);
        let writes = spec_insert_fields(plan, at, fields, upto)->Ok_0;
        assert(writes == before + below);
        assert forall|j: int| 0 <= j < upto implies #[trigger] writes[j] == field_write(plan, at, fields[j]) by {
            if j < upto - 1 {
                assert(writes[j] == before[j]);
            } else {
                assert(writes[j] == below[0]);
            }
        }
    }
}

/// After the writes for flat fields with keys apart, the store holds under
/// the key of each of the first `upto` fields what the field holds.
proof fn lemma_writes_read_back(
    plan: StoragePlan,
    at: WalkerView,
    fields: Seq<(Seq<char>, ValueView)>,
    writes: Seq<WriteView>,
    store: Store,
    upto: int,
    i: int,
)
    requires
        keys_apart(plan, at, fields),
        0 <= i < upto <= fields.len(),
        writes.len() == fields.len(),
        forall|j: int| 0 <= j < fields.len() ==> #[trigger] writes[j] == field_write(plan, at, fields[j]),
    ensures
        match fields[i].1 {
            ValueView::Primitive(p) => apply_writes(store, writes, upto).dom().contains(
                field_key(plan, at, fields[i].0),
            ) && apply_writes(store, writes, upto)[field_key(plan, at, fields[i].0)] == PayloadView::Primitive(p),
            _ => !apply_writes(store, writes, upto).dom().contains(field_key(plan, at, fields[i].0)),
        },
    decreases upto,
{
    let before = apply_writes(store, writes, upto - 1);
    assert(writes[upto - 1] == field_write(plan, at, fields[upto - 1]));
    if i < upto - 1 {
        lemma_writes_read_back(plan, at, fields, writes, store, upto - 1, i);
        assert(field_key(plan, at, fields[i].0) != field_key(plan, at, fields[upto - 1].0));
    }
}

/// What is inserted can be read back. After the writes that store a fresh
/// table of primitives and nulls at a place have been made, in order, the
/// store holds under the key of each field the primitive that the field
/// holds, and nothing under the key of a field that holds a null; where the
/// fields have keys apart, which the fields of a plan with unique keys have.
pub proof fn lemma_insert_then_read_back(
    plan: StoragePlan,
    at: WalkerView,
    ty: Seq<char>,
    fields: Seq<(Seq<char>, ValueView)>,
    store: Store,
    i: int,
)
    requires
        flat(plan, at, fields),
        keys_apart(plan, at, fields),
        0 <= i < fields.len(),
    ensures
        spec_insert(plan, at, ValueView::FreshTable { ty, fields }) matches Ok(writes) && match fields[i].1 {
            ValueView::Primitive(p) => apply_writes(store, writes, writes.len() as int).dom().contains(
                field_key(plan, at, fields[i].0),
            ) && apply_writes(store, writes, writes.len() as int)[field_key(plan, at, fields[i].0)]
                == PayloadView::Primitive(p),
            _ => !apply_writes(store, writes, writes.len() as int).dom().contains(
                field_key(plan, at, fields[i].0),
            ),
        },
{
    lemma_flat_writes(plan, at, fields, fields.len() as int);
    let below = spec_insert_fields(plan, at, fields, fields.len() as int)->Ok_0;
    let head = WriteView::Put { key: walker_key(plan, at), value: PayloadView::Empty };
    let writes = spec_insert(plan, at, ValueView::FreshTable { ty, fields })->Ok_0;
    assert(writes == seq![head] + below);
    let marked = apply_write(store, head);
    lemma_apply_after_head(store, head, below, below.len() as int);
    lemma_writes_read_back(plan, at, fields, below, marked, fields.len() as int, i);
}

/// Making a write and then others is making them all.
proof fn lemma_apply_after_head(store: Store, head: WriteView, rest: Seq<WriteView>, upto: int)
    requires
        0 <= upto <= rest.len(),
    ensures
        apply_writes(store, seq![head] + rest, upto + 1) == apply_writes(apply_write(store, head), rest, upto),
    decreases upto,
{
    let all = seq![head] + rest;
    if upto == 0 {
        assert(all[0] == head);
        assert(apply_writes(store, all, 0) == store);
    } else {
        lemma_apply_after_head(store, head, rest, upto - 1);
        assert(all[upto] == rest[upto - 1]);
    }
}

/// A member inserted into a set can be read back by its primary key. After
/// the writes of `InsertIntoSet` for a fresh table of primitives and nulls
/// have been made, `GetSetElement` by the member's primary key leads to a
/// table under whose field keys the store holds what the member's fields
/// hold; where the fields have keys apart.
pub proof fn lemma_insert_member_read_back(
    schema: CompiledSchema,
    plan: StoragePlan,
    member: ValueView,
    set: ValueView,
    pk: PrimitiveView,
    store: Store,
    i: int,
)
    requires
        set matches ValueView::ResidentSet { member_ty: TypeView::Table(_), .. },
        member is FreshTable,
        spec_primary_key(type_of_value(set), schema) matches Some((t, f)) && member_key(
            member,
            schema.types.entries@[t].value.fields.entries@[f].key@,
        ) == Some(key_component(pk)),
        spec_insert_into_set(schema, plan, seq![member, set]) matches Some(StepView::Write(_)),
        flat(
            plan,
            spec_enter_set_raw(plan, set->ResidentSet_walker, key_component(pk))->Some_0,
            member->FreshTable_fields,
        ),
        keys_apart(
            plan,
            spec_enter_set_raw(plan, set->ResidentSet_walker, key_component(pk))->Some_0,
            member->FreshTable_fields,
        ),
        0 <= i < member->FreshTable_fields.len(),
    ensures
        ({
            let writes = spec_insert_into_set(schema, plan, seq![member, set])->Some_0->Write_0;
            let after = apply_writes(store, writes, writes.len() as int);
            let fields = member->FreshTable_fields;
            spec_get_set_element(plan, seq![ValueView::Primitive(pk), set]) matches Some(
                StepView::Done(Some(ValueView::ResidentTable { walker, .. })),
            ) && match fields[i].1 {
                ValueView::Primitive(p) => after.dom().contains(field_key(plan, walker, fields[i].0)) && after[field_key(
                    plan,
                    walker,
                    fields[i].0,
                )] == PayloadView::Primitive(p),
                _ => !after.dom().contains(field_key(plan, walker, fields[i].0)),
            }
        }),
{
    let fields = member->FreshTable_fields;
    let ty = member->FreshTable_ty;
    let walker = set->ResidentSet_walker;
    let at = spec_enter_set_raw(plan, walker, key_component(pk))->Some_0;
    let writes = spec_insert_into_set(schema, plan, seq![member, set])->Some_0->Write_0;
    let below = spec_insert(plan, at, member)->Ok_0;
    let head = writes[0];
    assert(writes == seq![head] + below);
    lemma_apply_after_head(store, head, below, below.len() as int);
    lemma_insert_then_read_back(plan, at, ty, fields, apply_write(store, head), i);
}

/// The key of a field in the store is the prefix that the table fixes for
/// its children, followed by the key of the field's node in the plan. For a
/// field whose node is a subspace reference that is the key of the node that
/// the reference points to.
pub proof fn lemma_field_key(plan: StoragePlan, at: WalkerView, name: Seq<char>)
    requires
        spec_enter_field(plan, at, name) is Some,
    ensures
        ({
            let node = walker_node(plan, at)->Some_0;
            let c = first_index_from(node.children@, name, 0)->Some_0;
            0 <= c < node.children@.len() && field_key(plan, at, name) == child_prefix(node, at.prefix)
                + node.children@[c].value.key@
        }),
{
    let node = walker_node(plan, at)->Some_0;
    lemma_first_index(node.children@, name, 0);
    let c = first_index_from(node.children@, name, 0)->Some_0;
    assert(node.children.len() == node.children@.len());
    let target = at.route.push(Step::Child(c as usize));
    lemma_descend_push(plan, at, c);
    let child = node.children@[c].value;
    if child.subspace_reference {
        lemma_enclosing(plan, at.export, target, child.key, target.len() - 1);
    }
}

/// Stepping to a child of the walker's node leads to that child.
proof fn lemma_descend_push(plan: StoragePlan, at: WalkerView, c: int)
    requires
        walker_node(plan, at) is Some,
        0 <= c < walker_node(plan, at)->Some_0.children@.len(),
        c <= usize::MAX,
    ensures
        node_at(plan, at.export, at.route.push(Step::Child(c as usize))) == Some(
            walker_node(plan, at)->Some_0.children@[c].value,
        ),
{
    let root = plan.nodes.entries@[at.export as int].value;
    let step = Step::Child(c as usize);
    lemma_descend_step(root, at.route, step, 0);
    let node = walker_node(plan, at)->Some_0;
    let one = seq![step];
    assert(one[0] == step);
    assert(crate::pathwalker::descend(node.children@[c].value, one, 1) == Some(node.children@[c].value));
    assert(crate::pathwalker::descend(node, one, 0) == Some(node.children@[c].value));
}

proof fn lemma_descend_step(node: crate::storage_plan::StorageNode, route: Seq<Step>, step: Step, from: int)
    requires
        0 <= from <= route.len(),
        crate::pathwalker::descend(node, route, from) is Some,
    ensures
        crate::pathwalker::descend(node, route.push(step), from) == crate::pathwalker::descend(
            crate::pathwalker::descend(node, route, from)->Some_0,
            seq![step],
            0,
        ),
    decreases route.len() - from,
{
    let longer = route.push(step);
    if from < route.len() {
        assert(longer[from] == route[from]);
        match route[from] {
            Step::Child(c) => {
                lemma_descend_step(node.children@[c as int].value, route, step, from + 1);
            },
            Step::Member => {
                lemma_descend_step(*node.set->Some_0, route, step, from + 1);
            },
        }
    } else {
        let one = seq![step];
        assert(longer[from] == step);
        assert(one[0] == step);
        match step {
            Step::Child(c) => {
                if c < node.children@.len() {
                    let child = node.children@[c as int].value;
                    assert(crate::pathwalker::descend(child, longer, from + 1) == Some(child));
                    assert(crate::pathwalker::descend(child, one, 1) == Some(child));
                }
            },
            Step::Member => {
                if let Some(member) = node.set {
                    assert(crate::pathwalker::descend(*member, longer, from + 1) == Some(*member));
                    assert(crate::pathwalker::descend(*member, one, 1) == Some(*member));
                }
            },
        }
    }
}

/// The fields of a table have keys apart in the store where they have
/// different names and the children of the table's node have different keys.
pub proof fn lemma_keys_apart(plan: StoragePlan, at: WalkerView, fields: Seq<(Seq<char>, ValueView)>)
    requires
        forall|i: int| 0 <= i < fields.len() ==> spec_enter_field(plan, at, (#[trigger] fields[i]).0) is Some,
        forall|i: int, j: int| 0 <= i < j < fields.len() ==> (#[trigger] fields[i]).0 != (#[trigger] fields[j]).0,
        forall|a: int, b: int|
            0 <= a < b < walker_node(plan, at)->Some_0.children@.len() ==> (#[trigger] walker_node(
                plan,
                at,
            )->Some_0.children@[a]).value.key != (#[trigger] walker_node(plan, at)->Some_0.children@[b]).value.key,
    ensures
        keys_apart(plan, at, fields),
{
    let node = walker_node(plan, at)->Some_0;
    let prefix = child_prefix(node, at.prefix);
    assert forall|i: int, j: int| 0 <= i < j < fields.len() implies field_key(plan, at, (#[trigger] fields[i]).0)
        != field_key(plan, at, (#[trigger] fields[j]).0) by {
        lemma_field_key(plan, at, fields[i].0);
        lemma_field_key(plan, at, fields[j].0);
        lemma_first_index(node.children@, fields[i].0, 0);
        lemma_first_index(node.children@, fields[j].0, 0);
        let a = first_index_from(node.children@, fields[i].0, 0)->Some_0;
        let b = first_index_from(node.children@, fields[j].0, 0)->Some_0;
        assert(a != b);
        let ka = node.children@[a].value.key;
        let kb = node.children@[b].value.key;
        assert(ka != kb) by {
            if a < b {
                assert(node.children@[a].value.key != node.children@[b].value.key);
            } else {
                assert(node.children@[b].value.key != node.children@[a].value.key);
            }
        }
        if prefix + ka@ == prefix + kb@ {
            assert(ka@ =~= kb@) by {
                assert forall|x: int| 0 <= x < ka@.len() implies ka@[x] == kb@[x] by {
                    assert((prefix + ka@)[prefix.len() + x] == ka@[x]);
                    assert((prefix + kb@)[prefix.len() + x] == kb@[x]);
                }
            }
            vstd::array::axiom_array_ext_equal(ka, kb);
        }
    }
}

/// Below a node whose children, and their children, have different keys,
/// every node's children have different keys.
proof fn lemma_descend_apart(node: crate::storage_plan::StorageNode, route: Seq<Step>, from: int)
    requires
        0 <= from,
        crate::storage_plan::apart::siblings_apart(node),
        crate::pathwalker::descend(node, route, from) is Some,
    ensures
        crate::storage_plan::apart::siblings_apart(crate::pathwalker::descend(node, route, from)->Some_0),
    decreases route.len() - from,
{
    if from < route.len() {
        match route[from] {
            Step::Child(c) => {
                let child = node.children@[c as int];
                lemma_descend_apart(child.value, route, from + 1);
            },
            Step::Member => {
                lemma_descend_apart(*node.set->Some_0, route, from + 1);
            },
        }
    }
}

/// In a plan in which the children of every node have different keys, the
/// fields of a table have keys apart in the store where they have different
/// names.
pub proof fn lemma_walker_keys_apart(plan: StoragePlan, at: WalkerView, fields: Seq<(Seq<char>, ValueView)>)
    requires
        at.export < plan.nodes.entries@.len(),
        crate::storage_plan::apart::siblings_apart(plan.nodes.entries@[at.export as int].value),
        forall|i: int| 0 <= i < fields.len() ==> spec_enter_field(plan, at, (#[trigger] fields[i]).0) is Some,
        forall|i: int, j: int| 0 <= i < j < fields.len() ==> (#[trigger] fields[i]).0 != (#[trigger] fields[j]).0,
    ensures
        keys_apart(plan, at, fields),
{
    if fields.len() > 0 {
        let _ = fields[0];
        assert(spec_enter_field(plan, at, fields[0].0) is Some);
        lemma_descend_apart(plan.nodes.entries@[at.export as int].value, at.route, 0);
        lemma_keys_apart(plan, at, fields);
    }
}

/// In a plan that the planner has made and whose nodes hold unique keys,
/// which every plan without an earlier plan does, what is inserted can be
/// read back. After the writes that store a fresh table of primitives and
/// nulls, whose fields have different names, have been made, in order, the
/// store holds under the key of each field the primitive that the field
/// holds, and nothing under the key of a field that holds a null.
pub proof fn lemma_planned_insert_then_read_back(
    schema: CompiledSchema,
    old_plan: &StoragePlan,
    old_schema: &CompiledSchema,
    recursive: Set<Occurrence>,
    plan: StoragePlan,
    at: WalkerView,
    ty: Seq<char>,
    fields: Seq<(Seq<char>, ValueView)>,
    store: Store,
    i: int,
)
    requires
        plan_fits(schema, old_plan, old_schema, recursive, plan),
        plan_owned_keys(plan).no_duplicates(),
        at.export < plan.nodes.entries@.len(),
        flat(plan, at, fields),
        forall|a: int, b: int| 0 <= a < b < fields.len() ==> (#[trigger] fields[a]).0 != (#[trigger] fields[b]).0,
        0 <= i < fields.len(),
    ensures
        spec_insert(plan, at, ValueView::FreshTable { ty, fields }) matches Ok(writes) && match fields[i].1 {
            ValueView::Primitive(p) => apply_writes(store, writes, writes.len() as int).dom().contains(
                field_key(plan, at, fields[i].0),
            ) && apply_writes(store, writes, writes.len() as int)[field_key(plan, at, fields[i].0)]
                == PayloadView::Primitive(p),
            _ => !apply_writes(store, writes, writes.len() as int).dom().contains(
                field_key(plan, at, fields[i].0),
            ),
        },
{
    lemma_plan_siblings_apart(schema, old_plan, old_schema, recursive, plan, at.export as int);
    lemma_walker_keys_apart(plan, at, fields);
    lemma_insert_then_read_back(plan, at, ty, fields, store, i);
}

/// In a plan that the planner has made and whose nodes hold unique keys, a
/// member inserted into a set can be read back by its primary key. After the
/// writes of `InsertIntoSet` for a fresh table of primitives and nulls, whose
/// fields have different names, have been made, `GetSetElement` by the
/// member's primary key leads to a table under whose field keys the store
/// holds what the member's fields hold.
pub proof fn lemma_planned_member_read_back(
    schema: CompiledSchema,
    old_plan: &StoragePlan,
    old_schema: &CompiledSchema,
    recursive: Set<Occurrence>,
    plan: StoragePlan,
    member: ValueView,
    set: ValueView,
    pk: PrimitiveView,
    store: Store,
    i: int,
)
    requires
        plan_fits(schema, old_plan, old_schema, recursive, plan),
        plan_owned_keys(plan).no_duplicates(),
        set matches ValueView::ResidentSet { member_ty: TypeView::Table(_), .. },
        set->ResidentSet_walker.export < plan.nodes.entries@.len(),
        member is FreshTable,
        spec_primary_key(type_of_value(set), schema) matches Some((t, f)) && member_key(
            member,
            schema.types.entries@[t].value.fields.entries@[f].key@,
        ) == Some(key_component(pk)),
        spec_insert_into_set(schema, plan, seq![member, set]) matches Some(StepView::Write(_)),
        flat(
            plan,
            spec_enter_set_raw(plan, set->ResidentSet_walker, key_component(pk))->Some_0,
            member->FreshTable_fields,
        ),
        forall|a: int, b: int|
            0 <= a < b < member->FreshTable_fields.len() ==> (#[trigger] member->FreshTable_fields[a]).0 != (
            #[trigger] member->FreshTable_fields[b]).0,
        0 <= i < member->FreshTable_fields.len(),
    ensures
        ({
            let writes = spec_insert_into_set(schema, plan, seq![member, set])->Some_0->Write_0;
            let after = apply_writes(store, writes, writes.len() as int);
            let fields = member->FreshTable_fields;
            spec_get_set_element(plan, seq![ValueView::Primitive(pk), set]) matches Some(
                StepView::Done(Some(ValueView::ResidentTable { walker, .. })),
            ) && match fields[i].1 {
                ValueView::Primitive(p) => after.dom().contains(field_key(plan, walker, fields[i].0)) && after[field_key(
                    plan,
                    walker,
                    fields[i].0,
                )] == PayloadView::Primitive(p),
                _ => !after.dom().contains(field_key(plan, walker, fields[i].0)),
            }
        }),
{
    let at = spec_enter_set_raw(plan, set->ResidentSet_walker, key_component(pk))->Some_0;
    assert(at.export == set->ResidentSet_walker.export);
    lemma_plan_siblings_apart(schema, old_plan, old_schema, recursive, plan, at.export as int);
    lemma_walker_keys_apart(plan, at, member->FreshTable_fields);
    lemma_insert_member_read_back(schema, plan, member, set, pk, store, i);
}

} // verus!
