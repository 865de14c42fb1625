//! What one node of a graph does: the result of its operation where the
//! operation needs nothing from the store, and otherwise what the executor
//! has to ask of the store.

use vstd::prelude::*;
use crate::bytes::{bump_last, push_all, range_end};
use crate::decimal::{decimal_string, decimal_text};
use crate::pathwalker::{
    spec_enter_field, spec_enter_set_raw, spec_set_fast_scan_prefix, stands, walker_key, PathWalker, WalkerView,
    SET_FAST_SCAN_TAG,
};
use crate::schema::{CompiledSchema, FieldDef, FieldType};
use crate::storage_plan::StoragePlan;
use crate::strmap::{Entry, StrMap};
use crate::value::{key_component, PrimitiveValue, PrimitiveView};
use super::bytecode::{optional_chained, TwGraphNode};
use super::exec::{ExecError, ExecErrorView};
use super::schedule::values_view;
use super::shared::{held_entries, held_items, ValueList, ValueMap};
use super::vm::TwVm;
use super::vm_value::{
    assoc_index, assoc_insert, assoc_remove, duplicate_values, insert_member, insert_value,
    lemma_fresh_set_view,
    lemma_fresh_table_view, lemma_value_lookup,
    member_entries, member_insert, member_key, member_key_of, spec_primary_key, type_of_value,
    value_entries, vm_type_of_field, SetMember, TypeView, ValueView, VmListValue, VmMapValue, VmSetType,
    VmSetValue, VmSetValueKind, VmTableValue, VmTableValueKind, VmType, VmValue,
};
use super::writes::{
    delete_entry_from_set, is_storable, push_write, append_writes, spec_delete_entry, spec_insert, storable,
    walk_and_insert, writes_view, KvWrite, Payload, PayloadView, WriteView,
};

verus! {

/// What a node needs done, or what came of it.
#[derive(Debug)]
pub enum NodeStep {
    /// The node has finished, with this value; an effect leaves none.
    Done(Option<VmValue>),
    /// The node has failed.
    Failed(ExecError),
    /// The node finishes without a value once these writes are made, in
    /// order.
    Write(Vec<KvWrite>),
    /// The node finishes with the primitive stored under `key`, or with the
    /// null of type `missing` where the store has none.
    Fetch { key: Vec<u8>, missing: VmType },
    /// The node finishes with whether the store holds `key`.
    Probe { key: Vec<u8> },
    /// The node finishes with the result of the graph on these parameters.
    Call { graph: u32, params: Vec<VmValue> },
    /// The node finishes with the sum of two doubles, given by their bits.
    FloatAdd { left: u64, right: u64 },
    /// The node finishes with the difference of two doubles, given by their
    /// bits.
    FloatSub { left: u64, right: u64 },
    /// The node finishes with the reduction of the items, in order, by the
    /// graph.
    ReduceList { graph: u32, param: VmValue, init: VmValue, items: Vec<VmValue> },
    /// The node finishes with the reduction, by the graph, of the members of
    /// the set at `walker` whose keys in the scan index lie from `start`,
    /// inclusive, to `end`, exclusive. A member's primary key is its key in
    /// the index without `prefix`.
    ReduceSet {
        graph: u32,
        param: VmValue,
        init: VmValue,
        walker: PathWalker,
        member_ty: String,
        prefix: Vec<u8>,
        start: Vec<u8>,
        end: Vec<u8>,
    },
}

pub enum StepView {
    Done(Option<ValueView>),
    Failed(ExecErrorView),
    Write(Seq<WriteView>),
    Fetch { key: Seq<u8>, missing: TypeView },
    Probe { key: Seq<u8> },
    Call { graph: u32, params: Seq<ValueView> },
    FloatAdd { left: u64, right: u64 },
    FloatSub { left: u64, right: u64 },
    ReduceList { graph: u32, param: ValueView, init: ValueView, items: Seq<ValueView> },
    ReduceSet {
        graph: u32,
        param: ValueView,
        init: ValueView,
        walker: WalkerView,
        member_ty: Seq<char>,
        prefix: Seq<u8>,
        start: Seq<u8>,
        end: Seq<u8>,
    },
}

impl View for NodeStep {
    type V = StepView;

    open spec fn view(&self) -> StepView {
        match self {
            NodeStep::Done(v) => StepView::Done(
                match v {
                    Some(x) => Some(x@),
                    None => None,
                },
            ),
            NodeStep::Failed(e) => StepView::Failed(e@),
            NodeStep::Write(writes) => StepView::Write(writes_view(writes@)),
            NodeStep::Fetch { key, missing } => StepView::Fetch { key: key@, missing: missing@ },
            NodeStep::Probe { key } => StepView::Probe { key: key@ },
            NodeStep::Call { graph, params } => StepView::Call { graph: *graph, params: values_view(params@) },
            NodeStep::FloatAdd { left, right } => StepView::FloatAdd { left: *left, right: *right },
            NodeStep::FloatSub { left, right } => StepView::FloatSub { left: *left, right: *right },
            NodeStep::ReduceList { graph, param, init, items } => StepView::ReduceList {
                graph: *graph,
                param: param@,
                init: init@,
                items: values_view(items@),
            },
            NodeStep::ReduceSet { graph, param, init, walker, member_ty, prefix, start, end } => StepView::ReduceSet {
                graph: *graph,
                param: param@,
                init: init@,
                walker: walker@,
                member_ty: member_ty@,
                prefix: prefix@,
                start: start@,
                end: end@,
            },
        }
    }
}

/// The value under the first pair named `key`.
pub open spec fn assoc_get<T>(s: Seq<(Seq<char>, T)>, key: Seq<char>) -> Option<T> {
    match assoc_index(s, key, 0) {
        Some(i) => Some(s[i].1),
        None => None,
    }
}

/// The fields of the table built from the map `given` for a record type with
/// the fields `fields`, after the first `upto` of these: each field of the
/// record type takes its value from the map, or is the null of the field's
/// type where the map has none.
pub open spec fn table_fields(
    fields: Seq<Entry<FieldDef>>,
    given: Seq<(Seq<char>, ValueView)>,
    upto: int,
) -> Seq<(Seq<char>, ValueView)>
    decreases upto,
{
    if 0 < upto <= fields.len() {
        assoc_insert(
            table_fields(fields, given, upto - 1),
            fields[upto - 1].key@,
            match assoc_get(given, fields[upto - 1].key@) {
                Some(v) => v,
                None => ValueView::Null(vm_type_of_field(fields[upto - 1].value.ty@)),
            },
        )
    } else {
        seq![]
    }
}

/// `BuildTable`: the fresh table of the record type `name` built from a map.
pub open spec fn spec_build_table(schema: CompiledSchema, name: Option<Seq<char>>, params: Seq<ValueView>) -> Option<
    StepView,
> {
    if params.len() < 1 {
        None
    } else {
        match (name, params[0]) {
            (Some(ty), ValueView::MapOf(given)) => match schema.types.index_of(ty) {
                Some(t) => {
                    let fields = schema.types.entries@[t].value.fields.entries@;
                    Some(
                        StepView::Done(
                            Some(
                                ValueView::FreshTable {
                                    ty,
                                    fields: table_fields(fields, given, fields.len() as int),
                                },
                            ),
                        ),
                    )
                },
                None => None,
            },
            _ => None,
        }
    }
}

/// `BuildTable`.
pub fn build_table(schema: &CompiledSchema, name: Option<&String>, params: &Vec<VmValue>) -> (step: Option<NodeStep>)
    ensures
        match step {
            Some(s) => spec_build_table(
                *schema,
                match name {
                    Some(n) => Some(n@),
                    None => None,
                },
                values_view(params@),
            ) == Some(s@),
            None => spec_build_table(
                *schema,
                match name {
                    Some(n) => Some(n@),
                    None => None,
                },
                values_view(params@),
            ) is None,
        },
{
    if params.len() < 1 {
        return None;
    }
    let ty = match name {
        Some(ty) => ty,
        None => {
            return None;
        },
    };
    let given = match &params[0] {
        VmValue::MapOf(m) => &m.elements,
        _ => {
            return None;
        },
    };
    let t = match schema.types.find(ty.as_str()) {
        Some(t) => t,
        None => {
            return None;
        },
    };
    let fields = &schema.types.entries[t].value.fields;
    let mut table: StrMap<VmValue> = StrMap::new();
    assert(value_entries(table.entries@) =~= Seq::<(Seq<char>, ValueView)>::empty());
    let mut i: usize = 0;
    while i < fields.entries.len()
        invariant
            i <= fields.entries@.len(),
            value_entries(table.entries@) == table_fields(fields.entries@, held_entries(*given), i as int),
        decreases fields.entries.len() - i,
    {
        let field = &fields.entries[i];
        let value = match given.get(field.key.as_str()) {
            Some(v) => v.duplicate(),
            None => VmValue::Null(VmType::from_field_type(&field.value.ty)),
        };
        insert_value(&mut table, field.key.clone(), value);
        i += 1;
    }
    let name = ty.clone();
    proof {
        lemma_fresh_table_view(name, table);
    }
    Some(NodeStep::Done(Some(VmValue::Table(VmTableValue { ty: name, kind: VmTableValueKind::Fresh(table) }))))
}

/// The members of the set built from the first `upto` items of a list, by
/// the primary key `primary`: each item is a fresh table and goes under what
/// its primary key field holds, a later item replacing an earlier one of the
/// same key. A table that lies in the store cannot be copied; an item that is
/// no table, or holds no primitive under the primary key, has no meaning.
pub open spec fn set_members(items: Seq<ValueView>, primary: Seq<char>, upto: int) -> Option<
    Result<Seq<(Seq<u8>, ValueView)>, ExecErrorView>,
>
    decreases upto,
{
    if 0 < upto <= items.len() {
        match set_members(items, primary, upto - 1) {
            None => None,
            Some(Err(e)) => Some(Err(e)),
            Some(Ok(members)) => match items[upto - 1] {
                ValueView::FreshTable { .. } => match member_key(items[upto - 1], primary) {
                    Some(key) => Some(Ok(member_insert(members, key, items[upto - 1]))),
                    None => None,
                },
                ValueView::ResidentTable { .. } => Some(
                    Err(ExecErrorView::NotImplemented("table copy is not implemented"@)),
                ),
                _ => None,
            },
        }
    } else {
        Some(Ok(seq![]))
    }
}

/// `BuildSet`: the fresh set built from a list of fresh tables.
pub open spec fn spec_build_set(schema: CompiledSchema, params: Seq<ValueView>) -> Option<StepView> {
    if params.len() < 1 {
        None
    } else {
        match params[0] {
            ValueView::List { member_ty, items } => match spec_primary_key(
                TypeView::SetOf(Box::new(member_ty)),
                schema,
            ) {
                Some((t, f)) => match set_members(
                    items,
                    schema.types.entries@[t].value.fields.entries@[f].key@,
                    items.len() as int,
                ) {
                    Some(Ok(members)) => Some(StepView::Done(Some(ValueView::FreshSet { member_ty, members }))),
                    Some(Err(e)) => Some(StepView::Failed(e)),
                    None => None,
                },
                None => None,
            },
            _ => None,
        }
    }
}

proof fn lemma_set_members_stops(items: Seq<ValueView>, primary: Seq<char>, upto: int, len: int)
    requires
        0 <= upto <= len <= items.len(),
        !(set_members(items, primary, upto) matches Some(Ok(_))),
    ensures
        set_members(items, primary, len) == set_members(items, primary, upto),
    decreases len - upto,
{
    if upto < len {
        lemma_set_members_stops(items, primary, upto, len - 1);
    }
}

/// `BuildSet`.
pub fn build_set(schema: &CompiledSchema, params: &Vec<VmValue>) -> (step: Option<NodeStep>)
    ensures
        match step {
            Some(s) => spec_build_set(*schema, values_view(params@)) == Some(s@),
            None => spec_build_set(*schema, values_view(params@)) is None,
        },
{
    if params.len() < 1 {
        return None;
    }
    let list = match &params[0] {
        VmValue::List(list) => list,
        _ => {
            return None;
        },
    };
    let set_ty = VmType::SetOf(VmSetType { ty: Box::new(list.member_ty.duplicate()) });
    let primary = match set_ty.primary_key(schema) {
        Some((name, _)) => name,
        None => {
            return None;
        },
    };
    let ghost items = held_items(list.node);
    let held = list.node.items();
    let mut members: Vec<SetMember> = Vec::new();
    assert(member_entries(members@) =~= Seq::<(Seq<u8>, ValueView)>::empty());
    assert(values_view(params@)[0] == params@[0]@);
    let n = held.len();
    let mut i: usize = 0;
    while i < n
        invariant
            i <= n,
            n == held@.len(),
            n == items.len(),
            forall|j: int| 0 <= j < held@.len() ==> (#[trigger] held@[j])@ == items[j],
            spec_build_set(*schema, values_view(params@)) == (match set_members(
                items,
                primary@,
                items.len() as int,
            ) {
                Some(Ok(members)) => Some(
                    StepView::Done(Some(ValueView::FreshSet { member_ty: list.member_ty@, members })),
                ),
                Some(Err(e)) => Some(StepView::Failed(e)),
                None => None,
            }),
            set_members(items, primary@, i as int) == Some(
                Ok::<Seq<(Seq<u8>, ValueView)>, ExecErrorView>(member_entries(members@)),
            ),
        decreases n - i,
    {
        let item = &held[i];
        assert(items[i as int] == item@);
        proof {
            if !(set_members(items, primary@, i + 1) matches Some(Ok(_))) {
                lemma_set_members_stops(items, primary@, i + 1, items.len() as int);
            }
        }
        match item {
            VmValue::Table(t) => match &t.kind {
                VmTableValueKind::Fresh(fields) => {
                    proof {
                        lemma_fresh_table_view(t.ty, *fields);
                    }
                    match member_key_of(item, primary) {
                        Some(key) => {
                            insert_member(&mut members, key, item.duplicate());
                        },
                        None => {
                            return None;
                        },
                    }
                },
                VmTableValueKind::Resident(_) => {
                    return Some(
                        NodeStep::Failed(ExecError::NotImplemented("table copy is not implemented".to_string())),
                    );
                },
            },
            _ => {
                return None;
            },
        }
        i += 1;
    }
    let member_ty = list.member_ty.duplicate();
    proof {
        lemma_fresh_set_view(member_ty, members);
    }
    Some(NodeStep::Done(Some(VmValue::SetOf(VmSetValue { member_ty, kind: VmSetValueKind::Fresh(members) }))))
}

/// A field type without the `Optional` layers round it.
pub open spec fn core_type(field: FieldType) -> FieldType
    decreases field,
{
    match field {
        FieldType::Optional(inner) => core_type(*inner),
        _ => field,
    }
}

/// A field type without the `Optional` layers round it.
pub fn peel(field: &FieldType) -> (core: &FieldType)
    ensures
        *core == core_type(*field),
        !(core is Optional),
    decreases field,
{
    match field {
        FieldType::Optional(inner) => peel(inner),
        _ => field,
    }
}

/// Reading the field `key` of a table. A fresh table holds the value. Of a
/// table in the store, a primitive has to be fetched from under the field's
/// key; a set or a record is the set or table in the store at the field's
/// position.
pub open spec fn spec_read_element(
    schema: CompiledSchema,
    plan: StoragePlan,
    table: ValueView,
    key: Seq<char>,
) -> Option<StepView> {
    match table {
        ValueView::FreshTable { fields, .. } => match assoc_get(fields, key) {
            Some(v) => Some(StepView::Done(Some(v))),
            None => None,
        },
        ValueView::ResidentTable { ty, walker } => match schema.types.index_of(ty) {
            None => None,
            Some(t) => match schema.types.entries@[t].value.fields.index_of(key) {
                None => None,
                Some(f) => match spec_enter_field(plan, walker, key) {
                    None => None,
                    Some(at) => match core_type(schema.types.entries@[t].value.fields.entries@[f].value.ty) {
                        FieldType::Primitive(p) => Some(
                            StepView::Fetch { key: walker_key(plan, at), missing: TypeView::Primitive(p) },
                        ),
                        FieldType::SetOf(member) => Some(
                            StepView::Done(
                                Some(ValueView::ResidentSet { member_ty: vm_type_of_field(member@), walker: at }),
                            ),
                        ),
                        FieldType::Named(name) => Some(
                            StepView::Done(Some(ValueView::ResidentTable { ty: name@, walker: at })),
                        ),
                        FieldType::Optional(_) => None,
                    },
                },
            },
        },
        _ => None,
    }
}

/// Reads the field `key` of a table.
pub fn read_table_element(schema: &CompiledSchema, plan: &StoragePlan, table: &VmValue, key: &str) -> (step: Option<
    NodeStep,
>)
    ensures
        match step {
            Some(s) => spec_read_element(*schema, *plan, table@, key@) == Some(s@),
            None => spec_read_element(*schema, *plan, table@, key@) is None,
        },
{
    let t = match table {
        VmValue::Table(t) => t,
        _ => {
            return None;
        },
    };
    match &t.kind {
        VmTableValueKind::Fresh(fields) => {
            proof {
                lemma_fresh_table_view(t.ty, *fields);
                lemma_value_lookup(fields.entries@, key@);
            }
            match fields.get(key) {
                Some(v) => Some(NodeStep::Done(Some(v.duplicate()))),
                None => None,
            }
        },
        VmTableValueKind::Resident(walker) => {
            let record = match schema.types.get(t.ty.as_str()) {
                Some(record) => record,
                None => {
                    return None;
                },
            };
            let field = match record.fields.get(key) {
                Some(field) => field,
                None => {
                    return None;
                },
            };
            let at = match walker.enter_field(plan, key) {
                Some(at) => at,
                None => {
                    return None;
                },
            };
            match peel(&field.ty) {
                FieldType::Primitive(p) => Some(
                    NodeStep::Fetch { key: at.generate_key(plan), missing: VmType::Primitive(*p) },
                ),
                FieldType::SetOf(member) => Some(
                    NodeStep::Done(
                        Some(
                            VmValue::SetOf(
                                VmSetValue {
                                    member_ty: VmType::from_field_type(member),
                                    kind: VmSetValueKind::Resident(at),
                                },
                            ),
                        ),
                    ),
                ),
                FieldType::Named(name) => Some(
                    NodeStep::Done(
                        Some(VmValue::Table(VmTableValue { ty: name.clone(), kind: VmTableValueKind::Resident(at) })),
                    ),
                ),
                FieldType::Optional(_) => None,
            }
        },
    }
}

/// What the store holds under a fetched key, as the value of the node: the
/// primitive, or the null of the missing type.
pub fn finish_fetch(found: Option<PrimitiveValue>, missing: VmType) -> (value: VmValue)
    ensures
        value@ == (match found {
            Some(p) => ValueView::Primitive(p@),
            None => ValueView::Null(missing@),
        }),
{
    match found {
        Some(p) => VmValue::Primitive(p),
        None => VmValue::Null(missing),
    }
}

/// `GetField`: the field of a map, or of a table.
pub open spec fn spec_get_field(
    schema: CompiledSchema,
    plan: StoragePlan,
    key: Option<Seq<char>>,
    params: Seq<ValueView>,
) -> Option<StepView> {
    if params.len() < 1 {
        None
    } else {
        match (key, params[0]) {
            (Some(k), ValueView::MapOf(entries)) => match assoc_get(entries, k) {
                Some(v) => Some(StepView::Done(Some(v))),
                None => None,
            },
            (Some(k), _) => spec_read_element(schema, plan, params[0], k),
            _ => None,
        }
    }
}

/// `GetSetElement`: the member of a set in the store with the given primary
/// key.
pub open spec fn spec_get_set_element(plan: StoragePlan, params: Seq<ValueView>) -> Option<StepView> {
    if params.len() < 2 {
        None
    } else {
        match (params[0], params[1]) {
            (ValueView::Primitive(pk), ValueView::ResidentSet { member_ty: TypeView::Table(name), walker }) => match spec_enter_set_raw(
                plan,
                walker,
                key_component(pk),
            ) {
                Some(at) => Some(StepView::Done(Some(ValueView::ResidentTable { ty: name, walker: at }))),
                None => None,
            },
            (ValueView::Primitive(_), ValueView::FreshSet { member_ty: TypeView::Table(_), .. }) => Some(
                StepView::Failed(ExecErrorView::FreshTableOrSetNotSupported),
            ),
            _ => None,
        }
    }
}

/// `InsertIntoSet`: the writes that list and store a fresh table as a member
/// of a set in the store. A fresh set takes no member; a table that lies in
/// the store cannot be copied into a set in the store.
pub open spec fn spec_insert_into_set(schema: CompiledSchema, plan: StoragePlan, params: Seq<ValueView>) -> Option<
    StepView,
> {
    if params.len() < 2 {
        None
    } else {
        match spec_primary_key(type_of_value(params[1]), schema) {
            None => None,
            Some((t, f)) => {
                let primary = schema.types.entries@[t].value.fields.entries@[f].key@;
                match params[0] {
                    ValueView::ResidentTable { .. } => match params[1] {
                        ValueView::FreshSet { .. } => Some(
                            StepView::Failed(ExecErrorView::FreshTableOrSetNotSupported),
                        ),
                        ValueView::ResidentSet { .. } => Some(
                            StepView::Failed(ExecErrorView::NotImplemented("table copy is not implemented"@)),
                        ),
                        _ => None,
                    },
                    ValueView::FreshTable { .. } => match member_key(params[0], primary) {
                        None => None,
                        Some(key) => match params[1] {
                            ValueView::FreshSet { .. } => Some(
                                StepView::Failed(ExecErrorView::FreshTableOrSetNotSupported),
                            ),
                            ValueView::ResidentSet { walker, .. } => match (
                                spec_set_fast_scan_prefix(plan, walker),
                                spec_enter_set_raw(plan, walker, key),
                            ) {
                                (Some(index), Some(at)) => if storable(params[0]) {
                                    match spec_insert(plan, at, params[0]) {
                                        Ok(below) => Some(
                                            StepView::Write(
                                                seq![WriteView::Put { key: index + key, value: PayloadView::Empty }]
                                                    + below,
                                            ),
                                        ),
                                        Err(e) => Some(StepView::Failed(e)),
                                    }
                                } else {
                                    None
                                },
                                _ => None,
                            },
                            _ => None,
                        },
                    },
                    _ => None,
                }
            },
        }
    }
}

/// `InsertIntoTable`: the writes that store a value as the field `key` of a
/// table in the store.
pub open spec fn spec_insert_into_table(plan: StoragePlan, key: Option<Seq<char>>, params: Seq<ValueView>) -> Option<
    StepView,
> {
    if params.len() < 2 {
        None
    } else {
        match (key, params[1]) {
            (Some(_), ValueView::FreshTable { .. }) => Some(
                StepView::Failed(ExecErrorView::FreshTableOrSetNotSupported),
            ),
            (Some(k), ValueView::ResidentTable { walker, .. }) => match spec_enter_field(plan, walker, k) {
                Some(at) => if storable(params[0]) {
                    match spec_insert(plan, at, params[0]) {
                        Ok(writes) => Some(StepView::Write(writes)),
                        Err(e) => Some(StepView::Failed(e)),
                    }
                } else {
                    None
                },
                None => None,
            },
            _ => None,
        }
    }
}

/// `DeleteFromTable`: the write that deletes the field `key` of a table in
/// the store.
pub open spec fn spec_delete_from_table(plan: StoragePlan, key: Option<Seq<char>>, params: Seq<ValueView>) -> Option<
    StepView,
> {
    if params.len() < 1 {
        None
    } else {
        match (key, params[0]) {
            (Some(_), ValueView::FreshTable { .. }) => Some(
                StepView::Failed(ExecErrorView::FreshTableOrSetNotSupported),
            ),
            (Some(k), ValueView::ResidentTable { walker, .. }) => match spec_enter_field(plan, walker, k) {
                Some(at) => Some(StepView::Write(seq![WriteView::Delete { key: walker_key(plan, at) }])),
                None => None,
            },
            _ => None,
        }
    }
}

/// `DeleteFromSet`: the writes that delete a member from a set in the store.
pub open spec fn spec_delete_from_set(plan: StoragePlan, params: Seq<ValueView>) -> Option<StepView> {
    if params.len() < 2 {
        None
    } else {
        match (params[0], params[1]) {
            (ValueView::Primitive(pk), ValueView::ResidentSet { walker, .. }) => match spec_delete_entry(
                plan,
                walker,
                key_component(pk),
            ) {
                Some(writes) => Some(StepView::Write(writes)),
                None => None,
            },
            (ValueView::Primitive(_), ValueView::FreshSet { .. }) => Some(
                StepView::Failed(ExecErrorView::FreshTableOrSetNotSupported),
            ),
            _ => None,
        }
    }
}

/// `IsPresent`: a fresh table or set is present; of one in the store, the
/// store has to be asked for its key.
pub open spec fn spec_is_present(plan: StoragePlan, params: Seq<ValueView>) -> Option<StepView> {
    if params.len() < 1 {
        None
    } else {
        match params[0] {
            ValueView::FreshTable { .. } => Some(StepView::Done(Some(ValueView::Bool(true)))),
            ValueView::FreshSet { .. } => Some(StepView::Done(Some(ValueView::Bool(true)))),
            ValueView::ResidentTable { walker, .. } => if stands(plan, walker) {
                Some(StepView::Probe { key: walker_key(plan, walker) })
            } else {
                None
            },
            ValueView::ResidentSet { walker, .. } => if stands(plan, walker) {
                Some(StepView::Probe { key: walker_key(plan, walker) })
            } else {
                None
            },
            _ => None,
        }
    }
}

/// `GetField`.
pub fn get_field(schema: &CompiledSchema, plan: &StoragePlan, key: Option<&String>, params: &Vec<VmValue>) -> (step: Option<
    NodeStep,
>)
    ensures
        match step {
            Some(s) => spec_get_field(
                *schema,
                *plan,
                match key {
                    Some(k) => Some(k@),
                    None => None,
                },
                values_view(params@),
            ) == Some(s@),
            None => spec_get_field(
                *schema,
                *plan,
                match key {
                    Some(k) => Some(k@),
                    None => None,
                },
                values_view(params@),
            ) is None,
        },
{
    if params.len() < 1 {
        return None;
    }
    assert(values_view(params@)[0] == params@[0]@);
    let key = match key {
        Some(key) => key,
        None => {
            return None;
        },
    };
    match &params[0] {
        VmValue::MapOf(m) => {
            match m.elements.get(key.as_str()) {
                Some(v) => Some(NodeStep::Done(Some(v.duplicate()))),
                None => None,
            }
        },
        _ => read_table_element(schema, plan, &params[0], key.as_str()),
    }
}

/// `GetSetElement`.
pub fn get_set_element(plan: &StoragePlan, params: &Vec<VmValue>) -> (step: Option<NodeStep>)
    ensures
        match step {
            Some(s) => spec_get_set_element(*plan, values_view(params@)) == Some(s@),
            None => spec_get_set_element(*plan, values_view(params@)) is None,
        },
{
    if params.len() < 2 {
        return None;
    }
    assert(values_view(params@)[0] == params@[0]@);
    assert(values_view(params@)[1] == params@[1]@);
    let pk = match &params[0] {
        VmValue::Primitive(pk) => pk,
        _ => {
            return None;
        },
    };
    let set = match &params[1] {
        VmValue::SetOf(set) => set,
        _ => {
            return None;
        },
    };
    let name = match &set.member_ty {
        VmType::Table(t) => &t.name,
        _ => {
            return None;
        },
    };
    match &set.kind {
        VmSetValueKind::Resident(walker) => match walker.enter_set(plan, pk) {
            Some(at) => Some(
                NodeStep::Done(
                    Some(VmValue::Table(VmTableValue { ty: name.clone(), kind: VmTableValueKind::Resident(at) })),
                ),
            ),
            None => None,
        },
        VmSetValueKind::Fresh(members) => {
            proof {
                lemma_fresh_set_view(set.member_ty, *members);
            }
            Some(NodeStep::Failed(ExecError::FreshTableOrSetNotSupported))
        },
    }
}

/// `InsertIntoSet`.
pub fn insert_into_set(schema: &CompiledSchema, plan: &StoragePlan, params: &Vec<VmValue>) -> (step: Option<NodeStep>)
    ensures
        match step {
            Some(s) => spec_insert_into_set(*schema, *plan, values_view(params@)) == Some(s@),
            None => spec_insert_into_set(*schema, *plan, values_view(params@)) is None,
        },
{
    if params.len() < 2 {
        return None;
    }
    assert(values_view(params@)[0] == params@[0]@);
    assert(values_view(params@)[1] == params@[1]@);
    let set_ty = VmType::of_value(&params[1]);
    let primary = match set_ty.primary_key(schema) {
        Some((name, _)) => name,
        None => {
            return None;
        },
    };
    let value = &params[0];
    let key = match value {
        VmValue::Table(t) => match &t.kind {
            VmTableValueKind::Resident(_) => {
                return match &params[1] {
                    VmValue::SetOf(set) => match &set.kind {
                        VmSetValueKind::Fresh(members) => {
                            proof {
                                lemma_fresh_set_view(set.member_ty, *members);
                            }
                            Some(NodeStep::Failed(ExecError::FreshTableOrSetNotSupported))
                        },
                        VmSetValueKind::Resident(_) => Some(
                            NodeStep::Failed(
                                ExecError::NotImplemented("table copy is not implemented".to_string()),
                            ),
                        ),
                    },
                    _ => None,
                };
            },
            VmTableValueKind::Fresh(fields) => {
                proof {
                    lemma_fresh_table_view(t.ty, *fields);
                }
                match member_key_of(value, primary) {
                    Some(key) => key,
                    None => {
                        return None;
                    },
                }
            },
        },
        _ => {
            return None;
        },
    };
    let set = match &params[1] {
        VmValue::SetOf(set) => set,
        _ => {
            return None;
        },
    };
    match &set.kind {
        VmSetValueKind::Fresh(members) => {
            proof {
                lemma_fresh_set_view(set.member_ty, *members);
            }
            Some(NodeStep::Failed(ExecError::FreshTableOrSetNotSupported))
        },
        VmSetValueKind::Resident(walker) => {
            let mut index_key = match walker.set_fast_scan_prefix(plan) {
                Some(index) => index,
                None => {
                    return None;
                },
            };
            push_all(&mut index_key, key.as_slice());
            let at = match walker.enter_set_raw(plan, key.as_slice()) {
                Some(at) => at,
                None => {
                    return None;
                },
            };
            if !is_storable(value) {
                return None;
            }
            match walk_and_insert(plan, &at, value) {
                Ok(below) => {
                    let mut writes: Vec<KvWrite> = Vec::new();
                    assert(writes_view(writes@) =~= Seq::<WriteView>::empty());
                    push_write(&mut writes, KvWrite::Put { key: index_key, value: Payload::Empty });
                    append_writes(&mut writes, below);
                    assert(writes_view(writes@) =~= seq![
                        WriteView::Put { key: index_key@, value: PayloadView::Empty },
                    ] + writes_view(below@));
                    Some(NodeStep::Write(writes))
                },
                Err(e) => Some(NodeStep::Failed(e)),
            }
        },
    }
}

/// `InsertIntoTable`.
pub fn insert_into_table(plan: &StoragePlan, key: Option<&String>, params: &Vec<VmValue>) -> (step: Option<NodeStep>)
    ensures
        match step {
            Some(s) => spec_insert_into_table(
                *plan,
                match key {
                    Some(k) => Some(k@),
                    None => None,
                },
                values_view(params@),
            ) == Some(s@),
            None => spec_insert_into_table(
                *plan,
                match key {
                    Some(k) => Some(k@),
                    None => None,
                },
                values_view(params@),
            ) is None,
        },
{
    if params.len() < 2 {
        return None;
    }
    assert(values_view(params@)[0] == params@[0]@);
    assert(values_view(params@)[1] == params@[1]@);
    let key = match key {
        Some(key) => key,
        None => {
            return None;
        },
    };
    let table = match &params[1] {
        VmValue::Table(table) => table,
        _ => {
            return None;
        },
    };
    match &table.kind {
        VmTableValueKind::Fresh(fields) => {
            proof {
                lemma_fresh_table_view(table.ty, *fields);
            }
            Some(NodeStep::Failed(ExecError::FreshTableOrSetNotSupported))
        },
        VmTableValueKind::Resident(walker) => {
            let at = match walker.enter_field(plan, key.as_str()) {
                Some(at) => at,
                None => {
                    return None;
                },
            };
            if !is_storable(&params[0]) {
                return None;
            }
            match walk_and_insert(plan, &at, &params[0]) {
                Ok(writes) => Some(NodeStep::Write(writes)),
                Err(e) => Some(NodeStep::Failed(e)),
            }
        },
    }
}

/// `DeleteFromTable`.
pub fn delete_from_table(plan: &StoragePlan, key: Option<&String>, params: &Vec<VmValue>) -> (step: Option<NodeStep>)
    ensures
        match step {
            Some(s) => spec_delete_from_table(
                *plan,
                match key {
                    Some(k) => Some(k@),
                    None => None,
                },
                values_view(params@),
            ) == Some(s@),
            None => spec_delete_from_table(
                *plan,
                match key {
                    Some(k) => Some(k@),
                    None => None,
                },
                values_view(params@),
            ) is None,
        },
{
    if params.len() < 1 {
        return None;
    }
    assert(values_view(params@)[0] == params@[0]@);
    let key = match key {
        Some(key) => key,
        None => {
            return None;
        },
    };
    let table = match &params[0] {
        VmValue::Table(table) => table,
        _ => {
            return None;
        },
    };
    match &table.kind {
        VmTableValueKind::Fresh(fields) => {
            proof {
                lemma_fresh_table_view(table.ty, *fields);
            }
            Some(NodeStep::Failed(ExecError::FreshTableOrSetNotSupported))
        },
        VmTableValueKind::Resident(walker) => {
            let at = match walker.enter_field(plan, key.as_str()) {
                Some(at) => at,
                None => {
                    return None;
                },
            };
            let mut writes: Vec<KvWrite> = Vec::new();
            assert(writes_view(writes@) =~= Seq::<WriteView>::empty());
            push_write(&mut writes, KvWrite::Delete { key: at.generate_key(plan) });
            assert(writes_view(writes@) =~= seq![WriteView::Delete { key: walker_key(*plan, at@) }]);
            Some(NodeStep::Write(writes))
        },
    }
}

/// `DeleteFromSet`.
pub fn delete_from_set(plan: &StoragePlan, params: &Vec<VmValue>) -> (step: Option<NodeStep>)
    ensures
        match step {
            Some(s) => spec_delete_from_set(*plan, values_view(params@)) == Some(s@),
            None => spec_delete_from_set(*plan, values_view(params@)) is None,
        },
{
    if params.len() < 2 {
        return None;
    }
    assert(values_view(params@)[0] == params@[0]@);
    assert(values_view(params@)[1] == params@[1]@);
    let pk = match &params[0] {
        VmValue::Primitive(pk) => pk,
        _ => {
            return None;
        },
    };
    let set = match &params[1] {
        VmValue::SetOf(set) => set,
        _ => {
            return None;
        },
    };
    match &set.kind {
        VmSetValueKind::Fresh(members) => {
            proof {
                lemma_fresh_set_view(set.member_ty, *members);
            }
            Some(NodeStep::Failed(ExecError::FreshTableOrSetNotSupported))
        },
        VmSetValueKind::Resident(walker) => match delete_entry_from_set(plan, walker, pk) {
            Some(writes) => Some(NodeStep::Write(writes)),
            None => None,
        },
    }
}

/// `IsPresent`.
pub fn is_present(plan: &StoragePlan, params: &Vec<VmValue>) -> (step: Option<NodeStep>)
    ensures
        match step {
            Some(s) => spec_is_present(*plan, values_view(params@)) == Some(s@),
            None => spec_is_present(*plan, values_view(params@)) is None,
        },
{
    if params.len() < 1 {
        return None;
    }
    assert(values_view(params@)[0] == params@[0]@);
    let walker = match &params[0] {
        VmValue::SetOf(set) => match &set.kind {
            VmSetValueKind::Fresh(members) => {
                proof {
                    lemma_fresh_set_view(set.member_ty, *members);
                }
                return Some(NodeStep::Done(Some(VmValue::Bool(true))));
            },
            VmSetValueKind::Resident(walker) => walker,
        },
        VmValue::Table(table) => match &table.kind {
            VmTableValueKind::Fresh(fields) => {
                proof {
                    lemma_fresh_table_view(table.ty, *fields);
                }
                return Some(NodeStep::Done(Some(VmValue::Bool(true))));
            },
            VmTableValueKind::Resident(walker) => walker,
        },
        _ => {
            return None;
        },
    };
    if !walker.stands_on(plan) {
        return None;
    }
    Some(NodeStep::Probe { key: walker.generate_key(plan) })
}

/// `InsertIntoMap`: the map with the value stored under `key`. A null in
/// place of the map stays null.
pub open spec fn spec_insert_into_map(key: Option<Seq<char>>, params: Seq<ValueView>) -> Option<StepView> {
    if params.len() < 2 {
        None
    } else {
        match (key, params[1]) {
            (Some(k), ValueView::MapOf(entries)) => Some(
                StepView::Done(Some(ValueView::MapOf(assoc_insert(entries, k, params[0])))),
            ),
            (_, ValueView::Null(_)) => Some(StepView::Done(Some(params[1]))),
            _ => None,
        }
    }
}

/// `DeleteFromMap`: the map without `key`. A null in place of the map stays
/// null.
pub open spec fn spec_delete_from_map(key: Option<Seq<char>>, params: Seq<ValueView>) -> Option<StepView> {
    if params.len() < 1 {
        None
    } else {
        match (key, params[0]) {
            (Some(k), ValueView::MapOf(entries)) => Some(
                StepView::Done(Some(ValueView::MapOf(assoc_remove(entries, k)))),
            ),
            (_, ValueView::Null(_)) => Some(StepView::Done(Some(params[0]))),
            _ => None,
        }
    }
}

/// `PrependToList`, `PopFromList` and `ListHead`. Popping an empty list gives
/// the null of the list's type, its head the null of the member type.
pub open spec fn spec_list_op(n: TwGraphNode, params: Seq<ValueView>) -> Option<StepView> {
    match n {
        TwGraphNode::PrependToList => if params.len() < 2 {
            None
        } else {
            match params[1] {
                ValueView::List { member_ty, items } => Some(
                    StepView::Done(Some(ValueView::List { member_ty, items: seq![params[0]] + items })),
                ),
                _ => None,
            }
        },
        TwGraphNode::PopFromList => if params.len() < 1 {
            None
        } else {
            match params[0] {
                ValueView::List { member_ty, items } => if items.len() > 0 {
                    Some(StepView::Done(Some(ValueView::List { member_ty, items: items.subrange(1, items.len() as int) })))
                } else {
                    Some(StepView::Done(Some(ValueView::Null(TypeView::List(Box::new(member_ty))))))
                },
                _ => None,
            }
        },
        TwGraphNode::ListHead => if params.len() < 1 {
            None
        } else {
            match params[0] {
                ValueView::List { member_ty, items } => if items.len() > 0 {
                    Some(StepView::Done(Some(items[0])))
                } else {
                    Some(StepView::Done(Some(ValueView::Null(member_ty))))
                },
                _ => None,
            }
        },
        _ => None,
    }
}

/// `Add` and `Sub`: whole numbers wrap round; text is joined by `Add`; the
/// sum or difference of doubles is left to the executor.
pub open spec fn spec_arithmetic(n: TwGraphNode, params: Seq<ValueView>) -> Option<StepView> {
    if params.len() < 2 {
        None
    } else {
        match (n, params[0], params[1]) {
            (
                TwGraphNode::Add,
                ValueView::Primitive(PrimitiveView::Int64(l)),
                ValueView::Primitive(PrimitiveView::Int64(r)),
            ) => Some(StepView::Done(Some(ValueView::Primitive(PrimitiveView::Int64(l.wrapping_add(r)))))),
            (
                TwGraphNode::Add,
                ValueView::Primitive(PrimitiveView::Double(l)),
                ValueView::Primitive(PrimitiveView::Double(r)),
            ) => Some(StepView::FloatAdd { left: l, right: r }),
            (
                TwGraphNode::Add,
                ValueView::Primitive(PrimitiveView::String(l)),
                ValueView::Primitive(PrimitiveView::String(r)),
            ) => Some(StepView::Done(Some(ValueView::Primitive(PrimitiveView::String(l + r))))),
            (
                TwGraphNode::Sub,
                ValueView::Primitive(PrimitiveView::Int64(l)),
                ValueView::Primitive(PrimitiveView::Int64(r)),
            ) => Some(StepView::Done(Some(ValueView::Primitive(PrimitiveView::Int64(l.wrapping_sub(r)))))),
            (
                TwGraphNode::Sub,
                ValueView::Primitive(PrimitiveView::Double(l)),
                ValueView::Primitive(PrimitiveView::Double(r)),
            ) => Some(StepView::FloatSub { left: l, right: r }),
            _ => None,
        }
    }
}

/// `Eq`, `Ne`, `And`, `Or`, `Not`, `IsNull`, `UnwrapOptional`, `Nop` and
/// `Throw`.
pub open spec fn spec_logic(n: TwGraphNode, params: Seq<ValueView>) -> Option<StepView> {
    match n {
        TwGraphNode::Eq => if params.len() < 2 {
            None
        } else {
            Some(StepView::Done(Some(ValueView::Bool(params[0] == params[1]))))
        },
        TwGraphNode::Ne => if params.len() < 2 {
            None
        } else {
            Some(StepView::Done(Some(ValueView::Bool(params[0] != params[1]))))
        },
        TwGraphNode::And => if params.len() < 2 {
            None
        } else {
            match (params[0], params[1]) {
                (ValueView::Bool(a), ValueView::Bool(b)) => Some(StepView::Done(Some(ValueView::Bool(a && b)))),
                _ => None,
            }
        },
        TwGraphNode::Or => if params.len() < 2 {
            None
        } else {
            match (params[0], params[1]) {
                (ValueView::Bool(a), ValueView::Bool(b)) => Some(StepView::Done(Some(ValueView::Bool(a || b)))),
                _ => None,
            }
        },
        TwGraphNode::Not => if params.len() < 1 {
            None
        } else {
            match params[0] {
                ValueView::Bool(a) => Some(StepView::Done(Some(ValueView::Bool(!a)))),
                _ => None,
            }
        },
        TwGraphNode::IsNull => if params.len() < 1 {
            None
        } else {
            Some(StepView::Done(Some(ValueView::Bool(params[0] is Null))))
        },
        TwGraphNode::UnwrapOptional => if params.len() < 1 {
            None
        } else if params[0] is Null {
            Some(StepView::Failed(ExecErrorView::NullUnwrapped))
        } else {
            Some(StepView::Done(Some(params[0])))
        },
        TwGraphNode::Nop => if params.len() < 1 {
            None
        } else {
            Some(StepView::Done(Some(params[0])))
        },
        TwGraphNode::Throw => if params.len() < 1 {
            None
        } else {
            match params[0] {
                ValueView::Null(_) => Some(StepView::Failed(ExecErrorView::ScriptThrownNull)),
                ValueView::Primitive(PrimitiveView::String(message)) => Some(
                    StepView::Failed(ExecErrorView::ScriptThrownError(message)),
                ),
                _ => None,
            }
        },
        _ => None,
    }
}

/// The range of the scan index that a reduction scans: the whole index,
/// which is the range of the keys that start with `prefix`; or, with bounds,
/// from the lower bound's primary key, where it is not null, to the upper
/// bound's, where it is not null.
pub open spec fn scan_range(prefix: Seq<u8>, has_range: bool, params: Seq<ValueView>) -> Option<
    (Seq<u8>, Seq<u8>),
> {
    if !has_range {
        Some((prefix, bump_last(prefix)))
    } else if params.len() < 5 {
        None
    } else {
        let start = match params[3] {
            ValueView::Null(_) => Some(prefix),
            ValueView::Primitive(p) => Some(prefix + key_component(p)),
            _ => None,
        };
        let end = match params[4] {
            ValueView::Null(_) => Some(bump_last(prefix)),
            ValueView::Primitive(p) => Some(prefix + key_component(p)),
            _ => None,
        };
        match (start, end) {
            (Some(s), Some(e)) => Some((s, e)),
            _ => None,
        }
    }
}

/// `Reduce`: a null in place of the list or set gives null; a list is
/// reduced item by item; of a set in the store, the members in the range are
/// reduced.
pub open spec fn spec_reduce(
    schema: CompiledSchema,
    plan: StoragePlan,
    graph: u32,
    has_range: bool,
    params: Seq<ValueView>,
    type_info: Option<TypeView>,
) -> Option<StepView> {
    if params.len() < 3 {
        None
    } else {
        match params[2] {
            ValueView::Null(_) => Some(null_of(type_info)),
            ValueView::List { items, .. } => Some(
                StepView::ReduceList { graph, param: params[0], init: params[1], items },
            ),
            ValueView::FreshSet { .. } => Some(StepView::Failed(ExecErrorView::FreshTableOrSetNotSupported)),
            ValueView::ResidentSet { member_ty: TypeView::Table(name), walker } => match (
                schema.types.index_of(name),
                spec_set_fast_scan_prefix(plan, walker),
            ) {
                (Some(t), Some(prefix)) => match scan_range(prefix, has_range, params) {
                    Some((start, end)) => Some(
                        StepView::ReduceSet {
                            graph,
                            param: params[0],
                            init: params[1],
                            walker,
                            member_ty: schema.types.entries@[t].value.name@,
                            prefix,
                            start,
                            end,
                        },
                    ),
                    None => None,
                },
                _ => None,
            },
            _ => None,
        }
    }
}

/// Whether one of the parameters is a null.
pub open spec fn has_null(params: Seq<ValueView>) -> bool {
    exists|i: int| 0 <= i < params.len() && (#[trigger] params[i]) is Null
}

/// The null of the node's type, as the node's result; no value where the
/// node has no type.
pub open spec fn null_of(type_info: Option<TypeView>) -> StepView {
    StepView::Done(
        match type_info {
            Some(t) => Some(ValueView::Null(t)),
            None => None,
        },
    )
}

/// The identifier at position `i` of the script.
pub open spec fn ident_text(vm: TwVm, i: u32) -> Option<Seq<char>> {
    if i < vm.script.idents@.len() {
        Some(vm.script.idents@[i as int]@)
    } else {
        None
    }
}

/// What the node `n` does on the parameters `params`, in a graph that was
/// called with `graph_params`; `type_info` is the type of the node's result.
/// Nothing where the parameters do not fit the operation, which a script that
/// passed the type check does not let happen.
///
/// Where the operation is optional-chained and a parameter is null, the
/// result is the null of the node's type and the operation is not run.
pub open spec fn spec_step(
    vm: TwVm,
    n: TwGraphNode,
    params: Seq<ValueView>,
    graph_params: Seq<ValueView>,
    type_info: Option<TypeView>,
) -> Option<StepView> {
    if optional_chained(n) && has_null(params) {
        Some(null_of(type_info))
    } else {
        match n {
            TwGraphNode::LoadParam(i) => if i < graph_params.len() {
                Some(StepView::Done(Some(graph_params[i as int])))
            } else {
                None
            },
            TwGraphNode::LoadConst(i) => if i < vm.consts@.len() {
                Some(StepView::Done(Some(vm.consts@[i as int]@)))
            } else {
                None
            },
            TwGraphNode::CreateMap => Some(StepView::Done(Some(ValueView::MapOf(seq![])))),
            TwGraphNode::CreateList(ty) => if ty < vm.types@.len() {
                Some(StepView::Done(Some(ValueView::List { member_ty: vm.types@[ty as int]@, items: seq![] })))
            } else {
                None
            },
            TwGraphNode::BuildTable(id) => spec_build_table(*vm.schema, ident_text(vm, id), params),
            TwGraphNode::BuildSet => spec_build_set(*vm.schema, params),
            TwGraphNode::GetField(id) => spec_get_field(*vm.schema, *vm.storage_plan, ident_text(vm, id), params),
            TwGraphNode::GetSetElement => spec_get_set_element(*vm.storage_plan, params),
            TwGraphNode::FilterSet(graph) => Some(
                StepView::Failed(
                    ExecErrorView::NotImplemented("FilterSet("@ + decimal_text(graph as nat) + ")"@),
                ),
            ),
            TwGraphNode::InsertIntoMap(id) => spec_insert_into_map(ident_text(vm, id), params),
            TwGraphNode::DeleteFromMap(id) => spec_delete_from_map(ident_text(vm, id), params),
            TwGraphNode::InsertIntoTable(id) => spec_insert_into_table(*vm.storage_plan, ident_text(vm, id), params),
            TwGraphNode::InsertIntoSet => spec_insert_into_set(*vm.schema, *vm.storage_plan, params),
            TwGraphNode::DeleteFromTable(id) => spec_delete_from_table(*vm.storage_plan, ident_text(vm, id), params),
            TwGraphNode::DeleteFromSet => spec_delete_from_set(*vm.storage_plan, params),
            TwGraphNode::PrependToList => spec_list_op(n, params),
            TwGraphNode::PopFromList => spec_list_op(n, params),
            TwGraphNode::ListHead => spec_list_op(n, params),
            TwGraphNode::Add => spec_arithmetic(n, params),
            TwGraphNode::Sub => spec_arithmetic(n, params),
            TwGraphNode::IsPresent => spec_is_present(*vm.storage_plan, params),
            TwGraphNode::Select => None,
            TwGraphNode::Call(graph) => Some(StepView::Call { graph, params }),
            TwGraphNode::Reduce(graph, has_range) => spec_reduce(
                *vm.schema,
                *vm.storage_plan,
                graph,
                has_range,
                params,
                type_info,
            ),
            _ => spec_logic(n, params),
        }
    }
}

pub open spec fn text_of(key: Option<&String>) -> Option<Seq<char>> {
    match key {
        Some(k) => Some(k@),
        None => None,
    }
}

/// `InsertIntoMap` and `DeleteFromMap`.
pub fn map_op(insert: bool, key: Option<&String>, params: &Vec<VmValue>) -> (step: Option<NodeStep>)
    ensures
        insert ==> match step {
            Some(s) => spec_insert_into_map(text_of(key), values_view(params@)) == Some(s@),
            None => spec_insert_into_map(text_of(key), values_view(params@)) is None,
        },
        !insert ==> match step {
            Some(s) => spec_delete_from_map(text_of(key), values_view(params@)) == Some(s@),
            None => spec_delete_from_map(text_of(key), values_view(params@)) is None,
        },
{
    let at: usize = if insert {
        1
    } else {
        0
    };
    if params.len() < at + 1 {
        return None;
    }
    assert(values_view(params@)[at as int] == params@[at as int]@);
    assert(values_view(params@)[0] == params@[0]@);
    match &params[at] {
        VmValue::Null(_) => Some(NodeStep::Done(Some(params[at].duplicate()))),
        VmValue::MapOf(m) => {
            let key = match key {
                Some(key) => key,
                None => {
                    return None;
                },
            };
            let elements = if insert {
                m.elements.with(key.clone(), params[0].duplicate())
            } else {
                m.elements.without(key.as_str())
            };
            Some(NodeStep::Done(Some(VmValue::MapOf(VmMapValue { elements }))))
        },
        _ => None,
    }
}

/// `PrependToList`, `PopFromList` and `ListHead`.
pub fn list_op(n: &TwGraphNode, params: &Vec<VmValue>) -> (step: Option<NodeStep>)
    ensures
        match step {
            Some(s) => spec_list_op(*n, values_view(params@)) == Some(s@),
            None => spec_list_op(*n, values_view(params@)) is None,
        },
{
    match n {
        TwGraphNode::PrependToList => {
            if params.len() < 2 {
                return None;
            }
            assert(values_view(params@)[0] == params@[0]@);
            assert(values_view(params@)[1] == params@[1]@);
            match &params[1] {
                VmValue::List(list) => {
                    let node = list.node.prepend(params[0].duplicate());
                    let member_ty = list.member_ty.duplicate();
                    Some(NodeStep::Done(Some(VmValue::List(VmListValue { member_ty, node }))))
                },
                _ => None,
            }
        },
        TwGraphNode::PopFromList => {
            if params.len() < 1 {
                return None;
            }
            assert(values_view(params@)[0] == params@[0]@);
            match &params[0] {
                VmValue::List(list) => match list.node.tail() {
                    Some(node) => Some(
                        NodeStep::Done(
                            Some(VmValue::List(VmListValue { member_ty: list.member_ty.duplicate(), node })),
                        ),
                    ),
                    None => Some(
                        NodeStep::Done(Some(VmValue::Null(VmType::List(Box::new(list.member_ty.duplicate()))))),
                    ),
                },
                _ => None,
            }
        },
        TwGraphNode::ListHead => {
            if params.len() < 1 {
                return None;
            }
            assert(values_view(params@)[0] == params@[0]@);
            match &params[0] {
                VmValue::List(list) => match list.node.head() {
                    Some(head) => Some(NodeStep::Done(Some(head.duplicate()))),
                    None => Some(NodeStep::Done(Some(VmValue::Null(list.member_ty.duplicate())))),
                },
                _ => None,
            }
        },
        _ => None,
    }
}

/// `Add` and `Sub`.
pub fn arithmetic(n: &TwGraphNode, params: &Vec<VmValue>) -> (step: Option<NodeStep>)
    ensures
        match step {
            Some(s) => spec_arithmetic(*n, values_view(params@)) == Some(s@),
            None => spec_arithmetic(*n, values_view(params@)) is None,
        },
{
    if params.len() < 2 {
        return None;
    }
    assert(values_view(params@)[0] == params@[0]@);
    assert(values_view(params@)[1] == params@[1]@);
    match (n, &params[0], &params[1]) {
        (
            TwGraphNode::Add,
            VmValue::Primitive(PrimitiveValue::Int64(l)),
            VmValue::Primitive(PrimitiveValue::Int64(r)),
        ) => Some(NodeStep::Done(Some(VmValue::Primitive(PrimitiveValue::Int64(l.wrapping_add(*r)))))),
        (
            TwGraphNode::Add,
            VmValue::Primitive(PrimitiveValue::Double(l)),
            VmValue::Primitive(PrimitiveValue::Double(r)),
        ) => Some(NodeStep::FloatAdd { left: *l, right: *r }),
        (
            TwGraphNode::Add,
            VmValue::Primitive(PrimitiveValue::String(l)),
            VmValue::Primitive(PrimitiveValue::String(r)),
        ) => Some(NodeStep::Done(Some(VmValue::Primitive(PrimitiveValue::String(l.clone().concat(r.as_str())))))),
        (
            TwGraphNode::Sub,
            VmValue::Primitive(PrimitiveValue::Int64(l)),
            VmValue::Primitive(PrimitiveValue::Int64(r)),
        ) => Some(NodeStep::Done(Some(VmValue::Primitive(PrimitiveValue::Int64(l.wrapping_sub(*r)))))),
        (
            TwGraphNode::Sub,
            VmValue::Primitive(PrimitiveValue::Double(l)),
            VmValue::Primitive(PrimitiveValue::Double(r)),
        ) => Some(NodeStep::FloatSub { left: *l, right: *r }),
        _ => None,
    }
}

/// `Eq`, `Ne`, `And`, `Or`, `Not`, `IsNull`, `UnwrapOptional`, `Nop` and
/// `Throw`.
pub fn logic(n: &TwGraphNode, params: &Vec<VmValue>) -> (step: Option<NodeStep>)
    ensures
        match step {
            Some(s) => spec_logic(*n, values_view(params@)) == Some(s@),
            None => spec_logic(*n, values_view(params@)) is None,
        },
{
    if params.len() < 1 {
        return None;
    }
    assert(values_view(params@)[0] == params@[0]@);
    match n {
        TwGraphNode::Eq | TwGraphNode::Ne | TwGraphNode::And | TwGraphNode::Or => {
            if params.len() < 2 {
                return None;
            }
            assert(values_view(params@)[1] == params@[1]@);
            match n {
                TwGraphNode::Eq => Some(NodeStep::Done(Some(VmValue::Bool(params[0].same_as(&params[1]))))),
                TwGraphNode::Ne => Some(NodeStep::Done(Some(VmValue::Bool(!params[0].same_as(&params[1]))))),
                TwGraphNode::And => match (&params[0], &params[1]) {
                    (VmValue::Bool(a), VmValue::Bool(b)) => Some(NodeStep::Done(Some(VmValue::Bool(*a && *b)))),
                    _ => None,
                },
                _ => match (&params[0], &params[1]) {
                    (VmValue::Bool(a), VmValue::Bool(b)) => Some(NodeStep::Done(Some(VmValue::Bool(*a || *b)))),
                    _ => None,
                },
            }
        },
        TwGraphNode::Not => match &params[0] {
            VmValue::Bool(a) => Some(NodeStep::Done(Some(VmValue::Bool(!*a)))),
            _ => None,
        },
        TwGraphNode::IsNull => Some(NodeStep::Done(Some(VmValue::Bool(params[0].is_null())))),
        TwGraphNode::UnwrapOptional => if params[0].is_null() {
            Some(NodeStep::Failed(ExecError::NullUnwrapped))
        } else {
            Some(NodeStep::Done(Some(params[0].duplicate())))
        },
        TwGraphNode::Nop => Some(NodeStep::Done(Some(params[0].duplicate()))),
        TwGraphNode::Throw => match &params[0] {
            VmValue::Null(_) => Some(NodeStep::Failed(ExecError::ScriptThrownNull)),
            VmValue::Primitive(PrimitiveValue::String(message)) => Some(
                NodeStep::Failed(ExecError::ScriptThrownError(message.clone())),
            ),
            _ => None,
        },
        _ => None,
    }
}

/// The range of the scan index that a reduction scans.
pub fn scan_range_of(prefix: &Vec<u8>, has_range: bool, params: &Vec<VmValue>) -> (range: Option<(Vec<u8>, Vec<u8>)>)
    requires
        prefix@.len() > 0,
        prefix@.last() < 255,
    ensures
        match range {
            Some((start, end)) => scan_range(prefix@, has_range, values_view(params@)) == Some((start@, end@)),
            None => scan_range(prefix@, has_range, values_view(params@)) is None,
        },
{
    let mut start = crate::value::copy_bytes(prefix.as_slice());
    let mut end = range_end(prefix);
    if has_range {
        if params.len() < 5 {
            return None;
        }
        assert(values_view(params@)[3] == params@[3]@);
        assert(values_view(params@)[4] == params@[4]@);
        match &params[3] {
            VmValue::Null(_) => {},
            VmValue::Primitive(p) => {
                let raw = p.serialize_for_key_component();
                push_all(&mut start, raw.as_slice());
            },
            _ => {
                return None;
            },
        }
        match &params[4] {
            VmValue::Null(_) => {},
            VmValue::Primitive(p) => {
                let raw = p.serialize_for_key_component();
                end = crate::value::copy_bytes(prefix.as_slice());
                push_all(&mut end, raw.as_slice());
            },
            _ => {
                return None;
            },
        }
    }
    Some((start, end))
}

/// `Reduce`.
pub fn reduce(
    schema: &CompiledSchema,
    plan: &StoragePlan,
    graph: u32,
    has_range: bool,
    params: &Vec<VmValue>,
    type_info: Option<&VmType>,
) -> (step: Option<NodeStep>)
    ensures
        match step {
            Some(s) => spec_reduce(
                *schema,
                *plan,
                graph,
                has_range,
                values_view(params@),
                match type_info {
                    Some(t) => Some(t@),
                    None => None,
                },
            ) == Some(s@),
            None => spec_reduce(
                *schema,
                *plan,
                graph,
                has_range,
                values_view(params@),
                match type_info {
                    Some(t) => Some(t@),
                    None => None,
                },
            ) is None,
        },
{
    if params.len() < 3 {
        return None;
    }
    assert(values_view(params@)[0] == params@[0]@);
    assert(values_view(params@)[1] == params@[1]@);
    assert(values_view(params@)[2] == params@[2]@);
    match &params[2] {
        VmValue::Null(_) => Some(null_step(type_info)),
        VmValue::List(list) => {
            let items = list.node.items();
            assert(values_view(items@) =~= held_items(list.node));
            Some(
                NodeStep::ReduceList { graph, param: params[0].duplicate(), init: params[1].duplicate(), items },
            )
        },
        VmValue::SetOf(set) => match &set.kind {
            VmSetValueKind::Fresh(members) => {
                proof {
                    lemma_fresh_set_view(set.member_ty, *members);
                }
                Some(NodeStep::Failed(ExecError::FreshTableOrSetNotSupported))
            },
            VmSetValueKind::Resident(walker) => {
                let name = match &set.member_ty {
                    VmType::Table(t) => &t.name,
                    _ => {
                        return None;
                    },
                };
                let record = match schema.types.get(name.as_str()) {
                    Some(record) => record,
                    None => {
                        return None;
                    },
                };
                let prefix = match walker.set_fast_scan_prefix(plan) {
                    Some(prefix) => prefix,
                    None => {
                        return None;
                    },
                };
                assert(prefix@.last() == SET_FAST_SCAN_TAG);
                match scan_range_of(&prefix, has_range, params) {
                    Some((start, end)) => Some(
                        NodeStep::ReduceSet {
                            graph,
                            param: params[0].duplicate(),
                            init: params[1].duplicate(),
                            walker: walker.duplicate(),
                            member_ty: record.name.clone(),
                            prefix,
                            start,
                            end,
                        },
                    ),
                    None => None,
                }
            },
        },
        _ => None,
    }
}

/// The null of the node's type, as the node's result.
pub fn null_step(type_info: Option<&VmType>) -> (step: NodeStep)
    ensures
        step@ == null_of(
            match type_info {
                Some(t) => Some(t@),
                None => None,
            },
        ),
{
    match type_info {
        Some(t) => NodeStep::Done(Some(VmValue::Null(t.duplicate()))),
        None => NodeStep::Done(None),
    }
}

/// Whether one of the parameters is a null.
pub fn any_null(params: &Vec<VmValue>) -> (yes: bool)
    ensures
        yes == has_null(values_view(params@)),
{
    let mut i: usize = 0;
    while i < params.len()
        invariant
            i <= params@.len(),
            forall|j: int| 0 <= j < i ==> !((#[trigger] values_view(params@)[j]) is Null),
        decreases params.len() - i,
    {
        if params[i].is_null() {
            assert(values_view(params@)[i as int] is Null);
            return true;
        }
        i += 1;
    }
    false
}

/// The identifier at position `i` of the script.
pub fn ident_of<'a>(vm: &TwVm<'a>, i: u32) -> (ident: Option<&'a String>)
    ensures
        text_of(ident) == ident_text(*vm, i),
{
    if (i as usize) < vm.script.idents.len() {
        Some(&vm.script.idents[i as usize])
    } else {
        None
    }
}

/// What the node `n` does on `params`; nothing where the parameters do not
/// fit the operation.
pub fn step_node(
    vm: &TwVm,
    n: &TwGraphNode,
    params: &Vec<VmValue>,
    graph_params: &Vec<VmValue>,
    type_info: Option<&VmType>,
) -> (step: Option<NodeStep>)
    ensures
        match step {
            Some(s) => spec_step(
                *vm,
                *n,
                values_view(params@),
                values_view(graph_params@),
                match type_info {
                    Some(t) => Some(t@),
                    None => None,
                },
            ) == Some(s@),
            None => spec_step(
                *vm,
                *n,
                values_view(params@),
                values_view(graph_params@),
                match type_info {
                    Some(t) => Some(t@),
                    None => None,
                },
            ) is None,
        },
{
    if n.is_optional_chained() && any_null(params) {
        return Some(null_step(type_info));
    }
    match n {
        TwGraphNode::LoadParam(i) => if (*i as usize) < graph_params.len() {
            assert(values_view(graph_params@)[*i as int] == graph_params@[*i as int]@);
            Some(NodeStep::Done(Some(graph_params[*i as usize].duplicate())))
        } else {
            None
        },
        TwGraphNode::LoadConst(i) => if (*i as usize) < vm.consts.len() {
            Some(NodeStep::Done(Some(vm.consts[*i as usize].duplicate())))
        } else {
            None
        },
        TwGraphNode::CreateMap => Some(
            NodeStep::Done(Some(VmValue::MapOf(VmMapValue { elements: ValueMap::new() }))),
        ),
        TwGraphNode::CreateList(ty) => if (*ty as usize) < vm.types.len() {
            let member_ty = vm.types[*ty as usize].duplicate();
            Some(NodeStep::Done(Some(VmValue::List(VmListValue { member_ty, node: ValueList::new() }))))
        } else {
            None
        },
        TwGraphNode::BuildTable(id) => build_table(vm.schema, ident_of(vm, *id), params),
        TwGraphNode::BuildSet => build_set(vm.schema, params),
        TwGraphNode::GetField(id) => get_field(vm.schema, vm.storage_plan, ident_of(vm, *id), params),
        TwGraphNode::GetSetElement => get_set_element(vm.storage_plan, params),
        TwGraphNode::FilterSet(graph) => Some(
            NodeStep::Failed(
                ExecError::NotImplemented(
                    "FilterSet(".to_string().concat(decimal_string(*graph as u64).as_str()).concat(")"),
                ),
            ),
        ),
        TwGraphNode::InsertIntoMap(id) => map_op(true, ident_of(vm, *id), params),
        TwGraphNode::DeleteFromMap(id) => map_op(false, ident_of(vm, *id), params),
        TwGraphNode::InsertIntoTable(id) => insert_into_table(vm.storage_plan, ident_of(vm, *id), params),
        TwGraphNode::InsertIntoSet => insert_into_set(vm.schema, vm.storage_plan, params),
        TwGraphNode::DeleteFromTable(id) => delete_from_table(vm.storage_plan, ident_of(vm, *id), params),
        TwGraphNode::DeleteFromSet => delete_from_set(vm.storage_plan, params),
        TwGraphNode::PrependToList => list_op(n, params),
        TwGraphNode::PopFromList => list_op(n, params),
        TwGraphNode::ListHead => list_op(n, params),
        TwGraphNode::Add => arithmetic(n, params),
        TwGraphNode::Sub => arithmetic(n, params),
        TwGraphNode::IsPresent => is_present(vm.storage_plan, params),
        TwGraphNode::Select => None,
        TwGraphNode::Call(graph) => {
            let copies = duplicate_values(params);
            assert(values_view(copies@) =~= values_view(params@));
            Some(NodeStep::Call { graph: *graph, params: copies })
        },
        TwGraphNode::Reduce(graph, has_range) => reduce(
            vm.schema,
            vm.storage_plan,
            *graph,
            *has_range,
            params,
            type_info,
        ),
        _ => logic(n, params),
    }
}

/// Whether the parameters fit the operation, so that the node can run.
pub fn can_run(
    vm: &TwVm,
    n: &TwGraphNode,
    params: &Vec<VmValue>,
    graph_params: &Vec<VmValue>,
    type_info: Option<&VmType>,
) -> (yes: bool)
    ensures
        yes == spec_step(
            *vm,
            *n,
            values_view(params@),
            values_view(graph_params@),
            match type_info {
                Some(t) => Some(t@),
                None => None,
            },
        ) is Some,
{
    step_node(vm, n, params, graph_params, type_info).is_some()
}

/// What the node `n` does on `params`, which fit the operation.
pub fn run_node(
    vm: &TwVm,
    n: &TwGraphNode,
    params: &Vec<VmValue>,
    graph_params: &Vec<VmValue>,
    type_info: Option<&VmType>,
) -> (step: NodeStep)
    requires
        spec_step(
            *vm,
            *n,
            values_view(params@),
            values_view(graph_params@),
            match type_info {
                Some(t) => Some(t@),
                None => None,
            },
        ) is Some,
    ensures
        spec_step(
            *vm,
            *n,
            values_view(params@),
            values_view(graph_params@),
            match type_info {
                Some(t) => Some(t@),
                None => None,
            },
        ) == Some(step@),
{
    match step_node(vm, n, params, graph_params, type_info) {
        Some(step) => step,
        None => vstd::pervasive::unreached(),
    }
}

/// A primitive stored as a field of a table in the store is put under the
/// very key from which reading the field fetches it.
pub proof fn lemma_store_then_fetch(
    schema: CompiledSchema,
    plan: StoragePlan,
    ty: Seq<char>,
    walker: WalkerView,
    key: Seq<char>,
    p: PrimitiveView,
)
    requires
        spec_read_element(schema, plan, ValueView::ResidentTable { ty, walker }, key) matches Some(
            StepView::Fetch { .. },
        ),
    ensures
        spec_insert_into_table(
            plan,
            Some(key),
            seq![ValueView::Primitive(p), ValueView::ResidentTable { ty, walker }],
        ) == Some(
            StepView::Write(
                seq![
                    WriteView::Put {
                        key: spec_read_element(
                            schema,
                            plan,
                            ValueView::ResidentTable { ty, walker },
                            key,
                        )->Some_0->Fetch_key,
                        value: PayloadView::Primitive(p),
                    },
                ],
            ),
        ),
{
}

/// The writes that store a fresh table hold, for each field with a
/// primitive, the put of that primitive under the key of the field.
pub proof fn lemma_insert_puts_field(
    plan: StoragePlan,
    at: WalkerView,
    fields: Seq<(Seq<char>, ValueView)>,
    upto: int,
    i: int,
    p: PrimitiveView,
)
    requires
        0 <= i < upto <= fields.len(),
        fields[i].1 == ValueView::Primitive(p),
        super::writes::spec_insert_fields(plan, at, fields, upto) is Ok,
    ensures
        spec_enter_field(plan, at, fields[i].0) is Some,
        super::writes::spec_insert_fields(plan, at, fields, upto)->Ok_0.contains(
            WriteView::Put {
                key: walker_key(plan, spec_enter_field(plan, at, fields[i].0)->Some_0),
                value: PayloadView::Primitive(p),
            },
        ),
    decreases upto,
{
    let before = super::writes::spec_insert_fields(plan, at, fields, upto - 1)->Ok_0;
    let whole = super::writes::spec_insert_fields(plan, at, fields, upto)->Ok_0;
    let field_at = spec_enter_field(plan, at, fields[upto - 1].0)->Some_0;
    let below = spec_insert(plan, field_at, fields[upto - 1].1)->Ok_0;
    assert(whole == before + below);
    let put = WriteView::Put {
        key: walker_key(plan, spec_enter_field(plan, at, fields[i].0)->Some_0),
        value: PayloadView::Primitive(p),
    };
    if i == upto - 1 {
        assert(below[0] == put);
        assert(whole[before.len() as int] == put);
    } else {
        lemma_insert_puts_field(plan, at, fields, upto - 1, i, p);
        let k = choose|k: int| 0 <= k < before.len() && before[k] == put;
        assert(whole[k] == put);
    }
}

/// A member inserted into a set in the store can be read back by its primary
/// key: the writes of `InsertIntoSet` hold, for each field of the member
/// with a primitive, the put of that primitive under the very key from which
/// `GetSetElement` by the member's primary key and then `GetField` fetch the
/// field.
pub proof fn lemma_insert_member_then_read(
    schema: CompiledSchema,
    plan: StoragePlan,
    member: ValueView,
    set: ValueView,
    pk: PrimitiveView,
    i: int,
    p: PrimitiveView,
)
    requires
        set matches ValueView::ResidentSet { member_ty: TypeView::Table(_), .. },
        member matches ValueView::FreshTable { fields, .. } && 0 <= i < fields.len() && fields[i].1
            == ValueView::Primitive(p),
        spec_primary_key(type_of_value(set), schema) matches Some((t, f)) && member_key(
            member,
            schema.types.entries@[t].value.fields.entries@[f].key@,
        ) == Some(key_component(pk)),
        spec_insert_into_set(schema, plan, seq![member, set]) matches Some(StepView::Write(_)),
    ensures
        spec_get_set_element(plan, seq![ValueView::Primitive(pk), set]) matches Some(
            StepView::Done(Some(ValueView::ResidentTable { walker, .. })),
        ) && spec_enter_field(plan, walker, member->FreshTable_fields[i].0) matches Some(field_at)
            && spec_insert_into_set(schema, plan, seq![member, set])->Some_0->Write_0.contains(
            WriteView::Put { key: walker_key(plan, field_at), value: PayloadView::Primitive(p) },
        ),
{
    let fields = member->FreshTable_fields;
    let walker = set->ResidentSet_walker;
    let key = key_component(pk);
    let at = spec_enter_set_raw(plan, walker, key)->Some_0;
    let index = spec_set_fast_scan_prefix(plan, walker)->Some_0;
    let below = spec_insert(plan, at, member)->Ok_0;
    let inner = super::writes::spec_insert_fields(plan, at, fields, fields.len() as int)->Ok_0;
    lemma_insert_puts_field(plan, at, fields, fields.len() as int, i, p);
    let put = WriteView::Put {
        key: walker_key(plan, spec_enter_field(plan, at, fields[i].0)->Some_0),
        value: PayloadView::Primitive(p),
    };
    let k = choose|k: int| 0 <= k < inner.len() && inner[k] == put;
    let head = seq![WriteView::Put { key: walker_key(plan, at), value: PayloadView::Empty }];
    assert(below == head + inner);
    assert(below[k + 1] == put);
    let writes = spec_insert_into_set(schema, plan, seq![member, set])->Some_0->Write_0;
    assert(writes == seq![WriteView::Put { key: index + key, value: PayloadView::Empty }] + below);
    assert(writes[k + 2] == put);
}

} // verus!
