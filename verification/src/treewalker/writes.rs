//! What the executor writes to the store: the writes that lay a value out
//! under a walker's position, and those that delete a set or a member.

use vstd::prelude::*;
use crate::bytes::{bump_last, push_all, range_end};
use crate::pathwalker::{
    spec_enter_field, spec_enter_set_raw, spec_set_data_prefix, spec_set_fast_scan_prefix, stands, walker_key,
    PathWalker, WalkerView, MEMBER_END,
};
use crate::storage_plan::StoragePlan;
use crate::value::{copy_bytes, key_component, PrimitiveValue, PrimitiveView};
use super::exec::{ExecError, ExecErrorView};
use super::vm_value::{
    lemma_fresh_set_view, lemma_fresh_table_view, member_entries, value_entries, ValueView,
    VmSetValueKind, VmTableValueKind, VmValue,
};

verus! {

/// What is stored under a key: nothing but the key's presence, or a
/// primitive, which the executor encodes.
#[derive(Debug)]
pub enum Payload {
    Empty,
    Primitive(PrimitiveValue),
}

pub enum PayloadView {
    Empty,
    Primitive(PrimitiveView),
}

impl View for Payload {
    type V = PayloadView;

    open spec fn view(&self) -> PayloadView {
        match self {
            Payload::Empty => PayloadView::Empty,
            Payload::Primitive(p) => PayloadView::Primitive(p@),
        }
    }
}

/// One write to the store.
#[derive(Debug)]
pub enum KvWrite {
    Put { key: Vec<u8>, value: Payload },
    Delete { key: Vec<u8> },
    /// Deletes the keys from `start`, inclusive, to `end`, exclusive.
    DeleteRange { start: Vec<u8>, end: Vec<u8> },
}

pub enum WriteView {
    Put { key: Seq<u8>, value: PayloadView },
    Delete { key: Seq<u8> },
    DeleteRange { start: Seq<u8>, end: Seq<u8> },
}

impl View for KvWrite {
    type V = WriteView;

    open spec fn view(&self) -> WriteView {
        match self {
            KvWrite::Put { key, value } => WriteView::Put { key: key@, value: value@ },
            KvWrite::Delete { key } => WriteView::Delete { key: key@ },
            KvWrite::DeleteRange { start, end } => WriteView::DeleteRange { start: start@, end: end@ },
        }
    }
}

pub open spec fn writes_view(writes: Seq<KvWrite>) -> Seq<WriteView> {
    Seq::new(writes.len(), |i: int| writes[i]@)
}

/// The value can be stored: it is a null, a primitive, a table or a set, and
/// so is everything that a fresh table or set in it holds.
pub open spec fn storable(v: ValueView) -> bool
    decreases v,
{
    match v {
        ValueView::Null(_) => true,
        ValueView::Primitive(_) => true,
        ValueView::ResidentTable { .. } => true,
        ValueView::ResidentSet { .. } => true,
        ValueView::FreshTable { fields, .. } => forall|i: int|
            0 <= i < fields.len() ==> storable((#[trigger] fields[i]).1),
        ValueView::FreshSet { members, .. } => forall|i: int|
            0 <= i < members.len() ==> storable((#[trigger] members[i]).1),
        _ => false,
    }
}

/// The writes that delete every member of the set at the walker: its scan
/// index and its data, each as one range. Nothing where the walker stands on
/// no set.
pub open spec fn spec_delete_set(plan: StoragePlan, w: WalkerView) -> Option<Seq<WriteView>> {
    match (spec_set_fast_scan_prefix(plan, w), spec_set_data_prefix(plan, w)) {
        (Some(index), Some(data)) => Some(
            seq![
                WriteView::DeleteRange { start: index, end: bump_last(index) },
                WriteView::DeleteRange { start: data, end: bump_last(data) },
            ],
        ),
        _ => None,
    }
}

/// The writes that delete the member with the primary key `primary_key` from
/// the set at the walker: its entry in the scan index, and everything under
/// its key in the data.
pub open spec fn spec_delete_entry(plan: StoragePlan, w: WalkerView, primary_key: Seq<u8>) -> Option<
    Seq<WriteView>,
> {
    match (spec_set_fast_scan_prefix(plan, w), spec_set_data_prefix(plan, w)) {
        (Some(index), Some(data)) => Some(
            seq![
                WriteView::Delete { key: index + primary_key },
                WriteView::DeleteRange {
                    start: data + primary_key + seq![MEMBER_END],
                    end: data + primary_key + seq![(MEMBER_END + 1) as u8],
                },
            ],
        ),
        _ => None,
    }
}

/// The writes that store `v` at the walker's position.
///
/// - A null deletes the key.
/// - A primitive is put under the key.
/// - A fresh table marks the key and stores each field at the field's
///   position.
/// - A fresh set marks the key, deletes the members that the set holds in the
///   store, and lists and stores each member under its primary key.
/// A table or set that lies in the store cannot be copied. A field or member
/// for which the plan has no place fails the integrity of the path.
pub open spec fn spec_insert(plan: StoragePlan, w: WalkerView, v: ValueView) -> Result<Seq<WriteView>, ExecErrorView>
    decreases v, 0nat,
{
    let key = walker_key(plan, w);
    match v {
        ValueView::Null(_) => Ok(seq![WriteView::Delete { key }]),
        ValueView::Primitive(p) => Ok(seq![WriteView::Put { key, value: PayloadView::Primitive(p) }]),
        ValueView::FreshTable { fields, .. } => match spec_insert_fields(plan, w, fields, fields.len() as int) {
            Ok(below) => Ok(seq![WriteView::Put { key, value: PayloadView::Empty }] + below),
            Err(e) => Err(e),
        },
        ValueView::ResidentTable { .. } => Err(ExecErrorView::NotImplemented("table copy is not implemented"@)),
        ValueView::FreshSet { members, .. } => match spec_delete_set(plan, w) {
            None => Err(ExecErrorView::PathIntegrityFailure("set"@)),
            Some(cleared) => match spec_insert_members(plan, w, members, members.len() as int) {
                Ok(below) => Ok(seq![WriteView::Put { key, value: PayloadView::Empty }] + cleared + below),
                Err(e) => Err(e),
            },
        },
        ValueView::ResidentSet { .. } => Err(ExecErrorView::NotImplemented("set copy is not implemented"@)),
        _ => Err(ExecErrorView::NotImplemented("value cannot be stored"@)),
    }
}

/// The writes that store the first `upto` fields of a fresh table.
pub open spec fn spec_insert_fields(
    plan: StoragePlan,
    w: WalkerView,
    fields: Seq<(Seq<char>, ValueView)>,
    upto: int,
) -> Result<Seq<WriteView>, ExecErrorView>
    decreases fields, upto,
{
    if 0 < upto <= fields.len() {
        match spec_insert_fields(plan, w, fields, upto - 1) {
            Err(e) => Err(e),
            Ok(before) => match spec_enter_field(plan, w, fields[upto - 1].0) {
                None => Err(ExecErrorView::PathIntegrityFailure(fields[upto - 1].0)),
                Some(at) => match spec_insert(plan, at, fields[upto - 1].1) {
                    Err(e) => Err(e),
                    Ok(below) => Ok(before + below),
                },
            },
        }
    } else {
        Ok(seq![])
    }
}

/// The writes that list and store the first `upto` members of a fresh set.
pub open spec fn spec_insert_members(
    plan: StoragePlan,
    w: WalkerView,
    members: Seq<(Seq<u8>, ValueView)>,
    upto: int,
) -> Result<Seq<WriteView>, ExecErrorView>
    decreases members, upto,
{
    if 0 < upto <= members.len() {
        match spec_insert_members(plan, w, members, upto - 1) {
            Err(e) => Err(e),
            Ok(before) => match (
                spec_set_fast_scan_prefix(plan, w),
                spec_enter_set_raw(plan, w, members[upto - 1].0),
            ) {
                (Some(index), Some(at)) => match spec_insert(plan, at, members[upto - 1].1) {
                    Err(e) => Err(e),
                    Ok(below) => Ok(
                        before + seq![
                            WriteView::Put { key: index + members[upto - 1].0, value: PayloadView::Empty },
                        ] + below,
                    ),
                },
                _ => Err(ExecErrorView::PathIntegrityFailure("set"@)),
            },
        }
    } else {
        Ok(seq![])
    }
}

/// Appends `more` to `writes`.
pub fn append_writes(writes: &mut Vec<KvWrite>, more: Vec<KvWrite>)
    ensures
        writes_view(final(writes)@) == writes_view(old(writes)@) + writes_view(more@),
{
    let ghost before = writes@;
    let ghost added = more@;
    let mut more = more;
    writes.append(&mut more);
    assert(writes_view(writes@) =~= writes_view(before) + writes_view(added));
}

/// Appends one write to `writes`.
pub fn push_write(writes: &mut Vec<KvWrite>, write: KvWrite)
    ensures
        writes_view(final(writes)@) == writes_view(old(writes)@).push(write@),
{
    let ghost before = writes@;
    writes.push(write);
    assert(writes_view(writes@) =~= writes_view(before).push(write@));
}

/// The writes that delete every member of the set at the walker.
pub fn delete_set(plan: &StoragePlan, walker: &PathWalker) -> (writes: Option<Vec<KvWrite>>)
    ensures
        match writes {
            Some(list) => spec_delete_set(*plan, walker@) == Some(writes_view(list@)),
            None => spec_delete_set(*plan, walker@) is None,
        },
{
    let index = match walker.set_fast_scan_prefix(plan) {
        Some(index) => index,
        None => {
            return None;
        },
    };
    let data = match walker.set_data_prefix(plan) {
        Some(data) => data,
        None => {
            return None;
        },
    };
    let index_end = range_end(&index);
    let data_end = range_end(&data);
    let mut writes: Vec<KvWrite> = Vec::new();
    writes.push(KvWrite::DeleteRange { start: index, end: index_end });
    writes.push(KvWrite::DeleteRange { start: data, end: data_end });
    assert(writes_view(writes@) =~= spec_delete_set(*plan, walker@)->Some_0);
    Some(writes)
}

/// The writes that delete one member from the set at the walker.
pub fn delete_entry_from_set(plan: &StoragePlan, walker: &PathWalker, primary_key_value: &PrimitiveValue) -> (writes: Option<
    Vec<KvWrite>,
>)
    ensures
        match writes {
            Some(list) => spec_delete_entry(*plan, walker@, key_component(primary_key_value@)) == Some(
                writes_view(list@),
            ),
            None => spec_delete_entry(*plan, walker@, key_component(primary_key_value@)) is None,
        },
{
    let raw = primary_key_value.serialize_for_key_component();
    let mut index_key = match walker.set_fast_scan_prefix(plan) {
        Some(index) => index,
        None => {
            return None;
        },
    };
    push_all(&mut index_key, raw.as_slice());
    let mut data_start = match walker.set_data_prefix(plan) {
        Some(data) => data,
        None => {
            return None;
        },
    };
    push_all(&mut data_start, raw.as_slice());
    let mut data_end = copy_bytes(data_start.as_slice());
    data_start.push(MEMBER_END);
    data_end.push(MEMBER_END + 1);
    proof {
        let data = spec_set_data_prefix(*plan, walker@)->Some_0;
        let pk = key_component(primary_key_value@);
        assert(data_start@ =~= data + pk + seq![MEMBER_END]);
        assert(data_end@ =~= data + pk + seq![(MEMBER_END + 1) as u8]);
    }
    let mut writes: Vec<KvWrite> = Vec::new();
    writes.push(KvWrite::Delete { key: index_key });
    writes.push(KvWrite::DeleteRange { start: data_start, end: data_end });
    assert(writes_view(writes@) =~= spec_delete_entry(*plan, walker@, key_component(primary_key_value@))->Some_0);
    Some(writes)
}

proof fn lemma_insert_fields_err(
    plan: StoragePlan,
    w: WalkerView,
    fields: Seq<(Seq<char>, ValueView)>,
    upto: int,
    len: int,
)
    requires
        0 <= upto <= len <= fields.len(),
        spec_insert_fields(plan, w, fields, upto) is Err,
    ensures
        spec_insert_fields(plan, w, fields, len) == spec_insert_fields(plan, w, fields, upto),
    decreases len - upto,
{
    if upto < len {
        lemma_insert_fields_err(plan, w, fields, upto, len - 1);
    }
}

proof fn lemma_insert_members_err(
    plan: StoragePlan,
    w: WalkerView,
    members: Seq<(Seq<u8>, ValueView)>,
    upto: int,
    len: int,
)
    requires
        0 <= upto <= len <= members.len(),
        spec_insert_members(plan, w, members, upto) is Err,
    ensures
        spec_insert_members(plan, w, members, len) == spec_insert_members(plan, w, members, upto),
    decreases len - upto,
{
    if upto < len {
        lemma_insert_members_err(plan, w, members, upto, len - 1);
    }
}

/// What a storable fresh table holds is storable.
pub proof fn lemma_storable_field(ty: Seq<char>, fields: Seq<(Seq<char>, ValueView)>, i: int)
    requires
        storable(ValueView::FreshTable { ty, fields }),
        0 <= i < fields.len(),
    ensures
        storable(fields[i].1),
{
    let v = ValueView::FreshTable { ty, fields };
    assert(v->FreshTable_fields == fields);
    assert(forall|j: int| 0 <= j < fields.len() ==> storable((#[trigger] fields[j]).1));
}

/// What a storable fresh set holds is storable.
pub proof fn lemma_storable_member(member_ty: super::vm_value::TypeView, members: Seq<(Seq<u8>, ValueView)>, i: int)
    requires
        storable(ValueView::FreshSet { member_ty, members }),
        0 <= i < members.len(),
    ensures
        storable(members[i].1),
{
    let v = ValueView::FreshSet { member_ty, members };
    assert(v->FreshSet_members == members);
    assert(forall|j: int| 0 <= j < members.len() ==> storable((#[trigger] members[j]).1));
}

/// Whether the value can be stored.
pub fn is_storable(v: &VmValue) -> (yes: bool)
    ensures
        yes == storable(v@),
    decreases v,
{
    match v {
        VmValue::Null(_) => true,
        VmValue::Primitive(_) => true,
        VmValue::Table(t) => match &t.kind {
            VmTableValueKind::Resident(_) => true,
            VmTableValueKind::Fresh(fields) => {
                proof {
                    lemma_fresh_table_view(t.ty, *fields);
                }
                let mut i: usize = 0;
                while i < fields.entries.len()
                    invariant
                        i <= fields.entries@.len(),
                        v matches VmValue::Table(x) && x.kind matches VmTableValueKind::Fresh(f) && f.entries@
                            == fields.entries@,
                        v@ == (ValueView::FreshTable { ty: t.ty@, fields: value_entries(fields.entries@) }),
                        forall|j: int| 0 <= j < i ==> storable((#[trigger] value_entries(fields.entries@)[j]).1),
                    decreases fields.entries.len() - i,
                {
                    if !is_storable(&fields.entries[i].value) {
                        proof {
                            let fs = value_entries(fields.entries@);
                            assert(!storable(fs[i as int].1));
                            if storable(v@) {
                                lemma_storable_field(t.ty@, fs, i as int);
                            }
                        }
                        return false;
                    }
                    i += 1;
                }
                true
            },
        },
        VmValue::SetOf(s) => match &s.kind {
            VmSetValueKind::Resident(_) => true,
            VmSetValueKind::Fresh(members) => {
                proof {
                    lemma_fresh_set_view(s.member_ty, *members);
                }
                let mut i: usize = 0;
                while i < members.len()
                    invariant
                        i <= members@.len(),
                        v matches VmValue::SetOf(x) && x.kind matches VmSetValueKind::Fresh(f) && f@ == members@,
                        v@ == (ValueView::FreshSet { member_ty: s.member_ty@, members: member_entries(members@) }),
                        forall|j: int| 0 <= j < i ==> storable((#[trigger] member_entries(members@)[j]).1),
                    decreases members.len() - i,
                {
                    if !is_storable(&members[i].value) {
                        proof {
                            let ms = member_entries(members@);
                            assert(!storable(ms[i as int].1));
                            if storable(v@) {
                                lemma_storable_member(s.member_ty@, ms, i as int);
                            }
                        }
                        return false;
                    }
                    i += 1;
                }
                true
            },
        },
        _ => false,
    }
}

/// The writes that store `value` at the walker's position.
pub fn walk_and_insert(plan: &StoragePlan, walker: &PathWalker, value: &VmValue) -> (writes: Result<
    Vec<KvWrite>,
    ExecError,
>)
    requires
        stands(*plan, walker@),
        storable(value@),
    ensures
        spec_insert(*plan, walker@, value@) matches Ok(ws) ==> (writes matches Ok(list) && writes_view(list@)
            == ws),
        spec_insert(*plan, walker@, value@) matches Err(e) ==> (writes matches Err(x) && x@ == e),
    decreases value,
{
    let key = walker.generate_key(plan);
    let mut writes: Vec<KvWrite> = Vec::new();
    assert(writes_view(writes@) =~= Seq::<WriteView>::empty());
    match value {
        VmValue::Null(_) => {
            push_write(&mut writes, KvWrite::Delete { key });
            assert(writes_view(writes@) =~= spec_insert(*plan, walker@, value@)->Ok_0);
            Ok(writes)
        },
        VmValue::Primitive(p) => {
            push_write(&mut writes, KvWrite::Put { key, value: Payload::Primitive(p.duplicate()) });
            assert(writes_view(writes@) =~= spec_insert(*plan, walker@, value@)->Ok_0);
            Ok(writes)
        },
        VmValue::Table(t) => match &t.kind {
            VmTableValueKind::Resident(_) => Err(
                ExecError::NotImplemented("table copy is not implemented".to_string()),
            ),
            VmTableValueKind::Fresh(fields) => {
                proof {
                    lemma_fresh_table_view(t.ty, *fields);
                }
                let ghost views = value_entries(fields.entries@);
                let ghost head = seq![WriteView::Put { key: key@, value: PayloadView::Empty }];
                push_write(&mut writes, KvWrite::Put { key, value: Payload::Empty });
                let mut i: usize = 0;
                while i < fields.entries.len()
                    invariant
                        i <= fields.entries@.len(),
                        stands(*plan, walker@),
                        value matches VmValue::Table(x) && x.kind matches VmTableValueKind::Fresh(f) && f.entries@
                            == fields.entries@,
                        value@ == (ValueView::FreshTable { ty: t.ty@, fields: views }),
                        views == value_entries(fields.entries@),
                        storable(value@),
                        head == seq![WriteView::Put { key: walker_key(*plan, walker@), value: PayloadView::Empty }],
                        spec_insert_fields(*plan, walker@, views, i as int) matches Ok(below) && writes_view(
                            writes@,
                        ) == head + below,
                    decreases fields.entries.len() - i,
                {
                    let entry = &fields.entries[i];
                    assert(views[i as int] == (entry.key@, entry.value@));
                    proof {
                        if spec_insert_fields(*plan, walker@, views, i + 1) is Err {
                            lemma_insert_fields_err(*plan, walker@, views, i + 1, views.len() as int);
                        }
                    }
                    let at = match walker.enter_field(plan, entry.key.as_str()) {
                        Some(at) => at,
                        None => {
                            return Err(ExecError::PathIntegrityFailure(entry.key.clone()));
                        },
                    };
                    let ghost so_far = writes_view(writes@);
                    match walk_and_insert(plan, &at, &entry.value) {
                        Ok(below) => {
                            append_writes(&mut writes, below);
                            assert(writes_view(writes@) =~= head + spec_insert_fields(
                                *plan,
                                walker@,
                                views,
                                i + 1,
                            )->Ok_0);
                        },
                        Err(e) => {
                            return Err(e);
                        },
                    }
                    i += 1;
                }
                Ok(writes)
            },
        },
        VmValue::SetOf(s) => match &s.kind {
            VmSetValueKind::Resident(_) => Err(ExecError::NotImplemented("set copy is not implemented".to_string())),
            VmSetValueKind::Fresh(members) => {
                proof {
                    lemma_fresh_set_view(s.member_ty, *members);
                }
                let ghost views = member_entries(members@);
                let cleared = match delete_set(plan, walker) {
                    Some(cleared) => cleared,
                    None => {
                        return Err(ExecError::PathIntegrityFailure("set".to_string()));
                    },
                };
                let ghost head = seq![WriteView::Put { key: key@, value: PayloadView::Empty }] + writes_view(
                    cleared@,
                );
                push_write(&mut writes, KvWrite::Put { key, value: Payload::Empty });
                append_writes(&mut writes, cleared);
                let mut i: usize = 0;
                while i < members.len()
                    invariant
                        i <= members@.len(),
                        stands(*plan, walker@),
                        value matches VmValue::SetOf(x) && x.kind matches VmSetValueKind::Fresh(f) && f@
                            == members@,
                        value@ == (ValueView::FreshSet { member_ty: s.member_ty@, members: views }),
                        views == member_entries(members@),
                        storable(value@),
                        spec_delete_set(*plan, walker@) is Some,
                        head == seq![
                            WriteView::Put { key: walker_key(*plan, walker@), value: PayloadView::Empty },
                        ] + spec_delete_set(*plan, walker@)->Some_0,
                        spec_insert_members(*plan, walker@, views, i as int) matches Ok(below) && writes_view(
                            writes@,
                        ) == head + below,
                    decreases members.len() - i,
                {
                    let member = &members[i];
                    assert(views[i as int] == (member.key@, member.value@));
                    proof {
                        if spec_insert_members(*plan, walker@, views, i + 1) is Err {
                            lemma_insert_members_err(*plan, walker@, views, i + 1, views.len() as int);
                        }
                    }
                    let mut index_key = match walker.set_fast_scan_prefix(plan) {
                        Some(index) => index,
                        None => {
                            return Err(ExecError::PathIntegrityFailure("set".to_string()));
                        },
                    };
                    push_all(&mut index_key, member.key.as_slice());
                    let at = match walker.enter_set_raw(plan, member.key.as_slice()) {
                        Some(at) => at,
                        None => {
                            return Err(ExecError::PathIntegrityFailure("set".to_string()));
                        },
                    };
                    match walk_and_insert(plan, &at, &member.value) {
                        Ok(below) => {
                            push_write(&mut writes, KvWrite::Put { key: index_key, value: Payload::Empty });
                            append_writes(&mut writes, below);
                            assert(writes_view(writes@) =~= head + spec_insert_members(
                                *plan,
                                walker@,
                                views,
                                i + 1,
                            )->Ok_0);
                        },
                        Err(e) => {
                            return Err(e);
                        },
                    }
                    i += 1;
                }
                Ok(writes)
            },
        },
        _ => Err(ExecError::NotImplemented("value cannot be stored".to_string())),
    }
}

} // verus!
