//! The small vectors of a run: the values that have arrived for the
//! parameters of every node, and one flag for every node. They hold the
//! parameters of up to sixteen nodes, three each, without allocating.

use vstd::prelude::*;
use smallvec::SmallVec;
use super::vm_value::VmValue;

verus! {

/// For every node, a row with one slot for each of its parameters: a
/// `SmallVec` of `SmallVec`s.
#[verifier::external_body]
#[derive(Debug)]
pub struct SlotTable {
    inner: SmallVec<[SmallVec<[Option<VmValue>; 3]>; 16]>,
}

/// One flag for every node: a `SmallVec`.
#[verifier::external_body]
#[derive(Debug)]
pub struct FlagList {
    inner: SmallVec<[bool; 16]>,
}

/// The rows that a table holds, in order, each with its slots in order.
pub uninterp spec fn slot_rows(table: SlotTable) -> Seq<Seq<Option<VmValue>>>;

/// The flags that a list holds, in order.
pub uninterp spec fn flag_items(list: FlagList) -> Seq<bool>;

/// `SmallVec::new`: a table without rows.
#[verifier::external_body]
pub(crate) fn slots_new() -> (table: SlotTable)
    ensures
        slot_rows(table) == Seq::<Seq<Option<VmValue>>>::empty(),
{
    SlotTable { inner: SmallVec::new() }
}

/// `SmallVec::push` of a `SmallVec::new`: a row without slots is appended
/// after the rows that the table holds.
#[verifier::external_body]
pub(crate) fn slots_push_row(table: &mut SlotTable)
    ensures
        slot_rows(*final(table)) == slot_rows(*old(table)).push(Seq::<Option<VmValue>>::empty()),
{
    table.inner.push(SmallVec::new())
}

/// `SmallVec::push` on the row at `t`: the slot is appended after the slots
/// that the row holds; the other rows stay.
#[verifier::external_body]
pub(crate) fn slots_push(table: &mut SlotTable, t: usize, slot: Option<VmValue>)
    requires
        t < slot_rows(*old(table)).len(),
    ensures
        slot_rows(*final(table)) == slot_rows(*old(table)).update(
            t as int,
            slot_rows(*old(table))[t as int].push(slot),
        ),
{
    table.inner[t].push(slot)
}

/// `SmallVec::len` of the table: the number of rows.
#[verifier::external_body]
pub(crate) fn slots_len(table: &SlotTable) -> (n: usize)
    ensures
        n == slot_rows(*table).len(),
{
    table.inner.len()
}

/// `SmallVec::len` of the row at `t`: the number of its slots.
#[verifier::external_body]
pub(crate) fn slots_width(table: &SlotTable, t: usize) -> (n: usize)
    requires
        t < slot_rows(*table).len(),
    ensures
        n == slot_rows(*table)[t as int].len(),
{
    table.inner[t].len()
}

/// Indexing the table and the row through their slices: the slot at `p` of
/// the row at `t`.
#[verifier::external_body]
pub(crate) fn slots_get(table: &SlotTable, t: usize, p: usize) -> (slot: &Option<VmValue>)
    requires
        t < slot_rows(*table).len(),
        p < slot_rows(*table)[t as int].len(),
    ensures
        *slot == slot_rows(*table)[t as int][p as int],
{
    &table.inner[t][p]
}

/// Assigning through the indices of the table and the row: the slot at `p`
/// of the row at `t` holds `slot`; every other slot stays.
#[verifier::external_body]
pub(crate) fn slots_set(table: &mut SlotTable, t: usize, p: usize, slot: Option<VmValue>)
    requires
        t < slot_rows(*old(table)).len(),
        p < slot_rows(*old(table))[t as int].len(),
    ensures
        slot_rows(*final(table)) == slot_rows(*old(table)).update(
            t as int,
            slot_rows(*old(table))[t as int].update(p as int, slot),
        ),
{
    table.inner[t][p] = slot;
}

/// `SmallVec::new`: a list without flags.
#[verifier::external_body]
pub(crate) fn flags_new() -> (list: FlagList)
    ensures
        flag_items(list) == Seq::<bool>::empty(),
{
    FlagList { inner: SmallVec::new() }
}

/// `SmallVec::push`: the flag is appended after the flags that the list
/// holds.
#[verifier::external_body]
pub(crate) fn flags_push(list: &mut FlagList, flag: bool)
    ensures
        flag_items(*final(list)) == flag_items(*old(list)).push(flag),
{
    list.inner.push(flag)
}

/// `SmallVec::len`: the number of flags.
#[verifier::external_body]
pub(crate) fn flags_len(list: &FlagList) -> (n: usize)
    ensures
        n == flag_items(*list).len(),
{
    list.inner.len()
}

/// Indexing the list through its slice: the flag at `i`.
#[verifier::external_body]
pub(crate) fn flags_get(list: &FlagList, i: usize) -> (flag: bool)
    requires
        i < flag_items(*list).len(),
    ensures
        flag == flag_items(*list)[i as int],
{
    list.inner[i]
}

/// Assigning through the index of the list: the flag at `i` is `flag`; every
/// other flag stays.
#[verifier::external_body]
pub(crate) fn flags_set(list: &mut FlagList, i: usize, flag: bool)
    requires
        i < flag_items(*old(list)).len(),
    ensures
        flag_items(*final(list)) == flag_items(*old(list)).update(i as int, flag),
{
    list.inner[i] = flag;
}

} // verus!
