//! The maps and lists of the VM. They are persistent: a map with one more
//! name, or a list with one more item, shares the rest with the map or the
//! list that it was made from, which stays as it was.

use vstd::prelude::*;
use rpds::{ListSync, RedBlackTreeMapSync};
use crate::bytes::{lemma_text_trichotomy, text_lt};
use super::node::assoc_get;
use super::vm_value::{
    assoc_index, assoc_insert, assoc_point, assoc_remove, field_of, TypeView, ValueView, VmType, VmValue,
};

verus! {

/// Values by name, in the order of the names: a red-black tree of `rpds`.
#[verifier::external_body]
#[derive(Debug)]
pub struct ValueMap {
    inner: RedBlackTreeMapSync<String, VmValue>,
}

/// Types by name, in the order of the names: a red-black tree of `rpds`.
#[verifier::external_body]
#[derive(Debug)]
pub struct TypeMap {
    inner: RedBlackTreeMapSync<String, VmType>,
}

/// Values in a row, the head first: a list of `rpds`.
#[verifier::external_body]
#[derive(Debug)]
pub struct ValueList {
    inner: ListSync<VmValue>,
}

/// The names that a map holds, in their order, each with the value that
/// stands under it.
pub uninterp spec fn held_entries(m: ValueMap) -> Seq<(Seq<char>, ValueView)>;

/// The values that a list holds, the head first.
pub uninterp spec fn held_items(l: ValueList) -> Seq<ValueView>;

/// The names that a map of types holds, in their order, each with the type
/// that stands under it.
pub uninterp spec fn held_types(m: TypeMap) -> Seq<(Seq<char>, TypeView)>;

/// The names rise: each is below every later one.
pub open spec fn names_rise<T>(s: Seq<(Seq<char>, T)>) -> bool {
    forall|i: int, j: int| 0 <= i < j < s.len() ==> text_lt((#[trigger] s[i]).0, (#[trigger] s[j]).0)
}

/// Where the names rise, the first pair with the name of a pair is that pair.
pub proof fn lemma_index_at<T>(s: Seq<(Seq<char>, T)>, i: int, from: int)
    requires
        names_rise(s),
        0 <= from <= i < s.len(),
    ensures
        assoc_index(s, s[i].0, from) == Some(i),
    decreases i - from,
{
    if from < i {
        assert(text_lt(s[from].0, s[i].0));
        lemma_text_trichotomy(s[from].0, s[i].0);
        lemma_index_at(s, i, from + 1);
    }
}

/// Where the names rise, the value found under the name of a pair is the
/// value of that pair.
pub proof fn lemma_assoc_get_at<T>(s: Seq<(Seq<char>, T)>, i: int)
    requires
        names_rise(s),
        0 <= i < s.len(),
    ensures
        assoc_get(s, s[i].0) == Some(s[i].1),
{
    lemma_index_at(s, i, 0);
}

/// The type found under a name is the type of the first pair of that name.
pub proof fn lemma_field_of_index(s: Seq<(Seq<char>, TypeView)>, key: Seq<char>, from: int)
    requires
        0 <= from,
    ensures
        field_of(s, key, from) == (match assoc_index(s, key, from) {
            Some(i) => Some(s[i].1),
            None => None,
        }),
    decreases s.len() - from,
{
    if from < s.len() {
        lemma_field_of_index(s, key, from + 1);
    }
}

/// A name above every name of the pairs is new, and goes behind them all.
pub proof fn lemma_insert_above<T>(s: Seq<(Seq<char>, T)>, key: Seq<char>, value: T)
    requires
        forall|i: int| 0 <= i < s.len() ==> text_lt((#[trigger] s[i]).0, key),
    ensures
        assoc_insert(s, key, value) == s.push((key, value)),
{
    lemma_above_from(s, key, 0);
    assert(s.insert(s.len() as int, (key, value)) =~= s.push((key, value)));
}

proof fn lemma_above_from<T>(s: Seq<(Seq<char>, T)>, key: Seq<char>, from: int)
    requires
        forall|i: int| 0 <= i < s.len() ==> text_lt((#[trigger] s[i]).0, key),
        0 <= from <= s.len(),
    ensures
        assoc_index(s, key, from) is None,
        assoc_point(s, key, from) == s.len(),
    decreases s.len() - from,
{
    if from < s.len() {
        assert(text_lt(s[from].0, key));
        lemma_text_trichotomy(s[from].0, key);
        lemma_above_from(s, key, from + 1);
    }
}

/// `RedBlackTreeMapSync::new_sync`: a map without names.
#[verifier::external_body]
pub(crate) fn map_new() -> (m: ValueMap)
    ensures
        held_entries(m) == Seq::<(Seq<char>, ValueView)>::empty(),
{
    ValueMap { inner: RedBlackTreeMapSync::new_sync() }
}

/// `RedBlackTreeMap::insert`: a map in which `key` names `value` and every
/// other name is as in `m`. A name that `m` has keeps its place; a new one
/// stands before the first name that is not below it.
#[verifier::external_body]
pub(crate) fn map_insert(m: &ValueMap, key: String, value: VmValue) -> (next: ValueMap)
    ensures
        held_entries(next) == assoc_insert(held_entries(*m), key@, value@),
{
    ValueMap { inner: m.inner.insert(key, value) }
}

/// `RedBlackTreeMap::remove`: a map without the name `key`, and with every
/// other name as in `m`.
#[verifier::external_body]
pub(crate) fn map_remove(m: &ValueMap, key: &str) -> (next: ValueMap)
    ensures
        held_entries(next) == assoc_remove(held_entries(*m), key@),
{
    ValueMap { inner: m.inner.remove(key) }
}

/// `RedBlackTreeMap::get`: the value under the name `key`, if the map has
/// that name.
#[verifier::external_body]
pub(crate) fn map_get<'a>(m: &'a ValueMap, key: &str) -> (found: Option<&'a VmValue>)
    ensures
        match found {
            Some(v) => assoc_get(held_entries(*m), key@) == Some(v@),
            None => assoc_get(held_entries(*m), key@) is None,
        },
{
    m.inner.get(key)
}

/// `RedBlackTreeMap::keys`: the names of the map in their order, which is
/// the order of `String`: each name is below every later one.
#[verifier::external_body]
pub(crate) fn map_names(m: &ValueMap) -> (names: Vec<String>)
    ensures
        names@.len() == held_entries(*m).len(),
        forall|i: int| 0 <= i < names@.len() ==> (#[trigger] names@[i])@ == held_entries(*m)[i].0,
        forall|i: int, j: int|
            0 <= i < j < names@.len() ==> text_lt((#[trigger] names@[i])@, (#[trigger] names@[j])@),
{
    m.inner.keys().cloned().collect()
}

/// `Clone::clone` of the map: a map with the same names and values.
#[verifier::external_body]
pub(crate) fn map_clone(m: &ValueMap) -> (copy: ValueMap)
    ensures
        held_entries(copy) == held_entries(*m),
{
    ValueMap { inner: m.inner.clone() }
}

/// `RedBlackTreeMapSync::new_sync`: a map of types without names.
#[verifier::external_body]
pub(crate) fn types_new() -> (m: TypeMap)
    ensures
        held_types(m) == Seq::<(Seq<char>, TypeView)>::empty(),
{
    TypeMap { inner: RedBlackTreeMapSync::new_sync() }
}

/// `RedBlackTreeMap::insert`: a map in which `key` names `ty` and every
/// other name is as in `m`. A name that `m` has keeps its place; a new one
/// stands before the first name that is not below it.
#[verifier::external_body]
pub(crate) fn types_insert(m: &TypeMap, key: String, ty: VmType) -> (next: TypeMap)
    ensures
        held_types(next) == assoc_insert(held_types(*m), key@, ty@),
{
    TypeMap { inner: m.inner.insert(key, ty) }
}

/// `RedBlackTreeMap::get`: the type under the name `key`, if the map has
/// that name.
#[verifier::external_body]
pub(crate) fn types_get<'a>(m: &'a TypeMap, key: &str) -> (found: Option<&'a VmType>)
    ensures
        match found {
            Some(ty) => assoc_get(held_types(*m), key@) == Some(ty@),
            None => assoc_get(held_types(*m), key@) is None,
        },
{
    m.inner.get(key)
}

/// `RedBlackTreeMap::keys`: the names of the map in their order, which is
/// the order of `String`: each name is below every later one.
#[verifier::external_body]
pub(crate) fn types_names(m: &TypeMap) -> (names: Vec<String>)
    ensures
        names@.len() == held_types(*m).len(),
        forall|i: int| 0 <= i < names@.len() ==> (#[trigger] names@[i])@ == held_types(*m)[i].0,
        forall|i: int, j: int|
            0 <= i < j < names@.len() ==> text_lt((#[trigger] names@[i])@, (#[trigger] names@[j])@),
{
    m.inner.keys().cloned().collect()
}

/// `Clone::clone` of the map: a map with the same names and types.
#[verifier::external_body]
pub(crate) fn types_clone(m: &TypeMap) -> (copy: TypeMap)
    ensures
        held_types(copy) == held_types(*m),
{
    TypeMap { inner: m.inner.clone() }
}

/// `ListSync::new_sync`: a list without items.
#[verifier::external_body]
pub(crate) fn list_new() -> (l: ValueList)
    ensures
        held_items(l) == Seq::<ValueView>::empty(),
{
    ValueList { inner: ListSync::new_sync() }
}

/// `List::push_front`: a list with `value` as its head and the items of `l`
/// after it.
#[verifier::external_body]
pub(crate) fn list_push_front(l: &ValueList, value: VmValue) -> (next: ValueList)
    ensures
        held_items(next) == seq![value@] + held_items(*l),
{
    ValueList { inner: l.inner.push_front(value) }
}

/// `List::drop_first`: the list without its head, if it has one.
#[verifier::external_body]
pub(crate) fn list_drop_first(l: &ValueList) -> (rest: Option<ValueList>)
    ensures
        match rest {
            Some(r) => held_items(*l).len() > 0 && held_items(r) == held_items(*l).subrange(
                1,
                held_items(*l).len() as int,
            ),
            None => held_items(*l).len() == 0,
        },
{
    l.inner.drop_first().map(|inner| ValueList { inner })
}

/// `List::first`: the head of the list, if it has one.
#[verifier::external_body]
pub(crate) fn list_first(l: &ValueList) -> (head: Option<&VmValue>)
    ensures
        match head {
            Some(v) => held_items(*l).len() > 0 && v@ == held_items(*l)[0],
            None => held_items(*l).len() == 0,
        },
{
    l.inner.first()
}

/// `Clone::clone` of the list: a list with the same items.
#[verifier::external_body]
pub(crate) fn list_clone(l: &ValueList) -> (copy: ValueList)
    ensures
        held_items(copy) == held_items(*l),
{
    ValueList { inner: l.inner.clone() }
}

impl ValueMap {
    /// A map without names.
    pub fn new() -> (m: ValueMap)
        ensures
            held_entries(m) == Seq::<(Seq<char>, ValueView)>::empty(),
    {
        map_new()
    }

    /// The map with `value` under `key`.
    pub fn with(&self, key: String, value: VmValue) -> (next: ValueMap)
        ensures
            held_entries(next) == assoc_insert(held_entries(*self), key@, value@),
    {
        map_insert(self, key, value)
    }

    /// The map without `key`.
    pub fn without(&self, key: &str) -> (next: ValueMap)
        ensures
            held_entries(next) == assoc_remove(held_entries(*self), key@),
    {
        map_remove(self, key)
    }

    /// The value under `key`.
    pub fn get<'a>(&'a self, key: &str) -> (found: Option<&'a VmValue>)
        ensures
            match found {
                Some(v) => assoc_get(held_entries(*self), key@) == Some(v@),
                None => assoc_get(held_entries(*self), key@) is None,
            },
    {
        map_get(self, key)
    }

    /// The names in their order.
    pub fn names(&self) -> (names: Vec<String>)
        ensures
            names@.len() == held_entries(*self).len(),
            forall|i: int| 0 <= i < names@.len() ==> (#[trigger] names@[i])@ == held_entries(*self)[i].0,
            names_rise(held_entries(*self)),
    {
        let names = map_names(self);
        proof {
            let held = held_entries(*self);
            assert forall|i: int, j: int| 0 <= i < j < held.len() implies text_lt(
                (#[trigger] held[i]).0,
                (#[trigger] held[j]).0,
            ) by {
                assert(names@[i]@ == held[i].0);
                assert(names@[j]@ == held[j].0);
            }
        }
        names
    }

    /// A map with the same names and values.
    pub fn duplicate(&self) -> (copy: ValueMap)
        ensures
            held_entries(copy) == held_entries(*self),
    {
        map_clone(self)
    }
}

impl TypeMap {
    /// A map without names.
    pub fn new() -> (m: TypeMap)
        ensures
            held_types(m) == Seq::<(Seq<char>, TypeView)>::empty(),
    {
        types_new()
    }

    /// The map with `ty` under `key`.
    pub fn with(&self, key: String, ty: VmType) -> (next: TypeMap)
        ensures
            held_types(next) == assoc_insert(held_types(*self), key@, ty@),
    {
        types_insert(self, key, ty)
    }

    /// The type under `key`.
    pub fn get<'a>(&'a self, key: &str) -> (found: Option<&'a VmType>)
        ensures
            match found {
                Some(ty) => field_of(held_types(*self), key@, 0) == Some(ty@),
                None => field_of(held_types(*self), key@, 0) is None,
            },
    {
        proof {
            lemma_field_of_index(held_types(*self), key@, 0);
        }
        types_get(self, key)
    }

    /// The names in their order.
    pub fn names(&self) -> (names: Vec<String>)
        ensures
            names@.len() == held_types(*self).len(),
            forall|i: int| 0 <= i < names@.len() ==> (#[trigger] names@[i])@ == held_types(*self)[i].0,
            names_rise(held_types(*self)),
    {
        let names = types_names(self);
        proof {
            let held = held_types(*self);
            assert forall|i: int, j: int| 0 <= i < j < held.len() implies text_lt(
                (#[trigger] held[i]).0,
                (#[trigger] held[j]).0,
            ) by {
                assert(names@[i]@ == held[i].0);
                assert(names@[j]@ == held[j].0);
            }
        }
        names
    }

    /// A map with the same names and types.
    pub fn duplicate(&self) -> (copy: TypeMap)
        ensures
            held_types(copy) == held_types(*self),
    {
        types_clone(self)
    }
}

impl ValueList {
    /// A list without items.
    pub fn new() -> (l: ValueList)
        ensures
            held_items(l) == Seq::<ValueView>::empty(),
    {
        list_new()
    }

    /// The list with `value` before its head.
    pub fn prepend(&self, value: VmValue) -> (next: ValueList)
        ensures
            held_items(next) == seq![value@] + held_items(*self),
    {
        list_push_front(self, value)
    }

    /// The list without its head, if it has one.
    pub fn tail(&self) -> (rest: Option<ValueList>)
        ensures
            match rest {
                Some(r) => held_items(*self).len() > 0 && held_items(r) == held_items(*self).subrange(
                    1,
                    held_items(*self).len() as int,
                ),
                None => held_items(*self).len() == 0,
            },
    {
        list_drop_first(self)
    }

    /// The head, if the list has one.
    pub fn head(&self) -> (head: Option<&VmValue>)
        ensures
            match head {
                Some(v) => held_items(*self).len() > 0 && v@ == held_items(*self)[0],
                None => held_items(*self).len() == 0,
            },
    {
        list_first(self)
    }

    /// A list with the same items.
    pub fn duplicate(&self) -> (copy: ValueList)
        ensures
            held_items(copy) == held_items(*self),
    {
        list_clone(self)
    }

    /// The items, head first.
    pub fn items(&self) -> (items: Vec<VmValue>)
        ensures
            items@.len() == held_items(*self).len(),
            forall|i: int| 0 <= i < items@.len() ==> (#[trigger] items@[i])@ == held_items(*self)[i],
    {
        let mut items: Vec<VmValue> = Vec::new();
        let mut rest = list_clone(self);
        let ghost all = held_items(*self);
        loop
            invariant
                all == held_items(*self),
                items@.len() <= all.len(),
                held_items(rest) == all.subrange(items@.len() as int, all.len() as int),
                forall|i: int| 0 <= i < items@.len() ==> (#[trigger] items@[i])@ == all[i],
            ensures
                items@.len() == all.len(),
            decreases all.len() - items@.len(),
        {
            let head = match list_first(&rest) {
                Some(v) => v.duplicate(),
                None => { break; },
            };
            let next = match list_drop_first(&rest) {
                Some(r) => r,
                None => { break; },
            };
            proof {
                assert(held_items(next) =~= all.subrange(items@.len() as int + 1, all.len() as int));
            }
            items.push(head);
            rest = next;
        }
        items
    }
}

} // verus!
