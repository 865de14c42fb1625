//! The compiled schema as the core reads it: named record types with their
//! fields and annotations, and the exported roots.

use vstd::prelude::*;
use crate::bytes::str_eq;
use crate::strmap::StrMap;

verus! {

#[derive(Clone, Copy, PartialEq, Eq, Structural, Debug)]
pub enum PrimitiveType {
    Int64,
    Double,
    String,
    Bytes,
    Bool,
}

/// The type of a field or of an export.
#[derive(Debug)]
pub enum FieldType {
    Optional(Box<FieldType>),
    /// A record type of the schema, by name.
    Named(String),
    Primitive(PrimitiveType),
    /// A set whose members have the inner type.
    SetOf(Box<FieldType>),
}

/// A field type as a value: names as text.
pub enum FieldTypeView {
    Optional(Box<FieldTypeView>),
    Named(Seq<char>),
    Primitive(PrimitiveType),
    SetOf(Box<FieldTypeView>),
}

/// The value that a field type stands for.
pub open spec fn field_type_view(ty: FieldType) -> FieldTypeView
    decreases ty,
{
    match ty {
        FieldType::Optional(inner) => FieldTypeView::Optional(Box::new(field_type_view(*inner))),
        FieldType::Named(name) => FieldTypeView::Named(name@),
        FieldType::Primitive(p) => FieldTypeView::Primitive(p),
        FieldType::SetOf(inner) => FieldTypeView::SetOf(Box::new(field_type_view(*inner))),
    }
}

impl View for FieldType {
    type V = FieldTypeView;

    open spec fn view(&self) -> FieldTypeView {
        field_type_view(*self)
    }
}

#[derive(Debug)]
pub enum FieldAnnotation {
    /// The field is the primary key of a set member.
    Primary,
    /// The whole subtree under the field is stored as one value.
    Packed,
    /// The field was called by this name in an earlier schema.
    RenameFrom(String),
}

/// A field of a record type: its type and its annotations.
#[derive(Debug)]
pub struct FieldDef {
    pub ty: FieldType,
    pub annotations: Vec<FieldAnnotation>,
}

/// A record type with every type parameter filled in.
#[derive(Debug)]
pub struct SpecializedType {
    pub name: String,
    pub fields: StrMap<FieldDef>,
}

#[derive(Debug)]
pub struct CompiledSchema {
    pub types: StrMap<SpecializedType>,
    pub exports: StrMap<FieldType>,
}

/// Whether the annotations mark the field as packed.
pub open spec fn is_packed(annotations: Seq<FieldAnnotation>) -> bool {
    exists|i: int| 0 <= i < annotations.len() && #[trigger] annotations[i] is Packed
}

/// Whether the annotations mark the field as a primary key.
pub open spec fn is_primary(annotations: Seq<FieldAnnotation>) -> bool {
    exists|i: int| 0 <= i < annotations.len() && #[trigger] annotations[i] is Primary
}

/// The earlier names that the annotations from `from` on give, in order.
pub open spec fn renamed_from(annotations: Seq<FieldAnnotation>, from: int) -> Seq<Seq<char>>
    decreases annotations.len() - from,
{
    if 0 <= from < annotations.len() {
        match annotations[from] {
            FieldAnnotation::RenameFrom(previous) => seq![previous@] + renamed_from(annotations, from + 1),
            _ => renamed_from(annotations, from + 1),
        }
    } else {
        seq![]
    }
}

/// The names under which a field may stand in an earlier plan: its own name
/// first, then each earlier name in annotation order.
pub open spec fn alt_names(name: Seq<char>, annotations: Seq<FieldAnnotation>) -> Seq<Seq<char>> {
    seq![name] + renamed_from(annotations, 0)
}

pub fn has_packed(annotations: &Vec<FieldAnnotation>) -> (yes: bool)
    ensures
        yes == is_packed(annotations@),
{
    let mut i: usize = 0;
    while i < annotations.len()
        invariant
            i <= annotations.len(),
            forall|j: int| 0 <= j < i ==> !(annotations@[j] is Packed),
        decreases annotations.len() - i,
    {
        if let FieldAnnotation::Packed = annotations[i] {
            return true;
        }
        i += 1;
    }
    false
}

pub fn has_primary(annotations: &Vec<FieldAnnotation>) -> (yes: bool)
    ensures
        yes == is_primary(annotations@),
{
    let mut i: usize = 0;
    while i < annotations.len()
        invariant
            i <= annotations.len(),
            forall|j: int| 0 <= j < i ==> !(annotations@[j] is Primary),
        decreases annotations.len() - i,
    {
        if let FieldAnnotation::Primary = annotations[i] {
            return true;
        }
        i += 1;
    }
    false
}

impl FieldType {
    /// Whether two field types are the same type.
    pub fn same_as(&self, other: &FieldType) -> (same: bool)
        ensures
            same == (self@ == other@),
        decreases self,
    {
        match (self, other) {
            (FieldType::Optional(a), FieldType::Optional(b)) => a.same_as(b),
            (FieldType::Named(a), FieldType::Named(b)) => str_eq(a.as_str(), b.as_str()),
            (FieldType::Primitive(a), FieldType::Primitive(b)) => *a == *b,
            (FieldType::SetOf(a), FieldType::SetOf(b)) => a.same_as(b),
            _ => false,
        }
    }

    /// A copy of the type.
    pub fn duplicate(&self) -> (copy: FieldType)
        ensures
            copy@ == self@,
        decreases self,
    {
        match self {
            FieldType::Optional(inner) => FieldType::Optional(Box::new(inner.duplicate())),
            FieldType::Named(name) => FieldType::Named(name.clone()),
            FieldType::Primitive(p) => FieldType::Primitive(*p),
            FieldType::SetOf(inner) => FieldType::SetOf(Box::new(inner.duplicate())),
        }
    }
}

impl SpecializedType {
    /// A record type without fields.
    pub fn new(name: String) -> (ty: Self)
        ensures
            ty.name == name,
            ty.fields.entries@.len() == 0,
    {
        SpecializedType { name, fields: StrMap::new() }
    }

    /// Adds a field, or replaces the field of that name.
    pub fn add_field(&mut self, name: String, ty: FieldType, annotations: Vec<FieldAnnotation>)
        ensures
            final(self).name == old(self).name,
            final(self).fields.to_map() == old(self).fields.to_map().insert(
                name@,
                FieldDef { ty, annotations },
            ),
            old(self).fields.sorted() ==> final(self).fields.sorted(),
    {
        self.fields.insert(name, FieldDef { ty, annotations });
    }
}

impl CompiledSchema {
    /// Types are filed under their own names, and no name occurs twice among
    /// the types, the exports, or the fields of one type.
    pub open spec fn wf(self) -> bool {
        &&& self.types.sorted()
        &&& self.exports.sorted()
        &&& forall|t: int|
            0 <= t < self.types.entries@.len() ==> {
                &&& (#[trigger] self.types.entries@[t]).key@ == self.types.entries@[t].value.name@
                &&& self.types.entries@[t].value.fields.sorted()
            }
    }

    /// The schema without types and exports.
    pub fn new() -> (schema: Self)
        ensures
            schema.types.entries@.len() == 0,
            schema.exports.entries@.len() == 0,
            schema.wf(),
    {
        CompiledSchema { types: StrMap::new(), exports: StrMap::new() }
    }

    /// Files a record type under its name, in place of any type of that name.
    pub fn add_type(&mut self, ty: SpecializedType)
        ensures
            final(self).exports == old(self).exports,
            final(self).types.to_map() == old(self).types.to_map().insert(ty.name@, ty),
            old(self).wf() && ty.fields.sorted() ==> final(self).wf(),
    {
        let name = ty.name.clone();
        let ghost before = *self;
        self.types.insert(name, ty);
        proof {
            if before.wf() && ty.fields.sorted() {
                crate::strmap::lemma_first_index(before.types.entries@, ty.name@, 0);
                assert forall|t: int| 0 <= t < self.types.entries@.len() implies {
                    &&& (#[trigger] self.types.entries@[t]).key@ == self.types.entries@[t].value.name@
                    &&& self.types.entries@[t].value.fields.sorted()
                } by {
                    match before.types.index_of(ty.name@) {
                        Some(i) => {
                            if t != i {
                                assert(self.types.entries@[t] == before.types.entries@[t]);
                            }
                        },
                        None => {
                            let at = crate::strmap::insertion_point_from(before.types.entries@, ty.name@, 0);
                            crate::strmap::lemma_insertion_point(before.types.entries@, ty.name@, 0);
                            if t < at {
                                assert(self.types.entries@[t] == before.types.entries@[t]);
                            } else if t > at {
                                assert(self.types.entries@[t] == before.types.entries@[t - 1]);
                            }
                        },
                    }
                }
            }
        }
    }

    /// Exports a root under `name`, in place of any export of that name.
    pub fn add_export(&mut self, name: String, ty: FieldType)
        ensures
            final(self).types == old(self).types,
            final(self).exports.to_map() == old(self).exports.to_map().insert(name@, ty),
            old(self).wf() ==> final(self).wf(),
    {
        self.exports.insert(name, ty);
    }
}

} // verus!
