//! The value model of the VM: types, constants and run-time values.

use vstd::prelude::*;
use crate::bytes::{bytes_eq, bytes_lt, lex_lt, str_eq, text_lt};
use crate::pathwalker::{PathWalker, WalkerView};
use crate::value::{copy_bytes, key_component, type_of_primitive, PrimitiveValue, PrimitiveView};
use crate::schema::{
    has_primary, is_primary, CompiledSchema, FieldDef, FieldType, FieldTypeView, PrimitiveType,
};
use crate::strmap::{first_index_from, insertion_point_from, lemma_first_index, Entry, StrMap};
use super::shared::{
    held_entries, held_items, held_types, lemma_assoc_get_at, lemma_field_of_index, lemma_insert_above, names_rise,
    TypeMap, ValueList, ValueMap,
};

verus! {

#[derive(Debug)]
pub struct VmTableType {
    pub name: String,
}

#[derive(Debug)]
pub struct VmSetType {
    pub ty: Box<VmType>,
}

#[derive(Debug)]
pub enum VmType {
    Primitive(PrimitiveType),
    Table(VmTableType),
    SetOf(VmSetType),
    Null,
    /// VM-only.
    Bool,
    /// VM-only.
    List(Box<VmType>),
    /// VM-only: a map with these fields.
    MapOf(TypeMap),
    /// Any one of these types.
    OneOf(Vec<VmType>),
    /// A type that inference has not found yet.
    Unknown,
    /// The type of the schema's root.
    Schema,
}

/// A VM type as a value.
pub enum TypeView {
    Primitive(PrimitiveType),
    Table(Seq<char>),
    SetOf(Box<TypeView>),
    Null,
    Bool,
    List(Box<TypeView>),
    MapOf(Seq<(Seq<char>, TypeView)>),
    OneOf(Seq<TypeView>),
    Unknown,
    Schema,
}

/// The value that a VM type stands for.
pub open spec fn type_view(ty: VmType) -> TypeView
    decreases ty,
{
    match ty {
        VmType::Primitive(p) => TypeView::Primitive(p),
        VmType::Table(t) => TypeView::Table(t.name@),
        VmType::SetOf(s) => TypeView::SetOf(Box::new(type_view(*s.ty))),
        VmType::Null => TypeView::Null,
        VmType::Bool => TypeView::Bool,
        VmType::List(inner) => TypeView::List(Box::new(type_view(*inner))),
        VmType::MapOf(m) => TypeView::MapOf(held_types(m)),
        VmType::OneOf(options) => TypeView::OneOf(
            Seq::new(
                options@.len(),
                |i: int|
                    if 0 <= i < options@.len() {
                        type_view(options@[i])
                    } else {
                        TypeView::Unknown
                    },
            ),
        ),
        VmType::Unknown => TypeView::Unknown,
        VmType::Schema => TypeView::Schema,
    }
}

impl View for VmType {
    type V = TypeView;

    open spec fn view(&self) -> TypeView {
        type_view(*self)
    }
}

/// The options of a `OneOf` as values.
pub open spec fn type_options(options: Seq<VmType>) -> Seq<TypeView> {
    Seq::new(options.len(), |i: int| type_view(options[i]))
}

pub proof fn lemma_one_of_type_view(options: Vec<VmType>)
    ensures
        type_view(VmType::OneOf(options)) == TypeView::OneOf(type_options(options@)),
{
    assert(type_view(VmType::OneOf(options))->OneOf_0 =~= type_options(options@));
}

/// The type under the first of `fields` named `key`.
pub open spec fn field_of(fields: Seq<(Seq<char>, TypeView)>, key: Seq<char>, from: int) -> Option<TypeView>
    decreases fields.len() - from,
{
    if 0 <= from < fields.len() {
        if fields[from].0 == key {
            Some(fields[from].1)
        } else {
            field_of(fields, key, from + 1)
        }
    } else {
        None
    }
}

/// Two lists of types hold the same types, in whatever order and number.
pub open spec fn same_elements(xs: Seq<TypeView>, ys: Seq<TypeView>) -> bool {
    &&& forall|i: int| 0 <= i < xs.len() ==> ys.contains(#[trigger] xs[i])
    &&& forall|j: int| 0 <= j < ys.len() ==> xs.contains(#[trigger] ys[j])
}

/// A value of type `b` may stand where a value of type `a` is expected:
/// - the types are the same; or
/// - `a` is a `OneOf` with an option that `b` may stand for, or `b` is a
///   `OneOf` of the same options; or
/// - both are maps, and `b` has every field of `a` with a type that may stand
///   for the field's type in `a`.
pub open spec fn covariant(a: TypeView, b: TypeView) -> bool
    decreases a,
{
    if a == b {
        true
    } else {
        match a {
            TypeView::OneOf(xs) => some_option_covers(xs, b) || (b matches TypeView::OneOf(ys) && same_elements(
                xs,
                ys,
            )),
            TypeView::MapOf(fx) => b matches TypeView::MapOf(fy) && fields_covered(fx, fy),
            _ => false,
        }
    }
}

/// A value of type `b` may stand for one of the options `xs`.
pub open spec fn some_option_covers(xs: Seq<TypeView>, b: TypeView) -> bool
    decreases xs,
{
    exists|i: int| 0 <= i < xs.len() && covariant(#[trigger] xs[i], b)
}

/// The map type with the fields `fy` has every field of `fx`, with a type
/// that may stand for the field's type in `fx`.
pub open spec fn fields_covered(fx: Seq<(Seq<char>, TypeView)>, fy: Seq<(Seq<char>, TypeView)>) -> bool
    decreases fx,
{
    forall|i: int|
        0 <= i < fx.len() ==> (field_of(fy, (#[trigger] fx[i]).0, 0) matches Some(vy) && covariant(
            fx[i].1,
            vy,
        ))
}

/// The fields of the type of a schema's root after the first `upto` exports:
/// every export by its name, with the VM type of its field type.
pub open spec fn schema_fields(schema: CompiledSchema, upto: int) -> Seq<(Seq<char>, TypeView)>
    decreases upto,
{
    if 0 < upto <= schema.exports.entries@.len() {
        assoc_insert(
            schema_fields(schema, upto - 1),
            schema.exports.entries@[upto - 1].key@,
            vm_type_of_field(schema.exports.entries@[upto - 1].value@),
        )
    } else {
        seq![]
    }
}

/// The VM type of a field type: an optional field may hold null, a record is
/// a table.
pub open spec fn vm_type_of_field(field: FieldTypeView) -> TypeView
    decreases field,
{
    match field {
        FieldTypeView::Optional(inner) => TypeView::OneOf(seq![TypeView::Null, vm_type_of_field(*inner)]),
        FieldTypeView::Primitive(p) => TypeView::Primitive(p),
        FieldTypeView::Named(name) => TypeView::Table(name),
        FieldTypeView::SetOf(inner) => TypeView::SetOf(Box::new(vm_type_of_field(*inner))),
    }
}

impl VmType {
    pub fn is_null(&self) -> (yes: bool)
        ensures
            yes == (self@ == TypeView::Null),
    {
        match self {
            VmType::Null => true,
            _ => false,
        }
    }

    /// Whether two types are the same type.
    pub fn same_as(&self, other: &VmType) -> (same: bool)
        ensures
            same == (self@ == other@),
        decreases self@,
    {
        match (self, other) {
            (VmType::Primitive(a), VmType::Primitive(b)) => *a == *b,
            (VmType::Table(a), VmType::Table(b)) => str_eq(a.name.as_str(), b.name.as_str()),
            (VmType::SetOf(a), VmType::SetOf(b)) => {
                proof {
                    assert(decreases_to!(self@ => *self@->SetOf_0));
                }
                a.ty.same_as(&b.ty)
            },
            (VmType::Null, VmType::Null) => true,
            (VmType::Bool, VmType::Bool) => true,
            (VmType::List(a), VmType::List(b)) => {
                proof {
                    assert(decreases_to!(self@ => *self@->List_0));
                }
                a.same_as(b)
            },
            (VmType::MapOf(a), VmType::MapOf(b)) => {
                let xs = a.names();
                let ys = b.names();
                let ghost x = held_types(*a);
                let ghost y = held_types(*b);
                if xs.len() != ys.len() {
                    return false;
                }
                let mut i: usize = 0;
                while i < xs.len()
                    invariant
                        i <= xs.len(),
                        xs.len() == ys.len(),
                        x == held_types(*a),
                        y == held_types(*b),
                        self@ == TypeView::MapOf(x),
                        other@ == TypeView::MapOf(y),
                        xs@.len() == x.len(),
                        ys@.len() == y.len(),
                        forall|j: int| 0 <= j < xs@.len() ==> (#[trigger] xs@[j])@ == x[j].0,
                        forall|j: int| 0 <= j < ys@.len() ==> (#[trigger] ys@[j])@ == y[j].0,
                        names_rise(x),
                        names_rise(y),
                        forall|j: int| 0 <= j < i ==> x[j] == y[j],
                    decreases xs.len() - i,
                {
                    proof {
                        lemma_assoc_get_at(x, i as int);
                        lemma_assoc_get_at(y, i as int);
                        lemma_field_of_index(x, x[i as int].0, 0);
                        lemma_field_of_index(y, y[i as int].0, 0);
                        assert(xs@[i as int]@ == x[i as int].0);
                        assert(ys@[i as int]@ == y[i as int].0);
                    }
                    if !str_eq(xs[i].as_str(), ys[i].as_str()) {
                        assert(x[i as int] != y[i as int]);
                        return false;
                    }
                    let p = a.get(xs[i].as_str());
                    let q = b.get(ys[i].as_str());
                    match (p, q) {
                        (Some(p), Some(q)) => {
                            proof {
                                assert(decreases_to!(self@ => self@->MapOf_0));
                                assert(decreases_to!(x => x[i as int]));
                            }
                            if !p.same_as(q) {
                                assert(x[i as int] != y[i as int]);
                                return false;
                            }
                        },
                        _ => {
                            assert(false);
                            return false;
                        },
                    }
                    assert(x[i as int] == y[i as int]);
                    i += 1;
                }
                assert(x =~= y);
                true
            },
            (VmType::OneOf(a), VmType::OneOf(b)) => {
                proof {
                    lemma_one_of_type_view(*a);
                    lemma_one_of_type_view(*b);
                }
                if a.len() != b.len() {
                    assert(type_options(a@).len() != type_options(b@).len());
                    return false;
                }
                let mut i: usize = 0;
                while i < a.len()
                    invariant
                        i <= a.len(),
                        a.len() == b.len(),
                        self matches VmType::OneOf(xs) && xs@ == a@,
                        self@ == TypeView::OneOf(type_options(a@)),
                        other@ == TypeView::OneOf(type_options(b@)),
                        forall|j: int| 0 <= j < i ==> type_options(a@)[j] == type_options(b@)[j],
                    decreases a.len() - i,
                {
                    proof {
                        let options = type_options(a@);
                        assert(decreases_to!(self@ => self@->OneOf_0));
                        assert(decreases_to!(options => options[i as int]));
                    }
                    if !a[i].same_as(&b[i]) {
                        assert(type_options(a@)[i as int] != type_options(b@)[i as int]);
                        return false;
                    }
                    i += 1;
                }
                assert(type_options(a@) =~= type_options(b@));
                true
            },
            (VmType::Unknown, VmType::Unknown) => true,
            (VmType::Schema, VmType::Schema) => true,
            _ => false,
        }
    }

    /// A copy of the type.
    pub fn duplicate(&self) -> (copy: VmType)
        ensures
            copy@ == self@,
        decreases self,
    {
        match self {
            VmType::Primitive(p) => VmType::Primitive(*p),
            VmType::Table(t) => VmType::Table(VmTableType { name: t.name.clone() }),
            VmType::SetOf(s) => VmType::SetOf(VmSetType { ty: Box::new(s.ty.duplicate()) }),
            VmType::Null => VmType::Null,
            VmType::Bool => VmType::Bool,
            VmType::List(inner) => VmType::List(Box::new(inner.duplicate())),
            VmType::MapOf(m) => VmType::MapOf(m.duplicate()),
            VmType::OneOf(options) => {
                let mut copies: Vec<VmType> = Vec::new();
                let mut i: usize = 0;
                while i < options.len()
                    invariant
                        i <= options.len(),
                        self matches VmType::OneOf(x) && x@ == options@,
                        copies@.len() == i,
                        forall|j: int| 0 <= j < i ==> type_view(copies@[j]) == type_view(options@[j]),
                    decreases options.len() - i,
                {
                    copies.push(options[i].duplicate());
                    i += 1;
                }
                proof {
                    lemma_one_of_type_view(*options);
                    lemma_one_of_type_view(copies);
                    assert(type_options(copies@) =~= type_options(options@));
                }
                VmType::OneOf(copies)
            },
            VmType::Unknown => VmType::Unknown,
            VmType::Schema => VmType::Schema,
        }
    }

    /// The type of a schema's root: a map with a field for every export.
    pub fn of_schema(schema: &CompiledSchema) -> (ty: VmType)
        ensures
            ty@ == TypeView::MapOf(schema_fields(*schema, schema.exports.entries@.len() as int)),
    {
        let mut fields = TypeMap::new();
        let mut i: usize = 0;
        while i < schema.exports.entries.len()
            invariant
                i <= schema.exports.entries@.len(),
                held_types(fields) == schema_fields(*schema, i as int),
            decreases schema.exports.entries.len() - i,
        {
            let export = &schema.exports.entries[i];
            fields = fields.with(export.key.clone(), VmType::from_field_type(&export.value));
            i += 1;
        }
        VmType::MapOf(fields)
    }

    /// The VM type of a field type.
    pub fn from_field_type(field: &FieldType) -> (ty: VmType)
        ensures
            ty@ == vm_type_of_field(field@),
        decreases field,
    {
        match field {
            FieldType::Optional(inner) => {
                let mut options: Vec<VmType> = Vec::new();
                options.push(VmType::Null);
                options.push(VmType::from_field_type(inner));
                proof {
                    lemma_one_of_type_view(options);
                    assert(type_options(options@) =~= seq![TypeView::Null, vm_type_of_field(inner@)]);
                }
                VmType::OneOf(options)
            },
            FieldType::Primitive(p) => VmType::Primitive(*p),
            FieldType::Named(name) => VmType::Table(VmTableType { name: name.clone() }),
            FieldType::SetOf(inner) => VmType::SetOf(VmSetType { ty: Box::new(VmType::from_field_type(inner)) }),
        }
    }
}

/// Whether `list` holds the type `ty`.
pub fn holds_type(list: &Vec<VmType>, ty: &VmType) -> (yes: bool)
    ensures
        yes == type_options(list@).contains(ty@),
{
    let mut i: usize = 0;
    while i < list.len()
        invariant
            i <= list.len(),
            forall|j: int| 0 <= j < i ==> type_options(list@)[j] != ty@,
        decreases list.len() - i,
    {
        if list[i].same_as(ty) {
            assert(type_options(list@)[i as int] == ty@);
            return true;
        }
        i += 1;
    }
    false
}

/// Whether `ys` holds every type of `xs`.
pub fn holds_all(xs: &Vec<VmType>, ys: &Vec<VmType>) -> (yes: bool)
    ensures
        yes == (forall|i: int| 0 <= i < xs@.len() ==> type_options(ys@).contains(#[trigger] type_options(xs@)[i])),
{
    let mut i: usize = 0;
    while i < xs.len()
        invariant
            i <= xs.len(),
            forall|j: int| 0 <= j < i ==> type_options(ys@).contains(#[trigger] type_options(xs@)[j]),
        decreases xs.len() - i,
    {
        if !holds_type(ys, &xs[i]) {
            assert(!type_options(ys@).contains(type_options(xs@)[i as int]));
            return false;
        }
        i += 1;
    }
    true
}

impl VmType {
    /// Whether a value of type `that` may stand where this type is expected.
    pub fn is_covariant_from(&self, that: &VmType) -> (yes: bool)
        ensures
            yes == covariant(self@, that@),
        decreases self@,
    {
        if self.same_as(that) {
            return true;
        }
        match self {
            VmType::OneOf(xs) => {
                proof {
                    lemma_one_of_type_view(*xs);
                }
                let mut i: usize = 0;
                while i < xs.len()
                    invariant
                        i <= xs.len(),
                        self matches VmType::OneOf(x) && x@ == xs@,
                        self@ == TypeView::OneOf(type_options(xs@)),
                        forall|j: int| 0 <= j < i ==> !covariant(#[trigger] type_options(xs@)[j], that@),
                    decreases xs.len() - i,
                {
                    proof {
                        let options = type_options(xs@);
                        assert(decreases_to!(self@ => self@->OneOf_0));
                        assert(decreases_to!(options => options[i as int]));
                    }
                    if xs[i].is_covariant_from(that) {
                        proof {
                            let options = type_options(xs@);
                            assert(covariant(options[i as int], that@));
                            assert(some_option_covers(options, that@));
                        }
                        return true;
                    }
                    i += 1;
                }
                if let VmType::OneOf(ys) = that {
                    proof {
                        lemma_one_of_type_view(*ys);
                    }
                    if holds_all(xs, ys) && holds_all(ys, xs) {
                        return true;
                    }
                }
                false
            },
            VmType::MapOf(fx) => match that {
                VmType::MapOf(fy) => {
                    let xs = fx.names();
                    let ghost x = held_types(*fx);
                    let ghost y = held_types(*fy);
                    let mut i: usize = 0;
                    while i < xs.len()
                        invariant
                            i <= xs.len(),
                            x == held_types(*fx),
                            y == held_types(*fy),
                            self@ == TypeView::MapOf(x),
                            that@ == TypeView::MapOf(y),
                            self@ != that@,
                            xs@.len() == x.len(),
                            forall|j: int| 0 <= j < xs@.len() ==> (#[trigger] xs@[j])@ == x[j].0,
                            names_rise(x),
                            forall|j: int|
                                0 <= j < i ==> (field_of(y, (#[trigger] x[j]).0, 0) matches Some(vy) && covariant(
                                    x[j].1,
                                    vy,
                                )),
                        decreases xs.len() - i,
                    {
                        proof {
                            lemma_assoc_get_at(x, i as int);
                            lemma_field_of_index(x, x[i as int].0, 0);
                            assert(xs@[i as int]@ == x[i as int].0);
                        }
                        let fits = match (fx.get(xs[i].as_str()), fy.get(xs[i].as_str())) {
                            (Some(vx), Some(vy)) => {
                                proof {
                                    assert(decreases_to!(self@ => self@->MapOf_0));
                                    assert(decreases_to!(x => x[i as int]));
                                }
                                vx.is_covariant_from(vy)
                            },
                            _ => false,
                        };
                        if !fits {
                            assert(!(field_of(y, x[i as int].0, 0) matches Some(vy) && covariant(x[i as int].1, vy)));
                            return false;
                        }
                        i += 1;
                    }
                    true
                },
                _ => false,
            },
            _ => false,
        }
    }
}

#[derive(Debug)]
pub enum VmValue {
    Primitive(PrimitiveValue),
    Table(VmTableValue),
    SetOf(VmSetValue),
    /// VM-only.
    Bool(bool),
    /// VM-only.
    MapOf(VmMapValue),
    /// VM-only.
    List(VmListValue),
    /// The absent value of the given type.
    Null(VmType),
}

#[derive(Debug)]
pub struct VmTableValue {
    pub ty: String,
    pub kind: VmTableValueKind,
}

#[derive(Debug)]
pub enum VmTableValueKind {
    /// A table in the store, at the walker's position.
    Resident(PathWalker),
    /// A table held in memory, by its fields.
    Fresh(StrMap<VmValue>),
}

#[derive(Debug)]
pub struct VmSetValue {
    pub member_ty: VmType,
    pub kind: VmSetValueKind,
}

#[derive(Debug)]
pub enum VmSetValueKind {
    /// A set in the store, at the walker's position.
    Resident(PathWalker),
    /// A set held in memory: its members by their primary keys as written in
    /// keys, in the byte order of those.
    Fresh(Vec<SetMember>),
}

#[derive(Debug)]
pub struct SetMember {
    pub key: Vec<u8>,
    pub value: VmValue,
}

#[derive(Debug)]
pub struct VmMapValue {
    pub elements: ValueMap,
}

#[derive(Debug)]
pub struct VmListValue {
    pub member_ty: VmType,
    pub node: ValueList,
}

/// A VM value as a value. A list shows its items head first.
pub enum ValueView {
    Primitive(PrimitiveView),
    ResidentTable { ty: Seq<char>, walker: WalkerView },
    FreshTable { ty: Seq<char>, fields: Seq<(Seq<char>, ValueView)> },
    ResidentSet { member_ty: TypeView, walker: WalkerView },
    FreshSet { member_ty: TypeView, members: Seq<(Seq<u8>, ValueView)> },
    Bool(bool),
    MapOf(Seq<(Seq<char>, ValueView)>),
    List { member_ty: TypeView, items: Seq<ValueView> },
    Null(TypeView),
}

/// The value that a VM value stands for.
pub open spec fn value_view(v: VmValue) -> ValueView
    decreases v,
{
    match v {
        VmValue::Primitive(p) => ValueView::Primitive(p@),
        VmValue::Table(t) => match t.kind {
            VmTableValueKind::Resident(w) => ValueView::ResidentTable { ty: t.ty@, walker: w@ },
            VmTableValueKind::Fresh(fields) => ValueView::FreshTable {
                ty: t.ty@,
                fields: Seq::new(
                    fields.entries@.len(),
                    |i: int|
                        if 0 <= i < fields.entries@.len() {
                            (fields.entries@[i].key@, value_view(fields.entries@[i].value))
                        } else {
                            (Seq::empty(), ValueView::Bool(false))
                        },
                ),
            },
        },
        VmValue::SetOf(s) => match s.kind {
            VmSetValueKind::Resident(w) => ValueView::ResidentSet { member_ty: s.member_ty@, walker: w@ },
            VmSetValueKind::Fresh(members) => ValueView::FreshSet {
                member_ty: s.member_ty@,
                members: Seq::new(
                    members@.len(),
                    |i: int|
                        if 0 <= i < members@.len() {
                            (members@[i].key@, value_view(members@[i].value))
                        } else {
                            (Seq::empty(), ValueView::Bool(false))
                        },
                ),
            },
        },
        VmValue::Bool(b) => ValueView::Bool(b),
        VmValue::MapOf(m) => ValueView::MapOf(held_entries(m.elements)),
        VmValue::List(l) => ValueView::List { member_ty: l.member_ty@, items: held_items(l.node) },
        VmValue::Null(ty) => ValueView::Null(ty@),
    }
}

impl View for VmValue {
    type V = ValueView;

    open spec fn view(&self) -> ValueView {
        value_view(*self)
    }
}

/// Named values as values.
pub open spec fn value_entries(entries: Seq<Entry<VmValue>>) -> Seq<(Seq<char>, ValueView)> {
    Seq::new(entries.len(), |i: int| (entries[i].key@, value_view(entries[i].value)))
}

/// The members of a set as values.
pub open spec fn member_entries(members: Seq<SetMember>) -> Seq<(Seq<u8>, ValueView)> {
    Seq::new(members.len(), |i: int| (members[i].key@, value_view(members[i].value)))
}

pub proof fn lemma_fresh_table_view(ty: String, fields: StrMap<VmValue>)
    ensures
        value_view(VmValue::Table(VmTableValue { ty, kind: VmTableValueKind::Fresh(fields) }))
            == (ValueView::FreshTable { ty: ty@, fields: value_entries(fields.entries@) }),
{
    assert(value_view(
        VmValue::Table(VmTableValue { ty, kind: VmTableValueKind::Fresh(fields) }),
    )->FreshTable_fields =~= value_entries(fields.entries@));
}

pub proof fn lemma_fresh_set_view(member_ty: VmType, members: Vec<SetMember>)
    ensures
        value_view(VmValue::SetOf(VmSetValue { member_ty, kind: VmSetValueKind::Fresh(members) }))
            == (ValueView::FreshSet { member_ty: member_ty@, members: member_entries(members@) }),
{
    assert(value_view(
        VmValue::SetOf(VmSetValue { member_ty, kind: VmSetValueKind::Fresh(members) }),
    )->FreshSet_members =~= member_entries(members@));
}

/// The type of a value. Null has the type `Null`, whatever it is the
/// absence of.
pub open spec fn type_of_value(v: ValueView) -> TypeView
    decreases v,
{
    match v {
        ValueView::Primitive(p) => TypeView::Primitive(type_of_primitive(p)),
        ValueView::ResidentTable { ty, .. } => TypeView::Table(ty),
        ValueView::FreshTable { ty, .. } => TypeView::Table(ty),
        ValueView::ResidentSet { member_ty, .. } => TypeView::SetOf(Box::new(member_ty)),
        ValueView::FreshSet { member_ty, .. } => TypeView::SetOf(Box::new(member_ty)),
        ValueView::Bool(_) => TypeView::Bool,
        ValueView::MapOf(entries) => TypeView::MapOf(
            Seq::new(
                entries.len(),
                |i: int|
                    if 0 <= i < entries.len() {
                        (entries[i].0, type_of_value(entries[i].1))
                    } else {
                        (Seq::empty(), TypeView::Unknown)
                    },
            ),
        ),
        ValueView::List { member_ty, .. } => TypeView::List(Box::new(member_ty)),
        ValueView::Null(_) => TypeView::Null,
    }
}

impl VmType {
    /// The type of a value.
    pub fn of_value(v: &VmValue) -> (ty: VmType)
        ensures
            ty@ == type_of_value(v@),
        decreases v@,
    {
        match v {
            VmValue::Primitive(p) => VmType::Primitive(p.get_type()),
            VmValue::Table(t) => VmType::Table(VmTableType { name: t.ty.clone() }),
            VmValue::SetOf(s) => VmType::SetOf(VmSetType { ty: Box::new(s.member_ty.duplicate()) }),
            VmValue::Bool(_) => VmType::Bool,
            VmValue::MapOf(m) => {
                let names = m.elements.names();
                let ghost held = held_entries(m.elements);
                let mut fields = TypeMap::new();
                let mut i: usize = 0;
                while i < names.len()
                    invariant
                        i <= names.len(),
                        v@ == ValueView::MapOf(held),
                        held == held_entries(m.elements),
                        names@.len() == held.len(),
                        forall|j: int| 0 <= j < names@.len() ==> (#[trigger] names@[j])@ == held[j].0,
                        names_rise(held),
                        held_types(fields).len() == i,
                        forall|j: int|
                            0 <= j < i ==> (#[trigger] held_types(fields)[j]) == (held[j].0, type_of_value(held[j].1)),
                    decreases names.len() - i,
                {
                    proof {
                        lemma_assoc_get_at(held, i as int);
                        assert(names@[i as int]@ == held[i as int].0);
                    }
                    let value = match m.elements.get(names[i].as_str()) {
                        Some(item) => {
                            proof {
                                assert(decreases_to!(v@ => v@->MapOf_0));
                                assert(decreases_to!(held => held[i as int]));
                            }
                            VmType::of_value(item)
                        },
                        None => VmType::Unknown,
                    };
                    proof {
                        let sofar = held_types(fields);
                        assert forall|j: int| 0 <= j < sofar.len() implies text_lt(
                            (#[trigger] sofar[j]).0,
                            names@[i as int]@,
                        ) by {
                            assert(sofar[j].0 == held[j].0);
                            assert(text_lt(held[j].0, held[i as int].0));
                        }
                        lemma_insert_above(sofar, names@[i as int]@, value@);
                    }
                    fields = fields.with(names[i].clone(), value);
                    i += 1;
                }
                proof {
                    assert(held_types(fields) =~= type_of_value(v@)->MapOf_0);
                }
                VmType::MapOf(fields)
            },
            VmValue::List(l) => VmType::List(Box::new(l.member_ty.duplicate())),
            VmValue::Null(_) => VmType::Null,
        }
    }
}

impl VmValue {
    /// Whether the value is a null.
    pub fn is_null(&self) -> (yes: bool)
        ensures
            yes == (self@ is Null),
    {
        match self {
            VmValue::Null(_) => true,
            _ => false,
        }
    }

    pub fn unwrap_table(&self) -> (table: &VmTableValue)
        requires
            self is Table,
        ensures
            *self == VmValue::Table(*table),
    {
        match self {
            VmValue::Table(t) => t,
            _ => vstd::pervasive::unreached(),
        }
    }

    pub fn unwrap_set(&self) -> (set: &VmSetValue)
        requires
            self is SetOf,
        ensures
            *self == VmValue::SetOf(*set),
    {
        match self {
            VmValue::SetOf(s) => s,
            _ => vstd::pervasive::unreached(),
        }
    }

    pub fn unwrap_primitive(&self) -> (primitive: &PrimitiveValue)
        requires
            self is Primitive,
        ensures
            *self == VmValue::Primitive(*primitive),
    {
        match self {
            VmValue::Primitive(p) => p,
            _ => vstd::pervasive::unreached(),
        }
    }

    pub fn unwrap_bool(&self) -> (b: bool)
        requires
            self is Bool,
        ensures
            *self == VmValue::Bool(b),
    {
        match self {
            VmValue::Bool(b) => *b,
            _ => vstd::pervasive::unreached(),
        }
    }

    /// Whether two values are the same value.
    pub fn same_as(&self, other: &VmValue) -> (same: bool)
        ensures
            same == (self@ == other@),
        decreases self@,
    {
        match (self, other) {
            (VmValue::Primitive(a), VmValue::Primitive(b)) => a.same_as(b),
            (VmValue::Bool(a), VmValue::Bool(b)) => *a == *b,
            (VmValue::Null(a), VmValue::Null(b)) => a.same_as(b),
            (VmValue::Table(a), VmValue::Table(b)) => {
                if !str_eq(a.ty.as_str(), b.ty.as_str()) {
                    return false;
                }
                match (&a.kind, &b.kind) {
                    (VmTableValueKind::Resident(x), VmTableValueKind::Resident(y)) => x.same_as(y),
                    (VmTableValueKind::Fresh(x), VmTableValueKind::Fresh(y)) => {
                        proof {
                            lemma_fresh_table_view(a.ty, *x);
                            lemma_fresh_table_view(b.ty, *y);
                        }
                        if x.entries.len() != y.entries.len() {
                            assert(value_entries(x.entries@).len() != value_entries(y.entries@).len());
                            return false;
                        }
                        let mut i: usize = 0;
                        while i < x.entries.len()
                            invariant
                                i <= x.entries.len(),
                                x.entries.len() == y.entries.len(),
                                self matches VmValue::Table(t) && t.kind matches VmTableValueKind::Fresh(f)
                                    && f.entries@ == x.entries@,
                                self@ == (ValueView::FreshTable { ty: a.ty@, fields: value_entries(x.entries@) }),
                                other@ == (ValueView::FreshTable { ty: b.ty@, fields: value_entries(y.entries@) }),
                                forall|j: int|
                                    0 <= j < i ==> value_entries(x.entries@)[j] == value_entries(y.entries@)[j],
                            decreases x.entries.len() - i,
                        {
                            proof {
                                let held = value_entries(x.entries@);
                                assert(decreases_to!(self@ => self@->FreshTable_fields));
                                assert(decreases_to!(held => held[i as int]));
                                assert(held[i as int].1 == x.entries@[i as int].value@);
                            }
                            if !str_eq(x.entries[i].key.as_str(), y.entries[i].key.as_str())
                                || !x.entries[i].value.same_as(&y.entries[i].value) {
                                assert(value_entries(x.entries@)[i as int] != value_entries(y.entries@)[i as int]);
                                return false;
                            }
                            i += 1;
                        }
                        assert(value_entries(x.entries@) =~= value_entries(y.entries@));
                        true
                    },
                    _ => false,
                }
            },
            (VmValue::SetOf(a), VmValue::SetOf(b)) => {
                if !a.member_ty.same_as(&b.member_ty) {
                    return false;
                }
                match (&a.kind, &b.kind) {
                    (VmSetValueKind::Resident(x), VmSetValueKind::Resident(y)) => x.same_as(y),
                    (VmSetValueKind::Fresh(x), VmSetValueKind::Fresh(y)) => {
                        proof {
                            lemma_fresh_set_view(a.member_ty, *x);
                            lemma_fresh_set_view(b.member_ty, *y);
                        }
                        if x.len() != y.len() {
                            assert(member_entries(x@).len() != member_entries(y@).len());
                            return false;
                        }
                        let mut i: usize = 0;
                        while i < x.len()
                            invariant
                                i <= x.len(),
                                x.len() == y.len(),
                                self matches VmValue::SetOf(s) && s.kind matches VmSetValueKind::Fresh(f) && f@
                                    == x@,
                                self@ == (ValueView::FreshSet {
                                    member_ty: a.member_ty@,
                                    members: member_entries(x@),
                                }),
                                other@ == (ValueView::FreshSet {
                                    member_ty: b.member_ty@,
                                    members: member_entries(y@),
                                }),
                                forall|j: int| 0 <= j < i ==> member_entries(x@)[j] == member_entries(y@)[j],
                            decreases x.len() - i,
                        {
                            proof {
                                let held = member_entries(x@);
                                assert(decreases_to!(self@ => self@->FreshSet_members));
                                assert(decreases_to!(held => held[i as int]));
                                assert(held[i as int].1 == x@[i as int].value@);
                            }
                            if !bytes_eq(x[i].key.as_slice(), y[i].key.as_slice()) || !x[i].value.same_as(
                                &y[i].value,
                            ) {
                                assert(member_entries(x@)[i as int] != member_entries(y@)[i as int]);
                                return false;
                            }
                            i += 1;
                        }
                        assert(member_entries(x@) =~= member_entries(y@));
                        true
                    },
                    _ => false,
                }
            },
            (VmValue::MapOf(a), VmValue::MapOf(b)) => {
                let xs = a.elements.names();
                let ys = b.elements.names();
                let ghost x = held_entries(a.elements);
                let ghost y = held_entries(b.elements);
                if xs.len() != ys.len() {
                    return false;
                }
                let mut i: usize = 0;
                while i < xs.len()
                    invariant
                        i <= xs.len(),
                        xs.len() == ys.len(),
                        x == held_entries(a.elements),
                        y == held_entries(b.elements),
                        self@ == ValueView::MapOf(x),
                        other@ == ValueView::MapOf(y),
                        xs@.len() == x.len(),
                        ys@.len() == y.len(),
                        forall|j: int| 0 <= j < xs@.len() ==> (#[trigger] xs@[j])@ == x[j].0,
                        forall|j: int| 0 <= j < ys@.len() ==> (#[trigger] ys@[j])@ == y[j].0,
                        names_rise(x),
                        names_rise(y),
                        forall|j: int| 0 <= j < i ==> x[j] == y[j],
                    decreases xs.len() - i,
                {
                    proof {
                        lemma_assoc_get_at(x, i as int);
                        lemma_assoc_get_at(y, i as int);
                        assert(xs@[i as int]@ == x[i as int].0);
                        assert(ys@[i as int]@ == y[i as int].0);
                    }
                    if !str_eq(xs[i].as_str(), ys[i].as_str()) {
                        assert(x[i as int] != y[i as int]);
                        return false;
                    }
                    let p = a.elements.get(xs[i].as_str());
                    let q = b.elements.get(ys[i].as_str());
                    match (p, q) {
                        (Some(p), Some(q)) => {
                            proof {
                                assert(decreases_to!(self@ => self@->MapOf_0));
                                assert(decreases_to!(x => x[i as int]));
                            }
                            if !p.same_as(q) {
                                assert(x[i as int] != y[i as int]);
                                return false;
                            }
                        },
                        _ => {
                            assert(false);
                            return false;
                        },
                    }
                    assert(x[i as int] == y[i as int]);
                    i += 1;
                }
                assert(x =~= y);
                true
            },
            (VmValue::List(a), VmValue::List(b)) => {
                if !a.member_ty.same_as(&b.member_ty) {
                    return false;
                }
                let xs = a.node.items();
                let ys = b.node.items();
                let ghost x = held_items(a.node);
                let ghost y = held_items(b.node);
                if xs.len() != ys.len() {
                    return false;
                }
                let mut i: usize = 0;
                while i < xs.len()
                    invariant
                        i <= xs.len(),
                        xs.len() == ys.len(),
                        self@ == (ValueView::List { member_ty: a.member_ty@, items: x }),
                        other@ == (ValueView::List { member_ty: b.member_ty@, items: y }),
                        xs@.len() == x.len(),
                        ys@.len() == y.len(),
                        forall|j: int| 0 <= j < xs@.len() ==> (#[trigger] xs@[j])@ == x[j],
                        forall|j: int| 0 <= j < ys@.len() ==> (#[trigger] ys@[j])@ == y[j],
                        forall|j: int| 0 <= j < i ==> x[j] == y[j],
                    decreases xs.len() - i,
                {
                    proof {
                        assert(decreases_to!(self@ => self@->List_items));
                        assert(decreases_to!(x => x[i as int]));
                        assert(xs@[i as int]@ == x[i as int]);
                        assert(ys@[i as int]@ == y[i as int]);
                    }
                    if !xs[i].same_as(&ys[i]) {
                        return false;
                    }
                    i += 1;
                }
                assert(x =~= y);
                true
            },
            _ => false,
        }
    }
}

/// A copy of named values.
pub fn duplicate_entries(entries: &Vec<Entry<VmValue>>) -> (copy: Vec<Entry<VmValue>>)
    ensures
        value_entries(copy@) == value_entries(entries@),
        copy@.len() == entries@.len(),
        forall|j: int| 0 <= j < entries@.len() ==> copy@[j].key@ == entries@[j].key@,
    decreases entries@, 1nat,
{
    let mut copy: Vec<Entry<VmValue>> = Vec::new();
    let mut i: usize = 0;
    while i < entries.len()
        invariant
            i <= entries.len(),
            copy@.len() == i,
            forall|j: int|
                0 <= j < i ==> copy@[j].key@ == entries@[j].key@ && value_view(copy@[j].value) == value_view(
                    entries@[j].value,
                ),
        decreases entries.len() - i,
    {
        copy.push(Entry { key: entries[i].key.clone(), value: entries[i].value.duplicate() });
        i += 1;
    }
    assert(value_entries(copy@) =~= value_entries(entries@));
    copy
}

/// A copy of values.
pub fn duplicate_values(values: &Vec<VmValue>) -> (copy: Vec<VmValue>)
    ensures
        copy@.len() == values@.len(),
        forall|j: int| 0 <= j < values@.len() ==> value_view(copy@[j]) == value_view(values@[j]),
    decreases values@, 1nat,
{
    let mut copy: Vec<VmValue> = Vec::new();
    let mut i: usize = 0;
    while i < values.len()
        invariant
            i <= values.len(),
            copy@.len() == i,
            forall|j: int| 0 <= j < i ==> value_view(copy@[j]) == value_view(values@[j]),
        decreases values.len() - i,
    {
        copy.push(values[i].duplicate());
        i += 1;
    }
    copy
}

/// A copy of the members of a set.
pub fn duplicate_members(members: &Vec<SetMember>) -> (copy: Vec<SetMember>)
    ensures
        member_entries(copy@) == member_entries(members@),
    decreases members@, 1nat,
{
    let mut copy: Vec<SetMember> = Vec::new();
    let mut i: usize = 0;
    while i < members.len()
        invariant
            i <= members.len(),
            copy@.len() == i,
            forall|j: int|
                0 <= j < i ==> copy@[j].key@ == members@[j].key@ && value_view(copy@[j].value) == value_view(
                    members@[j].value,
                ),
        decreases members.len() - i,
    {
        copy.push(SetMember { key: copy_bytes(members[i].key.as_slice()), value: members[i].value.duplicate() });
        i += 1;
    }
    assert(member_entries(copy@) =~= member_entries(members@));
    copy
}

impl VmValue {
    /// A copy of the value.
    pub fn duplicate(&self) -> (copy: VmValue)
        ensures
            copy@ == self@,
        decreases self, 0nat,
    {
        match self {
            VmValue::Primitive(p) => VmValue::Primitive(p.duplicate()),
            VmValue::Bool(b) => VmValue::Bool(*b),
            VmValue::Null(ty) => VmValue::Null(ty.duplicate()),
            VmValue::Table(t) => match &t.kind {
                VmTableValueKind::Resident(w) => VmValue::Table(
                    VmTableValue { ty: t.ty.clone(), kind: VmTableValueKind::Resident(w.duplicate()) },
                ),
                VmTableValueKind::Fresh(fields) => {
                    let copy = StrMap { entries: duplicate_entries(&fields.entries) };
                    let ty = t.ty.clone();
                    proof {
                        lemma_fresh_table_view(t.ty, *fields);
                        lemma_fresh_table_view(ty, copy);
                    }
                    VmValue::Table(VmTableValue { ty, kind: VmTableValueKind::Fresh(copy) })
                },
            },
            VmValue::SetOf(s) => match &s.kind {
                VmSetValueKind::Resident(w) => VmValue::SetOf(
                    VmSetValue { member_ty: s.member_ty.duplicate(), kind: VmSetValueKind::Resident(w.duplicate()) },
                ),
                VmSetValueKind::Fresh(members) => {
                    let copy = duplicate_members(members);
                    let member_ty = s.member_ty.duplicate();
                    proof {
                        lemma_fresh_set_view(s.member_ty, *members);
                        lemma_fresh_set_view(member_ty, copy);
                    }
                    VmValue::SetOf(VmSetValue { member_ty, kind: VmSetValueKind::Fresh(copy) })
                },
            },
            VmValue::MapOf(m) => VmValue::MapOf(VmMapValue { elements: m.elements.duplicate() }),
            VmValue::List(l) => VmValue::List(
                VmListValue { member_ty: l.member_ty.duplicate(), node: l.node.duplicate() },
            ),
        }
    }
}

/// A literal of a script.
#[derive(Debug)]
pub enum VmConst {
    Primitive(PrimitiveValue),
    Table(VmConstTableValue),
    SetOf(VmConstSetValue),
    Bool(bool),
    Null,
}

#[derive(Debug)]
pub struct VmConstTableValue {
    pub ty: String,
    pub fields: StrMap<VmConst>,
}

#[derive(Debug)]
pub struct VmConstSetValue {
    pub member_ty: String,
    pub members: Vec<VmConst>,
}

/// A literal as a value.
pub enum ConstView {
    Primitive(PrimitiveView),
    Table { ty: Seq<char>, fields: Seq<(Seq<char>, ConstView)> },
    SetOf { member_ty: Seq<char>, members: Seq<ConstView> },
    Bool(bool),
    Null,
}

/// The value that a literal stands for.
pub open spec fn const_view(c: VmConst) -> ConstView
    decreases c,
{
    match c {
        VmConst::Primitive(p) => ConstView::Primitive(p@),
        VmConst::Table(t) => ConstView::Table {
            ty: t.ty@,
            fields: Seq::new(
                t.fields.entries@.len(),
                |i: int|
                    if 0 <= i < t.fields.entries@.len() {
                        (t.fields.entries@[i].key@, const_view(t.fields.entries@[i].value))
                    } else {
                        (Seq::empty(), ConstView::Null)
                    },
            ),
        },
        VmConst::SetOf(s) => ConstView::SetOf {
            member_ty: s.member_ty@,
            members: Seq::new(
                s.members@.len(),
                |i: int|
                    if 0 <= i < s.members@.len() {
                        const_view(s.members@[i])
                    } else {
                        ConstView::Null
                    },
            ),
        },
        VmConst::Bool(b) => ConstView::Bool(b),
        VmConst::Null => ConstView::Null,
    }
}

impl View for VmConst {
    type V = ConstView;

    open spec fn view(&self) -> ConstView {
        const_view(*self)
    }
}

#[derive(Debug)]
pub enum VmValueError {
    /// The schema has no record type of this name.
    TypeNotFound(String),
    /// The record type, named second, has no field of the name given first.
    FieldNotFound(String, String),
    /// A value cannot stand where the type of its field or of its set's
    /// members is expected; the expected type and the value's type as text.
    IncompatibleFieldAndValueType(String, String),
    /// A table lacks the mandatory field named first, of the record type
    /// named second.
    MissingField(String, String),
    /// The member type of a set has no primary key, or a member holds no
    /// primitive under it.
    MissingPrimaryKey,
}

/// An error as a value.
pub enum ValueErrorView {
    TypeNotFound(Seq<char>),
    FieldNotFound(Seq<char>, Seq<char>),
    IncompatibleFieldAndValueType(Seq<char>, Seq<char>),
    MissingField(Seq<char>, Seq<char>),
    MissingPrimaryKey,
}

impl View for VmValueError {
    type V = ValueErrorView;

    open spec fn view(&self) -> ValueErrorView {
        match self {
            VmValueError::TypeNotFound(ty) => ValueErrorView::TypeNotFound(ty@),
            VmValueError::FieldNotFound(field, ty) => ValueErrorView::FieldNotFound(field@, ty@),
            VmValueError::IncompatibleFieldAndValueType(expected, actual) => ValueErrorView::IncompatibleFieldAndValueType(
                expected@,
                actual@,
            ),
            VmValueError::MissingField(field, ty) => ValueErrorView::MissingField(field@, ty@),
            VmValueError::MissingPrimaryKey => ValueErrorView::MissingPrimaryKey,
        }
    }
}

/// Index of the first pair at or after `from` whose name is `key`.
pub open spec fn assoc_index<T>(s: Seq<(Seq<char>, T)>, key: Seq<char>, from: int) -> Option<int>
    decreases s.len() - from,
{
    if 0 <= from < s.len() {
        if s[from].0 == key {
            Some(from)
        } else {
            assoc_index(s, key, from + 1)
        }
    } else {
        None
    }
}

/// Index of the first pair at or after `from` whose name is not below `key`.
pub open spec fn assoc_point<T>(s: Seq<(Seq<char>, T)>, key: Seq<char>, from: int) -> int
    decreases s.len() - from,
{
    if 0 <= from < s.len() {
        if text_lt(s[from].0, key) {
            assoc_point(s, key, from + 1)
        } else {
            from
        }
    } else {
        s.len() as int
    }
}

/// The pairs after storing `value` under `key`: the first pair of that name
/// takes the value; a new name goes before the first name not below it.
pub open spec fn assoc_insert<T>(s: Seq<(Seq<char>, T)>, key: Seq<char>, value: T) -> Seq<(Seq<char>, T)> {
    match assoc_index(s, key, 0) {
        Some(i) => s.update(i, (s[i].0, value)),
        None => s.insert(assoc_point(s, key, 0), (key, value)),
    }
}

/// The pairs without the first pair named `key`.
pub open spec fn assoc_remove<T>(s: Seq<(Seq<char>, T)>, key: Seq<char>) -> Seq<(Seq<char>, T)> {
    match assoc_index(s, key, 0) {
        Some(i) => s.remove(i),
        None => s,
    }
}

/// Index of the first member at or after `from` whose key is `key`.
pub open spec fn member_index<T>(s: Seq<(Seq<u8>, T)>, key: Seq<u8>, from: int) -> Option<int>
    decreases s.len() - from,
{
    if 0 <= from < s.len() {
        if s[from].0 == key {
            Some(from)
        } else {
            member_index(s, key, from + 1)
        }
    } else {
        None
    }
}

/// Index of the first member at or after `from` whose key is not below `key`.
pub open spec fn member_point<T>(s: Seq<(Seq<u8>, T)>, key: Seq<u8>, from: int) -> int
    decreases s.len() - from,
{
    if 0 <= from < s.len() {
        if lex_lt(s[from].0, key) {
            member_point(s, key, from + 1)
        } else {
            from
        }
    } else {
        s.len() as int
    }
}

/// The members after storing `value` under `key`: the first member of that
/// key is replaced; a new key goes before the first key not below it.
pub open spec fn member_insert<T>(s: Seq<(Seq<u8>, T)>, key: Seq<u8>, value: T) -> Seq<(Seq<u8>, T)> {
    match member_index(s, key, 0) {
        Some(i) => s.update(i, (key, value)),
        None => s.insert(member_point(s, key, 0), (key, value)),
    }
}

proof fn lemma_assoc_index_view(entries: Seq<Entry<VmValue>>, key: Seq<char>, from: int)
    requires
        0 <= from,
    ensures
        assoc_index(value_entries(entries), key, from) == first_index_from(entries, key, from),
        assoc_point(value_entries(entries), key, from) == insertion_point_from(entries, key, from),
    decreases entries.len() - from,
{
    if from < entries.len() {
        lemma_assoc_index_view(entries, key, from + 1);
    }
}

/// Storing a value in a map of values stores its view among the views.
pub fn insert_value(map: &mut StrMap<VmValue>, key: String, value: VmValue)
    ensures
        value_entries(final(map).entries@) == assoc_insert(value_entries(old(map).entries@), key@, value@),
        old(map).sorted() ==> final(map).sorted(),
{
    let ghost before = map.entries@;
    proof {
        lemma_assoc_index_view(before, key@, 0);
        lemma_first_index(before, key@, 0);
        crate::strmap::lemma_insertion_point(before, key@, 0);
    }
    map.insert(key, value);
    proof {
        assert(value_entries(map.entries@) =~= assoc_insert(value_entries(before), key@, value@));
    }
}

/// The value under the first entry named `key`, as `get` finds it.
pub proof fn lemma_value_lookup(entries: Seq<Entry<VmValue>>, key: Seq<char>)
    ensures
        assoc_index(value_entries(entries), key, 0) == first_index_from(entries, key, 0),
        first_index_from(entries, key, 0) matches Some(i) ==> 0 <= i < entries.len() && value_entries(entries)[i].1
            == value_view(entries[i].value),
{
    lemma_assoc_index_view(entries, key, 0);
    lemma_first_index(entries, key, 0);
}

/// Stores a member of a set under its key.
pub fn insert_member(members: &mut Vec<SetMember>, key: Vec<u8>, value: VmValue)
    ensures
        member_entries(final(members)@) == member_insert(member_entries(old(members)@), key@, value@),
{
    let ghost before = members@;
    let ghost views = member_entries(before);
    let mut i: usize = 0;
    while i < members.len()
        invariant
            i <= members.len(),
            members@ == before,
            before == old(members)@,
            views == member_entries(before),
            member_index(views, key@, 0) == member_index(views, key@, i as int),
        decreases members.len() - i,
    {
        if bytes_eq(members[i].key.as_slice(), key.as_slice()) {
            assert(views[i as int].0 == key@);
            assert(member_index(views, key@, 0) == Some(i as int));
            members.remove(i);
            members.insert(i, SetMember { key, value });
            assert(member_entries(members@) =~= views.update(i as int, (key@, value@)));
            return ;
        }
        i += 1;
    }
    let mut at: usize = 0;
    while at < members.len() && bytes_lt(members[at].key.as_slice(), key.as_slice())
        invariant
            at <= members.len(),
            members@ == before,
            before == old(members)@,
            views == member_entries(before),
            member_index(views, key@, 0) is None,
            member_point(views, key@, 0) == member_point(views, key@, at as int),
        decreases members.len() - at,
    {
        at += 1;
    }
    members.insert(at, SetMember { key, value });
    assert(member_entries(members@) =~= views.insert(at as int, (key@, value@)));
}

/// Index of the first field at or after `from` that is marked as primary key.
pub open spec fn primary_field(fields: Seq<Entry<FieldDef>>, from: int) -> Option<int>
    decreases fields.len() - from,
{
    if 0 <= from < fields.len() {
        if is_primary(fields[from].value.annotations@) {
            Some(from)
        } else {
            primary_field(fields, from + 1)
        }
    } else {
        None
    }
}

/// The primary key of a set type: the record type of its members and the
/// first field of it that is marked as primary key, both by position in the
/// schema. Nothing where the type is no set of tables, the schema lacks the
/// record type, or no field is marked.
pub open spec fn spec_primary_key(ty: TypeView, schema: CompiledSchema) -> Option<(int, int)> {
    match ty {
        TypeView::SetOf(member) => match *member {
            TypeView::Table(name) => match schema.types.index_of(name) {
                Some(t) => match primary_field(schema.types.entries@[t].value.fields.entries@, 0) {
                    Some(f) => Some((t, f)),
                    None => None,
                },
                None => None,
            },
            _ => None,
        },
        _ => None,
    }
}

/// Position of the first field that is marked as primary key.
pub fn find_primary(fields: &StrMap<FieldDef>) -> (found: Option<usize>)
    ensures
        match found {
            Some(f) => primary_field(fields.entries@, 0) == Some(f as int) && f < fields.entries@.len(),
            None => primary_field(fields.entries@, 0) is None,
        },
{
    let mut i: usize = 0;
    while i < fields.entries.len()
        invariant
            i <= fields.entries.len(),
            primary_field(fields.entries@, 0) == primary_field(fields.entries@, i as int),
        decreases fields.entries.len() - i,
    {
        if has_primary(&fields.entries[i].value.annotations) {
            return Some(i);
        }
        i += 1;
    }
    None
}

impl VmType {
    /// The primary key of a set type: the name and the type of the field.
    pub fn primary_key<'a>(&self, schema: &'a CompiledSchema) -> (key: Option<(&'a str, &'a FieldType)>)
        ensures
            match key {
                Some((name, ty)) => spec_primary_key(self@, *schema) matches Some((t, f)) && 0 <= t
                    < schema.types.entries@.len() && 0 <= f
                    < schema.types.entries@[t].value.fields.entries@.len() && name@
                    == schema.types.entries@[t].value.fields.entries@[f].key@ && *ty
                    == schema.types.entries@[t].value.fields.entries@[f].value.ty,
                None => spec_primary_key(self@, *schema) is None,
            },
    {
        match self {
            VmType::SetOf(set) => match &*set.ty {
                VmType::Table(table) => match schema.types.find(table.name.as_str()) {
                    Some(t) => {
                        assert(type_view(*set.ty) == TypeView::Table(table.name@));
                        let fields = &schema.types.entries[t].value.fields;
                        match find_primary(fields) {
                            Some(f) => Some((fields.entries[f].key.as_str(), &fields.entries[f].value.ty)),
                            None => None,
                        }
                    },
                    None => {
                        assert(type_view(*set.ty) == TypeView::Table(table.name@));
                        None
                    },
                },
                _ => {
                    assert(!(type_view(*set.ty) is Table));
                    None
                },
            },
            _ => None,
        }
    }
}

/// The first field at or after `from` that `converted` lacks although it is
/// not optional.
pub open spec fn first_missing_field<T>(
    fields: Seq<Entry<FieldDef>>,
    converted: Seq<(Seq<char>, T)>,
    from: int,
) -> Option<int>
    decreases fields.len() - from,
{
    if 0 <= from < fields.len() {
        if assoc_index(converted, fields[from].key@, 0) is None && !(fields[from].value.ty is Optional) {
            Some(from)
        } else {
            first_missing_field(fields, converted, from + 1)
        }
    } else {
        None
    }
}

/// The key of a member of a fresh set: what its field `primary` holds, which
/// must be a primitive, as written in keys.
pub open spec fn member_key(v: ValueView, primary: Seq<char>) -> Option<Seq<u8>> {
    match v {
        ValueView::FreshTable { fields, .. } => match assoc_index(fields, primary, 0) {
            Some(i) => match fields[i].1 {
                ValueView::Primitive(p) => Some(key_component(p)),
                _ => None,
            },
            None => None,
        },
        _ => None,
    }
}

/// The fresh value that a literal stands for under `schema`.
///
/// A table literal becomes a fresh table of the record type it names, with
/// the literal's fields in name order; each field must exist in the record
/// type and its value must fit the field's type, and every field that is not
/// optional must be given. A set literal becomes a fresh set of tables of the
/// record type it names, each member under its primary key, a later member
/// replacing an earlier one of the same key.
pub open spec fn spec_from_const(schema: CompiledSchema, c: ConstView) -> Result<ValueView, ValueErrorView>
    decreases c, 0nat,
{
    match c {
        ConstView::Primitive(p) => Ok(ValueView::Primitive(p)),
        ConstView::Bool(b) => Ok(ValueView::Bool(b)),
        ConstView::Null => Ok(ValueView::Null(TypeView::Null)),
        ConstView::Table { ty, fields } => match schema.types.index_of(ty) {
            None => Err(ValueErrorView::TypeNotFound(ty)),
            Some(t) => match convert_fields(schema, t, ty, fields, fields.len() as int) {
                Err(e) => Err(e),
                Ok(converted) => {
                    let record = schema.types.entries@[t].value;
                    match first_missing_field(record.fields.entries@, converted, 0) {
                        Some(f) => Err(ValueErrorView::MissingField(record.fields.entries@[f].key@, record.name@)),
                        None => Ok(ValueView::FreshTable { ty: record.name@, fields: converted }),
                    }
                },
            },
        },
        ConstView::SetOf { member_ty, members } => match schema.types.index_of(member_ty) {
            None => Err(ValueErrorView::TypeNotFound(member_ty)),
            Some(t) => {
                let record = schema.types.entries@[t].value;
                match primary_field(record.fields.entries@, 0) {
                    None => Err(ValueErrorView::MissingPrimaryKey),
                    Some(f) => match convert_members(schema, t, f, members, members.len() as int) {
                        Err(e) => Err(e),
                        Ok(converted) => Ok(
                            ValueView::FreshSet { member_ty: TypeView::Table(record.name@), members: converted },
                        ),
                    },
                }
            },
        },
    }
}

/// The fields of a fresh table after the first `upto` fields of a literal.
pub open spec fn convert_fields(
    schema: CompiledSchema,
    t: int,
    ty: Seq<char>,
    fields: Seq<(Seq<char>, ConstView)>,
    upto: int,
) -> Result<Seq<(Seq<char>, ValueView)>, ValueErrorView>
    decreases fields, upto,
{
    if 0 < upto <= fields.len() {
        match convert_fields(schema, t, ty, fields, upto - 1) {
            Err(e) => Err(e),
            Ok(converted) => {
                let record = schema.types.entries@[t].value;
                match record.fields.index_of(fields[upto - 1].0) {
                    None => Err(ValueErrorView::FieldNotFound(fields[upto - 1].0, ty)),
                    Some(f) => match spec_from_const(schema, fields[upto - 1].1) {
                        Err(e) => Err(e),
                        Ok(v) => if covariant(
                            vm_type_of_field(record.fields.entries@[f].value.ty@),
                            type_of_value(v),
                        ) {
                            Ok(assoc_insert(converted, record.fields.entries@[f].key@, v))
                        } else {
                            Err(
                                ValueErrorView::IncompatibleFieldAndValueType(
                                    type_text(vm_type_of_field(record.fields.entries@[f].value.ty@)),
                                    type_text(type_of_value(v)),
                                ),
                            )
                        },
                    },
                }
            },
        }
    } else {
        Ok(seq![])
    }
}

/// The members of a fresh set after the first `upto` members of a literal.
pub open spec fn convert_members(
    schema: CompiledSchema,
    t: int,
    f: int,
    members: Seq<ConstView>,
    upto: int,
) -> Result<Seq<(Seq<u8>, ValueView)>, ValueErrorView>
    decreases members, upto,
{
    if 0 < upto <= members.len() {
        match convert_members(schema, t, f, members, upto - 1) {
            Err(e) => Err(e),
            Ok(converted) => {
                let record = schema.types.entries@[t].value;
                match spec_from_const(schema, members[upto - 1]) {
                    Err(e) => Err(e),
                    Ok(v) => if covariant(TypeView::Table(record.name@), type_of_value(v)) {
                        match member_key(v, record.fields.entries@[f].key@) {
                            Some(key) => Ok(member_insert(converted, key, v)),
                            None => Err(ValueErrorView::MissingPrimaryKey),
                        }
                    } else {
                        Err(
                            ValueErrorView::IncompatibleFieldAndValueType(
                                type_text(TypeView::Table(record.name@)),
                                type_text(type_of_value(v)),
                            ),
                        )
                    },
                }
            },
        }
    } else {
        Ok(seq![])
    }
}

/// The fields of a table literal as values.
pub open spec fn const_entries(entries: Seq<Entry<VmConst>>) -> Seq<(Seq<char>, ConstView)> {
    Seq::new(entries.len(), |i: int| (entries[i].key@, const_view(entries[i].value)))
}

/// The members of a set literal as values.
pub open spec fn const_members(members: Seq<VmConst>) -> Seq<ConstView> {
    Seq::new(members.len(), |i: int| const_view(members[i]))
}

pub proof fn lemma_table_const_view(t: VmConstTableValue)
    ensures
        const_view(VmConst::Table(t)) == (ConstView::Table { ty: t.ty@, fields: const_entries(t.fields.entries@) }),
{
    assert(const_view(VmConst::Table(t))->Table_fields =~= const_entries(t.fields.entries@));
}

pub proof fn lemma_set_const_view(s: VmConstSetValue)
    ensures
        const_view(VmConst::SetOf(s)) == (ConstView::SetOf {
            member_ty: s.member_ty@,
            members: const_members(s.members@),
        }),
{
    assert(const_view(VmConst::SetOf(s))->SetOf_members =~= const_members(s.members@));
}

/// A short text for a type, for error messages: the name of a primitive or
/// of a table, and the kind of any other type.
pub open spec fn type_text(ty: TypeView) -> Seq<char> {
    match ty {
        TypeView::Primitive(PrimitiveType::Int64) => "int64"@,
        TypeView::Primitive(PrimitiveType::Double) => "double"@,
        TypeView::Primitive(PrimitiveType::String) => "string"@,
        TypeView::Primitive(PrimitiveType::Bytes) => "bytes"@,
        TypeView::Primitive(PrimitiveType::Bool) => "bool"@,
        TypeView::Table(name) => name,
        TypeView::SetOf(_) => "set"@,
        TypeView::Null => "null"@,
        TypeView::Bool => "bool"@,
        TypeView::List(_) => "list"@,
        TypeView::MapOf(_) => "map"@,
        TypeView::OneOf(_) => "oneof"@,
        TypeView::Unknown => "unknown"@,
        TypeView::Schema => "schema"@,
    }
}

/// A short text for a type, for error messages.
pub fn describe_type(ty: &VmType) -> (text: String)
    ensures
        text@ == type_text(ty@),
{
    match ty {
        VmType::Primitive(PrimitiveType::Int64) => "int64".to_string(),
        VmType::Primitive(PrimitiveType::Double) => "double".to_string(),
        VmType::Primitive(PrimitiveType::String) => "string".to_string(),
        VmType::Primitive(PrimitiveType::Bytes) => "bytes".to_string(),
        VmType::Primitive(PrimitiveType::Bool) => "bool".to_string(),
        VmType::Table(t) => t.name.clone(),
        VmType::SetOf(_) => "set".to_string(),
        VmType::Null => "null".to_string(),
        VmType::Bool => "bool".to_string(),
        VmType::List(_) => "list".to_string(),
        VmType::MapOf(_) => "map".to_string(),
        VmType::OneOf(options) => {
            proof {
                lemma_one_of_type_view(*options);
            }
            "oneof".to_string()
        },
        VmType::Unknown => "unknown".to_string(),
        VmType::Schema => "schema".to_string(),
    }
}

/// An error among the first fields of a literal is the error of them all.
proof fn lemma_convert_fields_err(
    schema: CompiledSchema,
    t: int,
    ty: Seq<char>,
    fields: Seq<(Seq<char>, ConstView)>,
    upto: int,
    len: int,
)
    requires
        0 <= upto <= len <= fields.len(),
        convert_fields(schema, t, ty, fields, upto) is Err,
    ensures
        convert_fields(schema, t, ty, fields, len) == convert_fields(schema, t, ty, fields, upto),
    decreases len - upto,
{
    if upto < len {
        lemma_convert_fields_err(schema, t, ty, fields, upto, len - 1);
    }
}

/// An error among the first members of a literal is the error of them all.
proof fn lemma_convert_members_err(
    schema: CompiledSchema,
    t: int,
    f: int,
    members: Seq<ConstView>,
    upto: int,
    len: int,
)
    requires
        0 <= upto <= len <= members.len(),
        convert_members(schema, t, f, members, upto) is Err,
    ensures
        convert_members(schema, t, f, members, len) == convert_members(schema, t, f, members, upto),
    decreases len - upto,
{
    if upto < len {
        lemma_convert_members_err(schema, t, f, members, upto, len - 1);
    }
}

/// The key of a member of a fresh set.
pub fn member_key_of(value: &VmValue, primary: &str) -> (key: Option<Vec<u8>>)
    ensures
        match key {
            Some(k) => member_key(value@, primary@) == Some(k@),
            None => member_key(value@, primary@) is None,
        },
{
    match value {
        VmValue::Table(t) => match &t.kind {
            VmTableValueKind::Fresh(fields) => {
                proof {
                    lemma_fresh_table_view(t.ty, *fields);
                    lemma_value_lookup(fields.entries@, primary@);
                }
                match fields.get(primary) {
                    Some(VmValue::Primitive(p)) => Some(p.serialize_for_key_component()),
                    _ => None,
                }
            },
            _ => None,
        },
        _ => None,
    }
}

impl VmValue {
    /// The fresh value that a literal stands for under `schema`.
    pub fn from_const(schema: &CompiledSchema, c: &VmConst) -> (converted: Result<VmValue, VmValueError>)
        ensures
            spec_from_const(*schema, c@) matches Ok(v) ==> converted matches Ok(x) && x@ == v,
            spec_from_const(*schema, c@) matches Err(e) ==> converted matches Err(x) && x@ == e,
        decreases c,
    {
        match c {
            VmConst::Primitive(p) => Ok(VmValue::Primitive(p.duplicate())),
            VmConst::Bool(b) => Ok(VmValue::Bool(*b)),
            VmConst::Null => Ok(VmValue::Null(VmType::Null)),
            VmConst::Table(x) => {
                proof {
                    lemma_table_const_view(*x);
                }
                let t = match schema.types.find(x.ty.as_str()) {
                    Some(t) => t,
                    None => {
                        return Err(VmValueError::TypeNotFound(x.ty.clone()));
                    },
                };
                let record = &schema.types.entries[t].value;
                let ghost literal = const_entries(x.fields.entries@);
                let mut fields: StrMap<VmValue> = StrMap::new();
                assert(value_entries(fields.entries@) =~= Seq::<(Seq<char>, ValueView)>::empty());
                let mut i: usize = 0;
                while i < x.fields.entries.len()
                    invariant
                        i <= x.fields.entries.len(),
                        t < schema.types.entries@.len(),
                        *record == schema.types.entries@[t as int].value,
                        schema.types.index_of(x.ty@) == Some(t as int),
                        literal == const_entries(x.fields.entries@),
                        c matches VmConst::Table(y) && y.fields.entries@ == x.fields.entries@,
                        c@ == (ConstView::Table { ty: x.ty@, fields: literal }),
                        convert_fields(*schema, t as int, x.ty@, literal, i as int) == Ok::<
                            Seq<(Seq<char>, ValueView)>,
                            ValueErrorView,
                        >(value_entries(fields.entries@)),
                    decreases x.fields.entries.len() - i,
                {
                    let entry = &x.fields.entries[i];
                    assert(literal[i as int] == (entry.key@, const_view(entry.value)));
                    proof {
                        if convert_fields(*schema, t as int, x.ty@, literal, i + 1) is Err {
                            lemma_convert_fields_err(
                                *schema,
                                t as int,
                                x.ty@,
                                literal,
                                i + 1,
                                literal.len() as int,
                            );
                        }
                    }
                    let f = match record.fields.find(entry.key.as_str()) {
                        Some(f) => f,
                        None => {
                            return Err(VmValueError::FieldNotFound(entry.key.clone(), x.ty.clone()));
                        },
                    };
                    let value = match VmValue::from_const(schema, &entry.value) {
                        Ok(value) => value,
                        Err(e) => {
                            return Err(e);
                        },
                    };
                    let actual = VmType::of_value(&value);
                    let expected = VmType::from_field_type(&record.fields.entries[f].value.ty);
                    if !expected.is_covariant_from(&actual) {
                        return Err(
                            VmValueError::IncompatibleFieldAndValueType(
                                describe_type(&expected),
                                describe_type(&actual),
                            ),
                        );
                    }
                    insert_value(&mut fields, record.fields.entries[f].key.clone(), value);
                    i += 1;
                }
                let ghost converted = value_entries(fields.entries@);
                let mut m: usize = 0;
                while m < record.fields.entries.len()
                    invariant
                        m <= record.fields.entries.len(),
                        converted == value_entries(fields.entries@),
                        t < schema.types.entries@.len(),
                        *record == schema.types.entries@[t as int].value,
                        schema.types.index_of(x.ty@) == Some(t as int),
                        c@ == (ConstView::Table { ty: x.ty@, fields: literal }),
                        convert_fields(*schema, t as int, x.ty@, literal, literal.len() as int) == Ok::<
                            Seq<(Seq<char>, ValueView)>,
                            ValueErrorView,
                        >(converted),
                        first_missing_field(record.fields.entries@, converted, 0) == first_missing_field(
                            record.fields.entries@,
                            converted,
                            m as int,
                        ),
                    decreases record.fields.entries.len() - m,
                {
                    let def = &record.fields.entries[m];
                    proof {
                        lemma_value_lookup(fields.entries@, def.key@);
                    }
                    if fields.find(def.key.as_str()).is_none() {
                        if let FieldType::Optional(_) = def.value.ty {
                        } else {
                            return Err(VmValueError::MissingField(def.key.clone(), record.name.clone()));
                        }
                    }
                    m += 1;
                }
                let ty = record.name.clone();
                proof {
                    lemma_fresh_table_view(ty, fields);
                }
                Ok(VmValue::Table(VmTableValue { ty, kind: VmTableValueKind::Fresh(fields) }))
            },
            VmConst::SetOf(x) => {
                proof {
                    lemma_set_const_view(*x);
                }
                let t = match schema.types.find(x.member_ty.as_str()) {
                    Some(t) => t,
                    None => {
                        return Err(VmValueError::TypeNotFound(x.member_ty.clone()));
                    },
                };
                let record = &schema.types.entries[t].value;
                let f = match find_primary(&record.fields) {
                    Some(f) => f,
                    None => {
                        return Err(VmValueError::MissingPrimaryKey);
                    },
                };
                let member_ty = VmType::Table(VmTableType { name: record.name.clone() });
                let ghost literal = const_members(x.members@);
                let mut members: Vec<SetMember> = Vec::new();
                assert(member_entries(members@) =~= Seq::<(Seq<u8>, ValueView)>::empty());
                let mut i: usize = 0;
                while i < x.members.len()
                    invariant
                        i <= x.members.len(),
                        t < schema.types.entries@.len(),
                        f < schema.types.entries@[t as int].value.fields.entries@.len(),
                        *record == schema.types.entries@[t as int].value,
                        schema.types.index_of(x.member_ty@) == Some(t as int),
                        primary_field(record.fields.entries@, 0) == Some(f as int),
                        member_ty@ == TypeView::Table(record.name@),
                        literal == const_members(x.members@),
                        c matches VmConst::SetOf(y) && y.members@ == x.members@,
                        c@ == (ConstView::SetOf { member_ty: x.member_ty@, members: literal }),
                        convert_members(*schema, t as int, f as int, literal, i as int) == Ok::<
                            Seq<(Seq<u8>, ValueView)>,
                            ValueErrorView,
                        >(member_entries(members@)),
                    decreases x.members.len() - i,
                {
                    assert(literal[i as int] == const_view(x.members@[i as int]));
                    proof {
                        if convert_members(*schema, t as int, f as int, literal, i + 1) is Err {
                            lemma_convert_members_err(
                                *schema,
                                t as int,
                                f as int,
                                literal,
                                i + 1,
                                literal.len() as int,
                            );
                        }
                    }
                    let member = match VmValue::from_const(schema, &x.members[i]) {
                        Ok(member) => member,
                        Err(e) => {
                            return Err(e);
                        },
                    };
                    let actual = VmType::of_value(&member);
                    if !member_ty.is_covariant_from(&actual) {
                        return Err(
                            VmValueError::IncompatibleFieldAndValueType(
                                describe_type(&member_ty),
                                describe_type(&actual),
                            ),
                        );
                    }
                    let key = match member_key_of(&member, record.fields.entries[f].key.as_str()) {
                        Some(key) => key,
                        None => {
                            return Err(VmValueError::MissingPrimaryKey);
                        },
                    };
                    insert_member(&mut members, key, member);
                    i += 1;
                }
                proof {
                    lemma_fresh_set_view(member_ty, members);
                }
                Ok(VmValue::SetOf(VmSetValue { member_ty, kind: VmSetValueKind::Fresh(members) }))
            },
        }
    }
}

impl VmValueError {
    /// The error as a message.
    pub open spec fn spec_message(self) -> Seq<char> {
        match self {
            VmValueError::TypeNotFound(ty) => "type `"@ + ty@ + "` not found in schema"@,
            VmValueError::FieldNotFound(field, ty) => "field `"@ + field@ + "` not found in type `"@ + ty@ + "`"@,
            VmValueError::IncompatibleFieldAndValueType(expected, actual) => "field type `"@ + expected@
                + "` cannot be converted from value type `"@ + actual@ + "`"@,
            VmValueError::MissingField(field, ty) => "missing field `"@ + field@ + "` of type `"@ + ty@ + "`"@,
            VmValueError::MissingPrimaryKey => "primary key not found in a set member type"@,
        }
    }

    /// The error as a message.
    pub fn message(&self) -> (text: String)
        ensures
            text@ == self.spec_message(),
    {
        match self {
            VmValueError::TypeNotFound(ty) => "type `".to_string().concat(ty.as_str()).concat("` not found in schema"),
            VmValueError::FieldNotFound(field, ty) => "field `".to_string().concat(field.as_str()).concat(
                "` not found in type `",
            ).concat(ty.as_str()).concat("`"),
            VmValueError::IncompatibleFieldAndValueType(expected, actual) => "field type `".to_string().concat(
                expected.as_str(),
            ).concat("` cannot be converted from value type `").concat(actual.as_str()).concat("`"),
            VmValueError::MissingField(field, ty) => "missing field `".to_string().concat(field.as_str()).concat(
                "` of type `",
            ).concat(ty.as_str()).concat("`"),
            VmValueError::MissingPrimaryKey => "primary key not found in a set member type".to_string(),
        }
    }
}

} // verus!
