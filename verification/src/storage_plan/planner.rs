//! The storage planner: builds the plan of a schema and carries keys over from
//! the plan of an earlier schema wherever the types still agree.

use vstd::prelude::*;
use crate::schema::{
    alt_names, has_packed, is_packed, CompiledSchema, FieldAnnotation, FieldDef, FieldType,
    FieldTypeView,
};
use crate::seqs::{
    lemma_concat_contains, lemma_concat_distinct, lemma_push_contains, lemma_push_fresh,
};
use crate::strmap::{first_index_from, find_entry, Entry};
use super::keygen::{rand_storage_key, KeygenError};
use super::{
    entries_keys, entries_owned_keys, owned_keys, plan_keys, plan_owned_keys, well_shaped, StorageKey,
    StorageNode, StoragePlan,
};

verus! {

#[derive(Debug)]
pub enum PlannerError {
    /// A field or an export names a record type that the schema lacks.
    MissingType(String),
    /// A node needed a new key and none could be minted.
    KeyUnavailable(KeygenError),
}

/// A place in the schema where a type is written: an export, or a field of a
/// record type. Two places that name the same record type are different
/// occurrences of it.
#[derive(Clone, Copy, PartialEq, Eq, Structural, Debug)]
pub enum Occurrence {
    /// The export at this position.
    Export(usize),
    /// The field at the second position, of the record type at the first.
    Field(usize, usize),
}

/// The occurrence exists in the schema.
pub open spec fn site_valid(schema: CompiledSchema, site: Occurrence) -> bool {
    match site {
        Occurrence::Export(e) => e < schema.exports.entries@.len(),
        Occurrence::Field(t, f) => t < schema.types.entries@.len() && f
            < schema.types.entries@[t as int].value.fields.entries@.len(),
    }
}

/// 1 if `site` is not on the stack, else 0.
pub open spec fn free_among(stack: Seq<Occurrence>, site: Occurrence) -> nat {
    if stack.contains(site) {
        0
    } else {
        1
    }
}

/// How many of the fields from `from` on, of the record type at `t`, are not
/// on the stack.
pub open spec fn free_fields(schema: CompiledSchema, stack: Seq<Occurrence>, t: int, from: int) -> nat
    decreases schema.types.entries@[t].value.fields.entries@.len() - from,
{
    if 0 <= t < schema.types.entries@.len() && 0 <= from
        < schema.types.entries@[t].value.fields.entries@.len() {
        free_among(stack, Occurrence::Field(t as usize, from as usize)) + free_fields(
            schema,
            stack,
            t,
            from + 1,
        )
    } else {
        0
    }
}

/// How many fields of the record types from `from` on are not on the stack.
pub open spec fn free_types(schema: CompiledSchema, stack: Seq<Occurrence>, from: int) -> nat
    decreases schema.types.entries@.len() - from,
{
    if 0 <= from < schema.types.entries@.len() {
        free_fields(schema, stack, from, 0) + free_types(schema, stack, from + 1)
    } else {
        0
    }
}

/// How many of the exports from `from` on are not on the stack.
pub open spec fn free_exports(schema: CompiledSchema, stack: Seq<Occurrence>, from: int) -> nat
    decreases schema.exports.entries@.len() - from,
{
    if 0 <= from < schema.exports.entries@.len() {
        free_among(stack, Occurrence::Export(from as usize)) + free_exports(schema, stack, from + 1)
    } else {
        0
    }
}

/// How many occurrences of the schema are not on the stack. A descent through
/// the schema that never enters an occurrence twice makes this smaller with
/// every record type it enters, which is why it ends.
pub open spec fn free_sites(schema: CompiledSchema, stack: Seq<Occurrence>) -> nat {
    free_exports(schema, stack, 0) + free_types(schema, stack, 0)
}

proof fn lemma_free_fields_push(schema: CompiledSchema, stack: Seq<Occurrence>, site: Occurrence, t: int, from: int)
    requires
        0 <= from,
    ensures
        free_fields(schema, stack.push(site), t, from) <= free_fields(schema, stack, t, from),
        (site matches Occurrence::Field(st, sf) && st == t && from <= sf && site_valid(schema, site)
            && !stack.contains(site)) ==> free_fields(schema, stack.push(site), t, from) < free_fields(
            schema,
            stack,
            t,
            from,
        ),
    decreases schema.types.entries@[t].value.fields.entries@.len() - from,
{
    if 0 <= t < schema.types.entries@.len() && from
        < schema.types.entries@[t].value.fields.entries@.len() {
        lemma_push_contains(stack, site, Occurrence::Field(t as usize, from as usize));
        lemma_free_fields_push(schema, stack, site, t, from + 1);
    }
}

proof fn lemma_free_types_push(schema: CompiledSchema, stack: Seq<Occurrence>, site: Occurrence, from: int)
    requires
        0 <= from,
    ensures
        free_types(schema, stack.push(site), from) <= free_types(schema, stack, from),
        (site matches Occurrence::Field(st, sf) && from <= st && site_valid(schema, site)
            && !stack.contains(site)) ==> free_types(schema, stack.push(site), from) < free_types(
            schema,
            stack,
            from,
        ),
    decreases schema.types.entries@.len() - from,
{
    if from < schema.types.entries@.len() {
        lemma_free_fields_push(schema, stack, site, from, 0);
        lemma_free_types_push(schema, stack, site, from + 1);
    }
}

proof fn lemma_free_exports_push(schema: CompiledSchema, stack: Seq<Occurrence>, site: Occurrence, from: int)
    requires
        0 <= from,
    ensures
        free_exports(schema, stack.push(site), from) <= free_exports(schema, stack, from),
        (site matches Occurrence::Export(e) && from <= e && site_valid(schema, site)
            && !stack.contains(site)) ==> free_exports(schema, stack.push(site), from) < free_exports(
            schema,
            stack,
            from,
        ),
    decreases schema.exports.entries@.len() - from,
{
    if from < schema.exports.entries@.len() {
        lemma_push_contains(stack, site, Occurrence::Export(from as usize));
        lemma_free_exports_push(schema, stack, site, from + 1);
    }
}

/// Entering an occurrence that is not on the stack leaves fewer free ones.
pub proof fn lemma_push_site(schema: CompiledSchema, stack: Seq<Occurrence>, site: Occurrence)
    requires
        site_valid(schema, site),
        !stack.contains(site),
    ensures
        free_sites(schema, stack.push(site)) < free_sites(schema, stack),
{
    lemma_free_exports_push(schema, stack, site, 0);
    lemma_free_types_push(schema, stack, site, 0);
}

/// How many `Optional` and set layers are wrapped round the innermost type.
pub open spec fn wrappers(field: FieldType) -> nat
    decreases field,
{
    match field {
        FieldType::Optional(inner) => 1 + wrappers(*inner),
        FieldType::SetOf(inner) => 1 + wrappers(*inner),
        _ => 0,
    }
}

/// What a descent from one occurrence finds: the occurrences that it meets
/// again while they are still being descended into, the cycle participants;
/// or the name of the first record type that the schema lacks. Packed fields
/// are not descended into.
pub open spec fn scan(
    schema: CompiledSchema,
    field: FieldType,
    site: Occurrence,
    stack: Seq<Occurrence>,
) -> Result<Set<Occurrence>, Seq<char>>
    decreases free_sites(schema, stack), 0nat, wrappers(field),
{
    match field {
        FieldType::Optional(inner) => scan(schema, *inner, site, stack),
        FieldType::SetOf(inner) => scan(schema, *inner, site, stack),
        FieldType::Primitive(_) => Ok(Set::empty()),
        FieldType::Named(name) => {
            if stack.contains(site) || !site_valid(schema, site) {
                Ok(Set::empty().insert(site))
            } else {
                match schema.types.index_of(name@) {
                    None => Err(name@),
                    Some(t) => {
                        proof {
                            lemma_push_site(schema, stack, site);
                        }
                        scan_fields(schema, t, 0, stack.push(site))
                    },
                }
            }
        },
    }
}

/// What the descents from the fields from `from` on, of the record type at
/// `t`, find together.
pub open spec fn scan_fields(
    schema: CompiledSchema,
    t: int,
    from: int,
    stack: Seq<Occurrence>,
) -> Result<Set<Occurrence>, Seq<char>>
    decreases free_sites(schema, stack), 1nat, schema.types.entries@[t].value.fields.entries@.len() - from,
{
    let fields = schema.types.entries@[t].value.fields.entries@;
    if 0 <= t < schema.types.entries@.len() && 0 <= from < fields.len() {
        let first = if is_packed(fields[from].value.annotations@) {
            Ok(Set::empty())
        } else {
            scan(schema, fields[from].value.ty, Occurrence::Field(t as usize, from as usize), stack)
        };
        match first {
            Err(name) => Err(name),
            Ok(found) => match scan_fields(schema, t, from + 1, stack) {
                Err(name) => Err(name),
                Ok(more) => Ok(found.union(more)),
            },
        }
    } else {
        Ok(Set::empty())
    }
}

/// What the descents from the exports from `from` on find together.
pub open spec fn scan_exports(schema: CompiledSchema, from: int) -> Result<Set<Occurrence>, Seq<char>>
    decreases schema.exports.entries@.len() - from,
{
    if 0 <= from < schema.exports.entries@.len() {
        match scan(schema, schema.exports.entries@[from].value, Occurrence::Export(from as usize), seq![]) {
            Err(name) => Err(name),
            Ok(found) => match scan_exports(schema, from + 1) {
                Err(name) => Err(name),
                Ok(more) => Ok(found.union(more)),
            },
        }
    } else {
        Ok(Set::empty())
    }
}

/// The cycle participants of the schema: the occurrences of record types that
/// some descent from an export meets twice.
pub open spec fn recursive_sites(schema: CompiledSchema) -> Result<Set<Occurrence>, Seq<char>> {
    scan_exports(schema, 0)
}

/// A point of the earlier plan from which a field of the new schema may take
/// its key: the field's earlier type, whether it was packed, and its earlier
/// node.
#[derive(Clone, Copy)]
pub struct OldTreePoint<'a> {
    pub ty: &'a FieldType,
    pub packed: bool,
    pub node: &'a StorageNode,
}

/// The first of `names`, from `from` on, that one of `children` bears.
pub open spec fn first_known_name(
    children: Seq<Entry<StorageNode>>,
    names: Seq<Seq<char>>,
    from: int,
) -> Option<Seq<char>>
    decreases names.len() - from,
{
    if 0 <= from < names.len() {
        if first_index_from(children, names[from], 0) is Some {
            Some(names[from])
        } else {
            first_known_name(children, names, from + 1)
        }
    } else {
        None
    }
}

impl<'a> OldTreePoint<'a> {
    /// The point seen through one `Optional` layer of its type. A point whose
    /// type has no such layer stays as it is: the field was mandatory and is
    /// optional now.
    pub open spec fn spec_reduce_optional(self) -> OldTreePoint<'a> {
        match self.ty {
            FieldType::Optional(inner) => OldTreePoint { ty: &**inner, packed: self.packed, node: self.node },
            _ => self,
        }
    }

    /// The point of a set's member: the member type and the member plan.
    /// Nothing where the point is no set, or its node has no member plan.
    pub open spec fn spec_reduce_set(self) -> Option<OldTreePoint<'a>> {
        match self.ty {
            FieldType::SetOf(inner) => match &self.node.set {
                Some(member) => Some(
                    OldTreePoint { ty: &**inner, packed: self.packed, node: &**member },
                ),
                None => None,
            },
            _ => None,
        }
    }

    /// Whether the point may stand for a field of type `expected`: the types
    /// are the same, or the field only became optional; and the field is
    /// packed now exactly if it was.
    pub open spec fn accepts(self, expected: FieldType, expected_annotations: Seq<FieldAnnotation>) -> bool {
        &&& self.ty@ == expected@ || expected@ == FieldTypeView::Optional(Box::new(self.ty@))
        &&& self.packed == is_packed(expected_annotations)
    }

    /// The point, if it may stand for a field of type `expected`.
    pub open spec fn spec_validate_type(
        self,
        expected: FieldType,
        expected_annotations: Seq<FieldAnnotation>,
    ) -> Option<OldTreePoint<'a>> {
        if self.accepts(expected, expected_annotations) {
            Some(self)
        } else {
            None
        }
    }

    /// The point of a field below this one. The field is looked for in the
    /// earlier plan under each of `names` in turn; its earlier type is that of
    /// the field of the found name in the earlier schema. Nothing where no
    /// name is found, this point is no record, or the earlier schema lacks the
    /// record type or the field.
    pub open spec fn spec_resolve_subfield(
        self,
        old_schema: &'a CompiledSchema,
        names: Seq<Seq<char>>,
    ) -> Option<OldTreePoint<'a>> {
        match first_known_name(self.node.children@, names, 0) {
            None => None,
            Some(name) => match self.ty {
                FieldType::Named(record_name) => match old_schema.types.index_of(record_name@) {
                    None => None,
                    Some(t) => {
                        let fields = old_schema.types.entries@[t].value.fields;
                        match fields.index_of(name) {
                            None => None,
                            Some(f) => Some(
                                OldTreePoint {
                                    ty: &fields.entries@[f].value.ty,
                                    packed: is_packed(fields.entries@[f].value.annotations@),
                                    node: &self.node.children@[first_index_from(
                                        self.node.children@,
                                        name,
                                        0,
                                    ).unwrap()].value,
                                },
                            ),
                        }
                    },
                },
                _ => None,
            },
        }
    }
}

/// An occurrence that is being descended into, with the key of its node.
#[derive(Clone, Copy, Debug)]
pub struct StackEntry {
    pub site: Occurrence,
    pub key: StorageKey,
}

/// The occurrences on the stack, outermost first.
pub open spec fn sites(stack: Seq<StackEntry>) -> Seq<Occurrence> {
    Seq::new(stack.len(), |i: int| stack[i].site)
}

/// The key of the first stack entry at or after `from` that is for `site`.
pub open spec fn stack_key_from(stack: Seq<StackEntry>, site: Occurrence, from: int) -> Option<StorageKey>
    decreases stack.len() - from,
{
    if 0 <= from < stack.len() {
        if stack[from].site == site {
            Some(stack[from].key)
        } else {
            stack_key_from(stack, site, from + 1)
        }
    } else {
        None
    }
}

/// The key of the enclosing node for `site`, where `site` is on the stack.
pub open spec fn stack_key(stack: Seq<StackEntry>, site: Occurrence) -> Option<StorageKey> {
    stack_key_from(stack, site, 0)
}

/// The point in the earlier plan for the field `name` below `old`, if there
/// is one and it may stand for the field.
pub open spec fn child_old<'a>(
    old_schema: &'a CompiledSchema,
    old: Option<OldTreePoint<'a>>,
    name: Seq<char>,
    def: FieldDef,
) -> Option<OldTreePoint<'a>> {
    match old {
        None => None,
        Some(point) => match point.spec_resolve_subfield(old_schema, alt_names(name, def.annotations@)) {
            None => None,
            Some(child) => child.spec_validate_type(def.ty, def.annotations@),
        },
    }
}

/// The point in the earlier plan for the members of the set at `old`.
pub open spec fn member_old<'a>(
    old: Option<OldTreePoint<'a>>,
    inner: FieldType,
    annotations: Seq<FieldAnnotation>,
) -> Option<OldTreePoint<'a>> {
    match old {
        None => None,
        Some(point) => match point.spec_reduce_set() {
            None => None,
            Some(member) => member.spec_validate_type(inner, annotations),
        },
    }
}

/// The point in the earlier plan seen through one `Optional` layer.
pub open spec fn unwrapped_old<'a>(old: Option<OldTreePoint<'a>>) -> Option<OldTreePoint<'a>> {
    match old {
        None => None,
        Some(point) => Some(point.spec_reduce_optional()),
    }
}

/// A node with a point in the earlier plan has that point's key.
pub open spec fn reuses(old: Option<OldTreePoint>, node: StorageNode) -> bool {
    old matches Some(point) ==> node.key == point.node.key
}

/// The key that was minted for the node itself: its key, unless it has a
/// point in the earlier plan.
pub open spec fn own_minted(old: Option<OldTreePoint>, node: StorageNode) -> Seq<StorageKey> {
    if old is None {
        seq![node.key]
    } else {
        seq![]
    }
}

/// A node without member plan and children, not flattened, with these flags.
pub open spec fn is_leaf(node: StorageNode, packed: bool, reference: bool) -> bool {
    &&& !node.flattened
    &&& node.subspace_reference == reference
    &&& node.packed == packed
    &&& node.set is None
    &&& node.children@.len() == 0
}

/// `node` is the plan of a field of type `field` at `site`, with `stack`
/// holding the record occurrences that enclose it and `old` its point in the
/// earlier plan.
///
/// - An optional field is planned as its inner type.
/// - A primitive is a leaf.
/// - A set has a member plan and no children.
/// - A packed record is a packed leaf.
/// - A record whose occurrence is on the stack is a subspace reference with
///   the key of the enclosing node for that occurrence.
/// - Any other record has one child per field, under the fields' names and in
///   their order, and is flattened unless its occurrence is a cycle
///   participant.
/// Every node that is no reference and has a point in the earlier plan has
/// that point's key.
pub open spec fn fits(
    schema: CompiledSchema,
    old_schema: &CompiledSchema,
    recursive: Set<Occurrence>,
    field: FieldType,
    annotations: Seq<FieldAnnotation>,
    site: Occurrence,
    old: Option<OldTreePoint>,
    stack: Seq<StackEntry>,
    node: StorageNode,
) -> bool
    decreases node, field,
{
    match field {
        FieldType::Optional(inner) => fits(
            schema,
            old_schema,
            recursive,
            *inner,
            annotations,
            site,
            unwrapped_old(old),
            stack,
            node,
        ),
        FieldType::Primitive(_) => is_leaf(node, false, false) && reuses(old, node),
        FieldType::SetOf(inner) => {
            &&& !node.flattened
            &&& !node.subspace_reference
            &&& !node.packed
            &&& node.children@.len() == 0
            &&& reuses(old, node)
            &&& node.set matches Some(member) && fits(
                schema,
                old_schema,
                recursive,
                *inner,
                annotations,
                site,
                member_old(old, *inner, annotations),
                stack,
                *member,
            )
        },
        FieldType::Named(name) => {
            if is_packed(annotations) {
                is_leaf(node, true, false) && reuses(old, node)
            } else {
                match stack_key(stack, site) {
                    Some(key) => is_leaf(node, false, true) && node.key == key,
                    None => match schema.types.index_of(name@) {
                        None => false,
                        Some(t) => {
                            let fields = schema.types.entries@[t].value.fields.entries@;
                            &&& node.flattened == !recursive.contains(site)
                            &&& !node.subspace_reference
                            &&& !node.packed
                            &&& node.set is None
                            &&& reuses(old, node)
                            &&& node.children@.len() == fields.len()
                            &&& forall|i: int|
                                0 <= i < fields.len() ==> {
                                    &&& (#[trigger] node.children@[i]).key@ == fields[i].key@
                                    &&& fits(
                                        schema,
                                        old_schema,
                                        recursive,
                                        fields[i].value.ty,
                                        fields[i].value.annotations@,
                                        Occurrence::Field(t as usize, i as usize),
                                        child_old(old_schema, old, fields[i].key@, fields[i].value),
                                        stack.push(StackEntry { site, key: node.key }),
                                        node.children@[i].value,
                                    )
                                }
                        },
                    },
                }
            }
        },
    }
}

/// The keys that were minted for the plan `node` of a field, in the order in
/// which the planner mints them: a record's own key before its children's, a
/// set's own key after its member plan's.
pub open spec fn minted(
    schema: CompiledSchema,
    old_schema: &CompiledSchema,
    field: FieldType,
    annotations: Seq<FieldAnnotation>,
    site: Occurrence,
    old: Option<OldTreePoint>,
    stack: Seq<StackEntry>,
    node: StorageNode,
) -> Seq<StorageKey>
    decreases node, wrappers(field),
{
    match field {
        FieldType::Optional(inner) => minted(
            schema,
            old_schema,
            *inner,
            annotations,
            site,
            unwrapped_old(old),
            stack,
            node,
        ),
        FieldType::Primitive(_) => own_minted(old, node),
        FieldType::SetOf(inner) => (match node.set {
            Some(member) => minted(
                schema,
                old_schema,
                *inner,
                annotations,
                site,
                member_old(old, *inner, annotations),
                stack,
                *member,
            ),
            None => seq![],
        }) + own_minted(old, node),
        FieldType::Named(name) => {
            if is_packed(annotations) {
                own_minted(old, node)
            } else if stack_key(stack, site) is Some {
                seq![]
            } else {
                match schema.types.index_of(name@) {
                    None => seq![],
                    Some(t) => own_minted(old, node) + minted_children(
                        schema,
                        old_schema,
                        t,
                        old,
                        stack.push(StackEntry { site, key: node.key }),
                        node.children@,
                        node.children@.len() as int,
                    ),
                }
            }
        },
    }
}

/// The keys that were minted for the first `upto` children of the plan of a
/// record of the type at `t`.
pub open spec fn minted_children(
    schema: CompiledSchema,
    old_schema: &CompiledSchema,
    t: int,
    old: Option<OldTreePoint>,
    stack: Seq<StackEntry>,
    children: Seq<Entry<StorageNode>>,
    upto: int,
) -> Seq<StorageKey>
    decreases children, upto,
{
    let fields = schema.types.entries@[t].value.fields.entries@;
    if 0 <= t < schema.types.entries@.len() && 0 < upto <= children.len() && upto <= fields.len() {
        minted_children(schema, old_schema, t, old, stack, children, upto - 1) + minted(
            schema,
            old_schema,
            fields[upto - 1].value.ty,
            fields[upto - 1].value.annotations@,
            Occurrence::Field(t as usize, (upto - 1) as usize),
            child_old(old_schema, old, fields[upto - 1].key@, fields[upto - 1].value),
            stack,
            children[upto - 1].value,
        )
    } else {
        seq![]
    }
}

/// The texts of `names`, in order.
pub open spec fn texts(names: Seq<&str>) -> Seq<Seq<char>> {
    Seq::new(names.len(), |i: int| names[i]@)
}

impl<'a> OldTreePoint<'a> {
    pub fn reduce_optional(self) -> (reduced: OldTreePoint<'a>)
        ensures
            reduced == self.spec_reduce_optional(),
    {
        match self.ty {
            FieldType::Optional(inner) => OldTreePoint { ty: &**inner, packed: self.packed, node: self.node },
            _ => self,
        }
    }

    pub fn reduce_set(self) -> (reduced: Option<OldTreePoint<'a>>)
        ensures
            reduced == self.spec_reduce_set(),
    {
        match self.ty {
            FieldType::SetOf(inner) => match &self.node.set {
                Some(member) => Some(OldTreePoint { ty: &**inner, packed: self.packed, node: &**member }),
                None => None,
            },
            _ => None,
        }
    }

    pub fn validate_type(
        self,
        expected_ty: &FieldType,
        expected_annotations: &Vec<FieldAnnotation>,
    ) -> (valid: Option<OldTreePoint<'a>>)
        ensures
            valid == self.spec_validate_type(*expected_ty, expected_annotations@),
    {
        let same = self.ty.same_as(expected_ty);
        let widened = match expected_ty {
            FieldType::Optional(inner) => inner.same_as(self.ty),
            _ => false,
        };
        if !(same || widened) {
            return None;
        }
        if self.packed != has_packed(expected_annotations) {
            return None;
        }
        Some(self)
    }

    pub fn resolve_subfield(&self, old_schema: &'a CompiledSchema, altnames: &Vec<&str>) -> (child: Option<
        OldTreePoint<'a>,
    >)
        ensures
            child == self.spec_resolve_subfield(old_schema, texts(altnames@)),
    {
        let ghost names = texts(altnames@);
        let mut found: Option<(usize, usize)> = None;
        let mut i: usize = 0;
        while i < altnames.len() && found.is_none()
            invariant
                i <= altnames.len(),
                names == texts(altnames@),
                match found {
                    None => first_known_name(self.node.children@, names, 0) == first_known_name(
                        self.node.children@,
                        names,
                        i as int,
                    ),
                    Some((a, c)) => a < altnames.len() && first_known_name(self.node.children@, names, 0)
                        == Some(names[a as int]) && first_index_from(
                        self.node.children@,
                        names[a as int],
                        0,
                    ) == Some(c as int) && c < self.node.children@.len(),
                },
            decreases altnames.len() - i + (if found is None { 1int } else { 0int }),
        {
            match find_entry(&self.node.children, altnames[i]) {
                Some(c) => {
                    found = Some((i, c));
                },
                None => {
                    i += 1;
                },
            }
        }
        let (a, c) = match found {
            Some(pair) => pair,
            None => {
                return None;
            },
        };
        let name = altnames[a];
        let record = match self.ty {
            FieldType::Named(record_name) => match old_schema.types.get(record_name.as_str()) {
                Some(record) => record,
                None => {
                    return None;
                },
            },
            _ => {
                return None;
            },
        };
        match record.fields.find(name) {
            Some(f) => Some(
                OldTreePoint {
                    ty: &record.fields.entries[f].value.ty,
                    packed: has_packed(&record.fields.entries[f].value.annotations),
                    node: &self.node.children[c].value,
                },
            ),
            None => None,
        }
    }
}

/// Whether `sites` holds `site`.
pub fn occurs(sites: &Vec<Occurrence>, site: Occurrence) -> (yes: bool)
    ensures
        yes == sites@.contains(site),
{
    let mut i: usize = 0;
    while i < sites.len()
        invariant
            i <= sites.len(),
            forall|j: int| 0 <= j < i ==> sites@[j] != site,
        decreases sites.len() - i,
    {
        if sites[i] == site {
            return true;
        }
        i += 1;
    }
    false
}

/// The key of the enclosing node for `site`, where `site` is on the stack.
pub fn enclosing_key(stack: &Vec<StackEntry>, site: Occurrence) -> (key: Option<StorageKey>)
    ensures
        key == stack_key(stack@, site),
        key is Some == sites(stack@).contains(site),
{
    let mut i: usize = 0;
    while i < stack.len()
        invariant
            i <= stack.len(),
            stack_key(stack@, site) == stack_key_from(stack@, site, i as int),
            forall|j: int| 0 <= j < i ==> sites(stack@)[j] != site,
        decreases stack.len() - i,
    {
        if stack[i].site == site {
            assert(sites(stack@)[i as int] == site);
            return Some(stack[i].key);
        }
        i += 1;
    }
    None
}

/// The keys in the member plan of `node`, where it has one.
pub open spec fn member_keys(node: StorageNode) -> Seq<StorageKey> {
    match node.set {
        Some(member) => super::node_keys(*member),
        None => seq![],
    }
}

/// Adds every key in the subtree of `node` to `sink`, each once.
pub fn collect_storage_keys(node: &StorageNode, sink: &mut Vec<StorageKey>)
    requires
        old(sink)@.no_duplicates(),
    ensures
        final(sink)@.no_duplicates(),
        forall|k: StorageKey|
            #![trigger final(sink)@.contains(k)]
            #![trigger old(sink)@.contains(k)]
            #![trigger super::node_keys(*node).contains(k)]
            final(sink)@.contains(k) <==> old(sink)@.contains(k) || super::node_keys(*node).contains(k),
    decreases node,
{
    let ghost before = sink@;
    super::keygen::claim_key(sink, node.key);
    let ghost own = seq![node.key];
    let ghost head = own + member_keys(*node);
    proof {
        assert(own[0] == node.key);
        assert forall|k: StorageKey| sink@.contains(k) <==> before.contains(k) || own.contains(k) by {
            lemma_push_contains(before, node.key, k);
        }
        if !before.contains(node.key) {
            lemma_push_fresh(before, node.key);
        }
    }
    let ghost with_own = sink@;
    if let Some(member) = &node.set {
        collect_storage_keys(member, sink);
    }
    proof {
        assert forall|k: StorageKey| sink@.contains(k) <==> before.contains(k) || head.contains(k) by {
            lemma_concat_contains(own, member_keys(*node), k);
            assert(sink@.contains(k) <==> with_own.contains(k) || member_keys(*node).contains(k));
        }
    }
    let mut i: usize = 0;
    while i < node.children.len()
        invariant
            i <= node.children.len(),
            sink@.no_duplicates(),
            forall|k: StorageKey|
                (sink@.contains(k) || super::entries_keys(node.children@, i as int).contains(k)) <==> (
                before.contains(k) || head.contains(k) || super::entries_keys(node.children@, 0).contains(
                    k,
                )),
        decreases node.children.len() - i,
    {
        let ghost earlier = sink@;
        collect_storage_keys(&node.children[i].value, sink);
        proof {
            assert forall|k: StorageKey|
                (sink@.contains(k) || super::entries_keys(node.children@, i + 1).contains(k)) <==> (
                before.contains(k) || head.contains(k) || super::entries_keys(node.children@, 0).contains(
                    k,
                )) by {
                lemma_concat_contains(
                    super::node_keys(node.children@[i as int].value),
                    super::entries_keys(node.children@, i + 1),
                    k,
                );
                assert(sink@.contains(k) <==> earlier.contains(k) || super::node_keys(
                    node.children@[i as int].value,
                ).contains(k));
                assert((earlier.contains(k) || super::entries_keys(node.children@, i as int).contains(k))
                    <==> (before.contains(k) || head.contains(k) || super::entries_keys(
                    node.children@,
                    0,
                ).contains(k)));
            }
        }
        i += 1;
    }
    proof {
        assert(before == old(sink)@);
        assert forall|k: StorageKey|
            sink@.contains(k) <==> old(sink)@.contains(k) || super::node_keys(*node).contains(k) by {
            lemma_concat_contains(head, super::entries_keys(node.children@, 0), k);
            assert(super::entries_keys(node.children@, i as int) =~= Seq::<StorageKey>::empty());
            assert(super::node_keys(*node) =~= head + super::entries_keys(node.children@, 0));
            assert(!Seq::<StorageKey>::empty().contains(k));
            assert((sink@.contains(k) || super::entries_keys(node.children@, i as int).contains(k)) <==> (
            before.contains(k) || head.contains(k) || super::entries_keys(node.children@, 0).contains(k)));
            assert((head + super::entries_keys(node.children@, 0)).contains(k) <==> (head.contains(k)
                || super::entries_keys(node.children@, 0).contains(k)));
        }
    }
}

/// The first error among the descents from the fields from `from` on is the
/// error of the whole; where there is none, what they find is part of what
/// the whole finds.
proof fn lemma_scan_fields_step(schema: CompiledSchema, t: int, from: int, stack: Seq<Occurrence>)
    requires
        0 <= t < schema.types.entries@.len(),
        0 <= from < schema.types.entries@[t].value.fields.entries@.len(),
    ensures
        ({
            let fields = schema.types.entries@[t].value.fields.entries@;
            let first = if is_packed(fields[from].value.annotations@) {
                Ok(Set::empty())
            } else {
                scan(schema, fields[from].value.ty, Occurrence::Field(t as usize, from as usize), stack)
            };
            scan_fields(schema, t, from, stack) == (match first {
                Err(name) => Err(name),
                Ok(found) => match scan_fields(schema, t, from + 1, stack) {
                    Err(name) => Err(name),
                    Ok(more) => Ok(found.union(more)),
                },
            })
        }),
{
}

/// Adds `site` to `sink` unless it is there.
pub fn note_site(sink: &mut Vec<Occurrence>, site: Occurrence)
    ensures
        forall|o: Occurrence|
            #![trigger final(sink)@.contains(o)]
            #![trigger old(sink)@.contains(o)]
            final(sink)@.contains(o) <==> old(sink)@.contains(o) || o == site,
{
    if !occurs(sink, site) {
        sink.push(site);
        proof {
            assert forall|o: Occurrence| sink@.contains(o) <==> old(sink)@.contains(o) || o == site by {
                lemma_push_contains(old(sink)@, site, o);
            }
        }
    }
}

/// Descends from the occurrence `site` of type `ty` and adds to `sink` every
/// occurrence that the descent meets while it is still inside it. `state`
/// holds the occurrences that enclose `site`. Fails at the first record type
/// that the schema lacks.
pub fn collect_recursive_types(
    ty: &FieldType,
    site: Occurrence,
    schema: &CompiledSchema,
    state: &mut Vec<Occurrence>,
    sink: &mut Vec<Occurrence>,
) -> (done: Result<(), PlannerError>)
    requires
        site_valid(*schema, site),
    ensures
        scan(*schema, *ty, site, old(state)@) is Ok ==> done is Ok && final(state)@ == old(state)@,
        scan(*schema, *ty, site, old(state)@) is Ok ==> forall|o: Occurrence|
            #![trigger final(sink)@.contains(o)]
            #![trigger old(sink)@.contains(o)]
            #![trigger scan(*schema, *ty, site, old(state)@)->Ok_0.contains(o)]
            final(sink)@.contains(o) <==> old(sink)@.contains(o) || scan(
                *schema,
                *ty,
                site,
                old(state)@,
            )->Ok_0.contains(o),
        scan(*schema, *ty, site, old(state)@) matches Err(name) ==> done matches Err(
            PlannerError::MissingType(missing),
        ) && missing@ == name,
    decreases free_sites(*schema, old(state)@), 0nat, wrappers(*ty),
{
    match ty {
        FieldType::Optional(inner) => collect_recursive_types(inner, site, schema, state, sink),
        FieldType::SetOf(inner) => collect_recursive_types(inner, site, schema, state, sink),
        FieldType::Primitive(_) => Ok(()),
        FieldType::Named(name) => {
            if occurs(state, site) {
                note_site(sink, site);
                return Ok(());
            }
            let t = match schema.types.find(name.as_str()) {
                Some(t) => t,
                None => {
                    return Err(PlannerError::MissingType(name.clone()));
                },
            };
            let ghost enclosing = state@;
            let ghost found_before = sink@;
            state.push(site);
            proof {
                lemma_push_site(*schema, enclosing, site);
            }
            let fields = &schema.types.entries[t].value.fields.entries;
            let mut f: usize = 0;
            while f < fields.len()
                invariant
                    f <= fields.len(),
                    t < schema.types.entries@.len(),
                    fields@ == schema.types.entries@[t as int].value.fields.entries@,
                    state@ == enclosing.push(site),
                    enclosing == old(state)@,
                    found_before == old(sink)@,
                    scan(*schema, *ty, site, old(state)@) == scan_fields(*schema, t as int, 0, state@),
                    free_sites(*schema, state@) < free_sites(*schema, enclosing),
                    match scan_fields(*schema, t as int, f as int, state@) {
                        Err(name) => scan_fields(*schema, t as int, 0, state@) == Err::<
                            Set<Occurrence>,
                            Seq<char>,
                        >(name),
                        Ok(rest) => scan_fields(*schema, t as int, 0, state@) matches Ok(all) && forall|
                            o: Occurrence,
                        |
                            (found_before.contains(o) || all.contains(o)) <==> (sink@.contains(o)
                                || rest.contains(o)),
                    },
                decreases fields.len() - f,
            {
                proof {
                    lemma_scan_fields_step(*schema, t as int, f as int, state@);
                }
                let ghost found_so_far = sink@;
                let ghost pushed = state@;
                let ghost first = if is_packed(fields@[f as int].value.annotations@) {
                    Ok(Set::<Occurrence>::empty())
                } else {
                    scan(*schema, fields@[f as int].value.ty, Occurrence::Field(t, f), pushed)
                };
                if !has_packed(&fields[f].value.annotations) {
                    match collect_recursive_types(
                        &fields[f].value.ty,
                        Occurrence::Field(t, f),
                        schema,
                        state,
                        sink,
                    ) {
                        Ok(()) => {},
                        Err(e) => {
                            return Err(e);
                        },
                    }
                } else {
                    assert(forall|o: Occurrence| !Set::<Occurrence>::empty().contains(o));
                }
                proof {
                    let found = first->Ok_0;
                    assert(forall|o: Occurrence|
                        sink@.contains(o) <==> found_so_far.contains(o) || found.contains(o));
                    match scan_fields(*schema, t as int, f + 1, state@) {
                        Err(name) => {},
                        Ok(rest) => {
                            let all = scan_fields(*schema, t as int, 0, state@)->Ok_0;
                            assert forall|o: Occurrence|
                                (found_before.contains(o) || all.contains(o)) <==> (sink@.contains(o)
                                    || rest.contains(o)) by {
                                assert(found.union(rest).contains(o) <==> found.contains(o) || rest.contains(o));
                                assert(sink@.contains(o) <==> found_so_far.contains(o) || found.contains(o));
                            }
                        },
                    }
                }
                f += 1;
            }
            state.pop();
            proof {
                assert(state@ =~= old(state)@);
                let all = scan_fields(*schema, t as int, 0, enclosing.push(site))->Ok_0;
                assert(scan(*schema, *ty, site, old(state)@) == Ok::<Set<Occurrence>, Seq<char>>(all));
                assert forall|o: Occurrence| sink@.contains(o) <==> old(sink)@.contains(o) || all.contains(o) by {
                    assert(!Set::<Occurrence>::empty().contains(o));
                }
            }
            Ok(())
        },
    }
}

/// Every node in the plan of the field has a point in the earlier plan, so
/// that planning the field mints no key.
pub open spec fn covered(
    schema: CompiledSchema,
    old_schema: &CompiledSchema,
    field: FieldType,
    annotations: Seq<FieldAnnotation>,
    site: Occurrence,
    old: Option<OldTreePoint>,
    stack: Seq<Occurrence>,
) -> bool
    decreases free_sites(schema, stack), 0nat, wrappers(field),
{
    match field {
        FieldType::Optional(inner) => covered(
            schema,
            old_schema,
            *inner,
            annotations,
            site,
            unwrapped_old(old),
            stack,
        ),
        FieldType::Primitive(_) => old is Some,
        FieldType::SetOf(inner) => old is Some && covered(
            schema,
            old_schema,
            *inner,
            annotations,
            site,
            member_old(old, *inner, annotations),
            stack,
        ),
        FieldType::Named(name) => {
            if is_packed(annotations) {
                old is Some
            } else if stack.contains(site) || !site_valid(schema, site) {
                true
            } else {
                match schema.types.index_of(name@) {
                    None => true,
                    Some(t) => {
                        proof {
                            lemma_push_site(schema, stack, site);
                        }
                        old is Some && covered_fields(schema, old_schema, t, 0, old, stack.push(site))
                    },
                }
            }
        },
    }
}

/// Every node in the plans of the fields from `from` on, of a record of the
/// type at `t`, has a point in the earlier plan.
pub open spec fn covered_fields(
    schema: CompiledSchema,
    old_schema: &CompiledSchema,
    t: int,
    from: int,
    old: Option<OldTreePoint>,
    stack: Seq<Occurrence>,
) -> bool
    decreases free_sites(schema, stack), 1nat, schema.types.entries@[t].value.fields.entries@.len() - from,
{
    let fields = schema.types.entries@[t].value.fields.entries@;
    if 0 <= t < schema.types.entries@.len() && 0 <= from < fields.len() {
        &&& covered(
            schema,
            old_schema,
            fields[from].value.ty,
            fields[from].value.annotations@,
            Occurrence::Field(t as usize, from as usize),
            child_old(old_schema, old, fields[from].key@, fields[from].value),
            stack,
        )
        &&& covered_fields(schema, old_schema, t, from + 1, old, stack)
    } else {
        true
    }
}

/// What the planner carries through a plan: the earlier schema, the keys in
/// use, the cycle participants of the new schema, and the record occurrences
/// that enclose the field being planned, each with the key of its node.
pub struct PlanState<'a> {
    pub old_schema: &'a CompiledSchema,
    pub used_storage_keys: Vec<StorageKey>,
    pub recursive_types: Vec<Occurrence>,
    pub fields_in_stack: Vec<StackEntry>,
}

/// The names under which a field may stand in the earlier plan.
pub fn collect_alt_names<'b>(name: &'b str, annotations: &'b Vec<FieldAnnotation>) -> (names: Vec<&'b str>)
    ensures
        texts(names@) == alt_names(name@, annotations@),
{
    let mut names: Vec<&'b str> = Vec::new();
    names.push(name);
    assert(texts(names@) =~= seq![name@]);
    let mut i: usize = 0;
    while i < annotations.len()
        invariant
            i <= annotations.len(),
            texts(names@) + crate::schema::renamed_from(annotations@, i as int) == alt_names(
                name@,
                annotations@,
            ),
        decreases annotations.len() - i,
    {
        let ghost before = names@;
        if let FieldAnnotation::RenameFrom(previous) = &annotations[i] {
            names.push(previous.as_str());
            assert(texts(names@) =~= texts(before).push(previous@));
            assert(texts(names@) + crate::schema::renamed_from(annotations@, i + 1) =~= texts(before)
                + crate::schema::renamed_from(annotations@, i as int));
        }
        i += 1;
    }
    assert(texts(names@) + crate::schema::renamed_from(annotations@, i as int) =~= texts(names@));
    names
}

/// The key for a node: that of its point in the earlier plan, or a new one.
pub fn node_key<'a>(plan_st: &mut PlanState<'a>, old_point: &Option<OldTreePoint<'a>>) -> (key: Result<
    StorageKey,
    PlannerError,
>)
    ensures
        final(plan_st).old_schema == old(plan_st).old_schema,
        final(plan_st).recursive_types == old(plan_st).recursive_types,
        final(plan_st).fields_in_stack == old(plan_st).fields_in_stack,
        match key {
            Ok(k) => match old_point {
                Some(point) => k == point.node.key && final(plan_st).used_storage_keys@ == old(
                    plan_st,
                ).used_storage_keys@,
                None => !old(plan_st).used_storage_keys@.contains(k) && final(plan_st).used_storage_keys@
                    == old(plan_st).used_storage_keys@.push(k),
            },
            Err(e) => e is KeyUnavailable && old_point is None && final(plan_st).used_storage_keys@ == old(
                plan_st,
            ).used_storage_keys@,
        },
{
    match old_point {
        Some(point) => Ok(point.node.key),
        None => match rand_storage_key(&mut plan_st.used_storage_keys) {
            Ok(k) => Ok(k),
            Err(e) => Err(PlannerError::KeyUnavailable(e)),
        },
    }
}

/// The keys minted for the first `upto` children depend on those children
/// only.
proof fn lemma_minted_children_prefix(
    schema: CompiledSchema,
    old_schema: &CompiledSchema,
    t: int,
    old: Option<OldTreePoint>,
    stack: Seq<StackEntry>,
    a: Seq<Entry<StorageNode>>,
    b: Seq<Entry<StorageNode>>,
    upto: int,
)
    requires
        upto <= a.len(),
        upto <= b.len(),
        forall|i: int| 0 <= i < upto ==> a[i] == b[i],
    ensures
        minted_children(schema, old_schema, t, old, stack, a, upto) == minted_children(
            schema,
            old_schema,
            t,
            old,
            stack,
            b,
            upto,
        ),
    decreases upto,
{
    if upto > 0 {
        lemma_minted_children_prefix(schema, old_schema, t, old, stack, a, b, upto - 1);
    }
}

/// Plans the field of type `field` at `site`. `old_point`, where there is
/// one, has been validated against `field`.
pub fn generate_field<'a>(
    plan_st: &mut PlanState<'a>,
    schema: &CompiledSchema,
    field: &FieldType,
    annotations: &Vec<FieldAnnotation>,
    site: Occurrence,
    old_point: Option<OldTreePoint<'a>>,
) -> (planned: Result<StorageNode, PlannerError>)
    requires
        site_valid(*schema, site),
        is_packed(annotations@) || scan(*schema, *field, site, sites(old(plan_st).fields_in_stack@)) is Ok,
    ensures
        final(plan_st).old_schema == old(plan_st).old_schema,
        final(plan_st).recursive_types == old(plan_st).recursive_types,
        planned matches Ok(node) ==> {
            &&& final(plan_st).fields_in_stack@ == old(plan_st).fields_in_stack@
            &&& fits(
                *schema,
                old(plan_st).old_schema,
                old(plan_st).recursive_types@.to_set(),
                *field,
                annotations@,
                site,
                old_point,
                old(plan_st).fields_in_stack@,
                node,
            )
            &&& final(plan_st).used_storage_keys@ == old(plan_st).used_storage_keys@ + minted(
                *schema,
                old(plan_st).old_schema,
                *field,
                annotations@,
                site,
                old_point,
                old(plan_st).fields_in_stack@,
                node,
            )
        },
        planned matches Err(e) ==> e is KeyUnavailable,
        covered(
            *schema,
            old(plan_st).old_schema,
            *field,
            annotations@,
            site,
            old_point,
            sites(old(plan_st).fields_in_stack@),
        ) ==> planned is Ok,
        old(plan_st).used_storage_keys@.no_duplicates() ==> final(plan_st).used_storage_keys@.no_duplicates(),
    decreases free_sites(*schema, sites(old(plan_st).fields_in_stack@)), wrappers(*field),
{
    match field {
        FieldType::Optional(inner) => {
            let reduced = match old_point {
                Some(point) => Some(point.reduce_optional()),
                None => None,
            };
            generate_field(plan_st, schema, inner, annotations, site, reduced)
        },
        FieldType::Primitive(_) => {
            let key = match node_key(plan_st, &old_point) {
                Ok(key) => key,
                Err(e) => {
                    return Err(e);
                },
            };
            proof {
                if old_point is None && old(plan_st).used_storage_keys@.no_duplicates() {
                    lemma_push_fresh(old(plan_st).used_storage_keys@, key);
                }
                assert(old(plan_st).used_storage_keys@ + Seq::<StorageKey>::empty() =~= old(
                    plan_st,
                ).used_storage_keys@);
                assert(old(plan_st).used_storage_keys@ + seq![key] =~= old(plan_st).used_storage_keys@.push(
                    key,
                ));
            }
            Ok(
                StorageNode {
                    key,
                    flattened: false,
                    subspace_reference: false,
                    packed: false,
                    set: None,
                    children: Vec::new(),
                },
            )
        },
        FieldType::SetOf(inner) => {
            let member_point = match old_point {
                Some(point) => match point.reduce_set() {
                    Some(member) => member.validate_type(inner, annotations),
                    None => None,
                },
                None => None,
            };
            let member = match generate_field(plan_st, schema, inner, annotations, site, member_point) {
                Ok(member) => member,
                Err(e) => {
                    return Err(e);
                },
            };
            let ghost with_member = plan_st.used_storage_keys@;
            let key = match node_key(plan_st, &old_point) {
                Ok(key) => key,
                Err(e) => {
                    return Err(e);
                },
            };
            let node = StorageNode {
                key,
                flattened: false,
                subspace_reference: false,
                packed: false,
                set: Some(Box::new(member)),
                children: Vec::new(),
            };
            proof {
                if old_point is None && with_member.no_duplicates() {
                    lemma_push_fresh(with_member, key);
                }
                let below = minted(
                    *schema,
                    old(plan_st).old_schema,
                    **inner,
                    annotations@,
                    site,
                    member_old(old_point, **inner, annotations@),
                    old(plan_st).fields_in_stack@,
                    member,
                );
                assert(with_member == old(plan_st).used_storage_keys@ + below);
                assert(plan_st.used_storage_keys@ =~= old(plan_st).used_storage_keys@ + (below + own_minted(
                    old_point,
                    node,
                )));
            }
            Ok(node)
        },
        FieldType::Named(name) => {
            if has_packed(annotations) {
                let key = match node_key(plan_st, &old_point) {
                    Ok(key) => key,
                    Err(e) => {
                        return Err(e);
                    },
                };
                proof {
                    if old_point is None && old(plan_st).used_storage_keys@.no_duplicates() {
                        lemma_push_fresh(old(plan_st).used_storage_keys@, key);
                    }
                    assert(old(plan_st).used_storage_keys@ + Seq::<StorageKey>::empty() =~= old(
                        plan_st,
                    ).used_storage_keys@);
                    assert(old(plan_st).used_storage_keys@ + seq![key] =~= old(
                        plan_st,
                    ).used_storage_keys@.push(key));
                }
                return Ok(
                    StorageNode {
                        key,
                        flattened: false,
                        subspace_reference: false,
                        packed: true,
                        set: None,
                        children: Vec::new(),
                    },
                );
            }
            if let Some(key) = enclosing_key(&plan_st.fields_in_stack, site) {
                proof {
                    assert(old(plan_st).used_storage_keys@ + Seq::<StorageKey>::empty() =~= old(
                        plan_st,
                    ).used_storage_keys@);
                }
                return Ok(
                    StorageNode {
                        key,
                        flattened: false,
                        subspace_reference: true,
                        packed: false,
                        set: None,
                        children: Vec::new(),
                    },
                );
            }
            let t = match schema.types.find(name.as_str()) {
                Some(t) => t,
                None => {
                    proof {
                        assert(false);
                    }
                    return Err(PlannerError::MissingType(name.clone()));
                },
            };
            let storage_key = match node_key(plan_st, &old_point) {
                Ok(key) => key,
                Err(e) => {
                    return Err(e);
                },
            };
            let flattened = !occurs(&plan_st.recursive_types, site);
            let ghost stack = old(plan_st).fields_in_stack@;
            let ghost entry = StackEntry { site, key: storage_key };
            let ghost with_own = plan_st.used_storage_keys@;
            plan_st.fields_in_stack.push(StackEntry { site, key: storage_key });
            proof {
                if old_point is None && old(plan_st).used_storage_keys@.no_duplicates() {
                    lemma_push_fresh(old(plan_st).used_storage_keys@, storage_key);
                }
                assert(sites(stack.push(entry)) =~= sites(stack).push(site));
                lemma_push_site(*schema, sites(stack), site);
            }
            let fields = &schema.types.entries[t].value.fields.entries;
            let mut children: Vec<Entry<StorageNode>> = Vec::new();
            let mut j: usize = 0;
            while j < fields.len()
                invariant
                    j <= fields.len(),
                    t < schema.types.entries@.len(),
                    fields@ == schema.types.entries@[t as int].value.fields.entries@,
                    stack == old(plan_st).fields_in_stack@,
                    entry == (StackEntry { site, key: storage_key }),
                    plan_st.old_schema == old(plan_st).old_schema,
                    plan_st.recursive_types == old(plan_st).recursive_types,
                    plan_st.fields_in_stack@ == stack.push(entry),
                    free_sites(*schema, sites(stack.push(entry))) < free_sites(*schema, sites(stack)),
                    scan_fields(*schema, t as int, j as int, sites(stack.push(entry))) is Ok,
                    children@.len() == j,
                    forall|i: int|
                        0 <= i < j ==> {
                            &&& (#[trigger] children@[i]).key@ == fields@[i].key@
                            &&& fits(
                                *schema,
                                old(plan_st).old_schema,
                                old(plan_st).recursive_types@.to_set(),
                                fields@[i].value.ty,
                                fields@[i].value.annotations@,
                                Occurrence::Field(t, i as usize),
                                child_old(old(plan_st).old_schema, old_point, fields@[i].key@, fields@[i].value),
                                stack.push(entry),
                                children@[i].value,
                            )
                        },
                    plan_st.used_storage_keys@ == with_own + minted_children(
                        *schema,
                        old(plan_st).old_schema,
                        t as int,
                        old_point,
                        stack.push(entry),
                        children@,
                        j as int,
                    ),
                    old(plan_st).used_storage_keys@.no_duplicates() ==> with_own.no_duplicates(),
                    with_own.no_duplicates() ==> plan_st.used_storage_keys@.no_duplicates(),
                    covered(
                        *schema,
                        old(plan_st).old_schema,
                        *field,
                        annotations@,
                        site,
                        old_point,
                        sites(stack),
                    ) ==> covered_fields(
                        *schema,
                        old(plan_st).old_schema,
                        t as int,
                        j as int,
                        old_point,
                        sites(stack.push(entry)),
                    ),
                decreases fields.len() - j,
            {
                let subfield = &fields[j];
                let altnames = collect_alt_names(subfield.key.as_str(), &subfield.value.annotations);
                let sub_point = match old_point {
                    Some(point) => match point.resolve_subfield(plan_st.old_schema, &altnames) {
                        Some(child) => child.validate_type(&subfield.value.ty, &subfield.value.annotations),
                        None => None,
                    },
                    None => None,
                };
                proof {
                    lemma_scan_fields_step(*schema, t as int, j as int, sites(stack.push(entry)));
                }
                let ghost used_before = plan_st.used_storage_keys@;
                let ghost children_before = children@;
                let child = match generate_field(
                    plan_st,
                    schema,
                    &subfield.value.ty,
                    &subfield.value.annotations,
                    Occurrence::Field(t, j),
                    sub_point,
                ) {
                    Ok(child) => child,
                    Err(e) => {
                        return Err(e);
                    },
                };
                children.push(Entry { key: subfield.key.clone(), value: child });
                proof {
                    lemma_minted_children_prefix(
                        *schema,
                        old(plan_st).old_schema,
                        t as int,
                        old_point,
                        stack.push(entry),
                        children_before,
                        children@,
                        j as int,
                    );
                    let below = minted(
                        *schema,
                        old(plan_st).old_schema,
                        fields@[j as int].value.ty,
                        fields@[j as int].value.annotations@,
                        Occurrence::Field(t, j),
                        child_old(old(plan_st).old_schema, old_point, fields@[j as int].key@, fields@[j as int].value),
                        stack.push(entry),
                        child,
                    );
                    assert(plan_st.used_storage_keys@ == used_before + below);
                    assert(minted_children(
                        *schema,
                        old(plan_st).old_schema,
                        t as int,
                        old_point,
                        stack.push(entry),
                        children@,
                        j + 1,
                    ) == minted_children(
                        *schema,
                        old(plan_st).old_schema,
                        t as int,
                        old_point,
                        stack.push(entry),
                        children@,
                        j as int,
                    ) + below);
                    assert(plan_st.used_storage_keys@ =~= with_own + minted_children(
                        *schema,
                        old(plan_st).old_schema,
                        t as int,
                        old_point,
                        stack.push(entry),
                        children@,
                        j + 1,
                    ));
                }
                j += 1;
            }
            plan_st.fields_in_stack.pop();
            let node = StorageNode {
                key: storage_key,
                flattened,
                subspace_reference: false,
                packed: false,
                set: None,
                children,
            };
            proof {
                assert(plan_st.fields_in_stack@ =~= old(plan_st).fields_in_stack@);
                assert(plan_st.used_storage_keys@ =~= old(plan_st).used_storage_keys@ + (own_minted(
                    old_point,
                    node,
                ) + minted_children(
                    *schema,
                    old(plan_st).old_schema,
                    t as int,
                    old_point,
                    stack.push(entry),
                    node.children@,
                    node.children@.len() as int,
                )));
            }
            Ok(node)
        },
    }
}

/// The point in the earlier plan for the export `name` of type `field`: the
/// earlier export and the earlier plan's node of that name, if both exist and
/// the types agree.
pub open spec fn export_old<'a>(
    old_plan: &'a StoragePlan,
    old_schema: &'a CompiledSchema,
    name: Seq<char>,
    field: FieldType,
) -> Option<OldTreePoint<'a>> {
    match old_schema.exports.index_of(name) {
        None => None,
        Some(e) => match old_plan.nodes.index_of(name) {
            None => None,
            Some(n) => (OldTreePoint {
                ty: &old_schema.exports.entries@[e].value,
                packed: false,
                node: &old_plan.nodes.entries@[n].value,
            }).spec_validate_type(field, seq![]),
        },
    }
}

/// `plan` is a plan of `schema`: it has one node per export, under the
/// exports' names and in their order, and each node is the plan of its
/// export, with keys carried over from `old_plan` where the types agree.
pub open spec fn plan_fits(
    schema: CompiledSchema,
    old_plan: &StoragePlan,
    old_schema: &CompiledSchema,
    recursive: Set<Occurrence>,
    plan: StoragePlan,
) -> bool {
    &&& plan.nodes.entries@.len() == schema.exports.entries@.len()
    &&& forall|i: int|
        0 <= i < schema.exports.entries@.len() ==> {
            &&& (#[trigger] plan.nodes.entries@[i]).key@ == schema.exports.entries@[i].key@
            &&& fits(
                schema,
                old_schema,
                recursive,
                schema.exports.entries@[i].value,
                seq![],
                Occurrence::Export(i as usize),
                export_old(old_plan, old_schema, schema.exports.entries@[i].key@, schema.exports.entries@[i].value),
                seq![],
                plan.nodes.entries@[i].value,
            )
        }
}

/// The keys that were minted for the first `upto` exports of a plan.
pub open spec fn plan_minted(
    schema: CompiledSchema,
    old_plan: &StoragePlan,
    old_schema: &CompiledSchema,
    nodes: Seq<Entry<StorageNode>>,
    upto: int,
) -> Seq<StorageKey>
    decreases upto,
{
    if 0 < upto <= nodes.len() && upto <= schema.exports.entries@.len() {
        plan_minted(schema, old_plan, old_schema, nodes, upto - 1) + minted(
            schema,
            old_schema,
            schema.exports.entries@[upto - 1].value,
            seq![],
            Occurrence::Export((upto - 1) as usize),
            export_old(
                old_plan,
                old_schema,
                schema.exports.entries@[upto - 1].key@,
                schema.exports.entries@[upto - 1].value,
            ),
            seq![],
            nodes[upto - 1].value,
        )
    } else {
        seq![]
    }
}

/// Every node in the plans of the exports from `from` on has a point in the
/// earlier plan, so that planning them mints no key.
pub open spec fn plan_covered(
    schema: CompiledSchema,
    old_plan: &StoragePlan,
    old_schema: &CompiledSchema,
    from: int,
) -> bool
    decreases schema.exports.entries@.len() - from,
{
    if 0 <= from < schema.exports.entries@.len() {
        &&& covered(
            schema,
            old_schema,
            schema.exports.entries@[from].value,
            seq![],
            Occurrence::Export(from as usize),
            export_old(old_plan, old_schema, schema.exports.entries@[from].key@, schema.exports.entries@[from].value),
            seq![],
        )
        &&& plan_covered(schema, old_plan, old_schema, from + 1)
    } else {
        true
    }
}

proof fn lemma_plan_minted_prefix(
    schema: CompiledSchema,
    old_plan: &StoragePlan,
    old_schema: &CompiledSchema,
    a: Seq<Entry<StorageNode>>,
    b: Seq<Entry<StorageNode>>,
    upto: int,
)
    requires
        upto <= a.len(),
        upto <= b.len(),
        forall|i: int| 0 <= i < upto ==> a[i] == b[i],
    ensures
        plan_minted(schema, old_plan, old_schema, a, upto) == plan_minted(schema, old_plan, old_schema, b, upto),
    decreases upto,
{
    if upto > 0 {
        lemma_plan_minted_prefix(schema, old_plan, old_schema, a, b, upto - 1);
    }
}

/// Where nothing is carried over from an earlier plan, the keys minted for a
/// field are the keys that the nodes of its plan hold for themselves.
pub proof fn lemma_unmatched_minted(
    schema: CompiledSchema,
    old_schema: &CompiledSchema,
    recursive: Set<Occurrence>,
    field: FieldType,
    annotations: Seq<FieldAnnotation>,
    site: Occurrence,
    stack: Seq<StackEntry>,
    node: StorageNode,
)
    requires
        fits(schema, old_schema, recursive, field, annotations, site, None, stack, node),
    ensures
        minted(schema, old_schema, field, annotations, site, None, stack, node) == owned_keys(node),
    decreases node, wrappers(field),
{
    match field {
        FieldType::Optional(inner) => {
            lemma_unmatched_minted(schema, old_schema, recursive, *inner, annotations, site, stack, node);
        },
        FieldType::Primitive(_) => {
            assert(entries_owned_keys(node.children@, 0) =~= seq![]);
        },
        FieldType::SetOf(inner) => {
            let member = node.set->Some_0;
            lemma_unmatched_minted(schema, old_schema, recursive, *inner, annotations, site, stack, *member);
        },
        FieldType::Named(name) => {
            if is_packed(annotations) {
                assert(entries_owned_keys(node.children@, 0) =~= seq![]);
            } else if stack_key(stack, site) is Some {
            } else {
                let t = schema.types.index_of(name@)->Some_0;
                crate::strmap::lemma_first_index(schema.types.entries@, name@, 0);
                lemma_unmatched_children(
                    schema,
                    old_schema,
                    recursive,
                    t,
                    stack.push(StackEntry { site, key: node.key }),
                    node,
                    node.children@.len() as int,
                );
            }
        },
    }
}

proof fn lemma_unmatched_children(
    schema: CompiledSchema,
    old_schema: &CompiledSchema,
    recursive: Set<Occurrence>,
    t: int,
    stack: Seq<StackEntry>,
    node: StorageNode,
    upto: int,
)
    requires
        0 <= t < schema.types.entries@.len(),
        0 <= upto <= node.children@.len(),
        node.children@.len() == schema.types.entries@[t].value.fields.entries@.len(),
        forall|i: int|
            0 <= i < node.children@.len() ==> fits(
                schema,
                old_schema,
                recursive,
                schema.types.entries@[t].value.fields.entries@[i].value.ty,
                schema.types.entries@[t].value.fields.entries@[i].value.annotations@,
                Occurrence::Field(t as usize, i as usize),
                None,
                stack,
                (#[trigger] node.children@[i]).value,
            ),
    ensures
        minted_children(schema, old_schema, t, None, stack, node.children@, upto) == entries_owned_keys(
            node.children@,
            upto,
        ),
    decreases node, 0nat, upto,
{
    if upto > 0 {
        lemma_unmatched_children(schema, old_schema, recursive, t, stack, node, upto - 1);
        let fields = schema.types.entries@[t].value.fields.entries@;
        assert(fits(
            schema,
            old_schema,
            recursive,
            fields[upto - 1].value.ty,
            fields[upto - 1].value.annotations@,
            Occurrence::Field(t as usize, (upto - 1) as usize),
            None,
            stack,
            node.children@[upto - 1].value,
        ));
        lemma_unmatched_minted(
            schema,
            old_schema,
            recursive,
            fields[upto - 1].value.ty,
            fields[upto - 1].value.annotations@,
            Occurrence::Field(t as usize, (upto - 1) as usize),
            stack,
            node.children@[upto - 1].value,
        );
    }
}

/// The exports' plans mint what a plan without an earlier plan holds.
proof fn lemma_unmatched_plan(
    schema: CompiledSchema,
    old_plan: &StoragePlan,
    old_schema: &CompiledSchema,
    recursive: Set<Occurrence>,
    plan: StoragePlan,
    upto: int,
)
    requires
        old_plan.nodes.entries@.len() == 0,
        plan_fits(schema, old_plan, old_schema, recursive, plan),
        0 <= upto <= plan.nodes.entries@.len(),
    ensures
        plan_minted(schema, old_plan, old_schema, plan.nodes.entries@, upto) == entries_owned_keys(
            plan.nodes.entries@,
            upto,
        ),
    decreases upto,
{
    if upto > 0 {
        lemma_unmatched_plan(schema, old_plan, old_schema, recursive, plan, upto - 1);
        let export = schema.exports.entries@[upto - 1];
        assert(plan.nodes.entries@[upto - 1].key@ == export.key@);
        crate::strmap::lemma_first_index(old_plan.nodes.entries@, export.key@, 0);
        assert(export_old(old_plan, old_schema, export.key@, export.value) is None);
        lemma_unmatched_minted(
            schema,
            old_schema,
            recursive,
            export.value,
            seq![],
            Occurrence::Export((upto - 1) as usize),
            seq![],
            plan.nodes.entries@[upto - 1].value,
        );
    }
}

/// Builds the storage plan of `schema`.
///
/// Every node whose field stands in `old_plan` under a type that still agrees
/// keeps its key; every other node gets a new key, different from each other
/// new key and from every key of `old_plan`. The plan fails with
/// `MissingType` exactly if a descent from an export reaches a record type
/// that `schema` lacks, whatever the clock and the random generator give; it
/// succeeds wherever no key has to be minted.
pub fn generate_plan_for_schema<'a>(
    old_plan: &'a StoragePlan,
    old_schema: &'a CompiledSchema,
    schema: &CompiledSchema,
) -> (planned: Result<StoragePlan, PlannerError>)
    ensures
        recursive_sites(*schema) matches Err(name) ==> planned matches Err(
            PlannerError::MissingType(missing),
        ) && missing@ == name,
        recursive_sites(*schema) is Ok ==> (planned matches Err(e) ==> e is KeyUnavailable),
        recursive_sites(*schema) is Ok && plan_covered(*schema, old_plan, old_schema, 0) ==> planned is Ok,
        planned matches Ok(plan) ==> {
            &&& recursive_sites(*schema) is Ok
            &&& plan_fits(*schema, old_plan, old_schema, recursive_sites(*schema)->Ok_0, plan)
            &&& plan_minted(
                *schema,
                old_plan,
                old_schema,
                plan.nodes.entries@,
                plan.nodes.entries@.len() as int,
            ).no_duplicates()
            &&& forall|k: StorageKey|
                plan_minted(
                    *schema,
                    old_plan,
                    old_schema,
                    plan.nodes.entries@,
                    plan.nodes.entries@.len() as int,
                ).contains(k) ==> !plan_keys(*old_plan).contains(k)
            &&& old_plan.nodes.entries@.len() == 0 ==> plan_owned_keys(plan).no_duplicates()
        },
{
    // The cycle participants.
    let mut recursive_types: Vec<Occurrence> = Vec::new();
    let mut state: Vec<Occurrence> = Vec::new();
    let mut e: usize = 0;
    assert(state@ =~= seq![]);
    while e < schema.exports.entries.len()
        invariant
            e <= schema.exports.entries@.len(),
            state@ == Seq::<Occurrence>::empty(),
            scan_exports(*schema, e as int) matches Err(name) ==> scan_exports(*schema, 0) == Err::<
                Set<Occurrence>,
                Seq<char>,
            >(name),
            scan_exports(*schema, e as int) is Ok ==> scan_exports(*schema, 0) is Ok,
            scan_exports(*schema, e as int) is Ok ==> forall|o: Occurrence|
                scan_exports(*schema, 0)->Ok_0.contains(o) <==> (recursive_types@.contains(o)
                    || scan_exports(*schema, e as int)->Ok_0.contains(o)),
        decreases schema.exports.entries.len() - e,
    {
        let ghost found_so_far = recursive_types@;
        match collect_recursive_types(
            &schema.exports.entries[e].value,
            Occurrence::Export(e),
            schema,
            &mut state,
            &mut recursive_types,
        ) {
            Ok(()) => {},
            Err(err) => {
                return Err(err);
            },
        }
        e += 1;
        proof {
            let found = scan(
                *schema,
                schema.exports.entries@[e - 1].value,
                Occurrence::Export((e - 1) as usize),
                Seq::<Occurrence>::empty(),
            )->Ok_0;
            assert(scan(
                *schema,
                schema.exports.entries@[e - 1].value,
                Occurrence::Export((e - 1) as usize),
                Seq::<Occurrence>::empty(),
            ) is Ok);
            if scan_exports(*schema, e as int) is Ok {
                assert(scan_exports(*schema, e - 1) == Ok::<Set<Occurrence>, Seq<char>>(
                    found.union(scan_exports(*schema, e as int)->Ok_0),
                ));
                assert forall|o: Occurrence|
                    scan_exports(*schema, 0)->Ok_0.contains(o) <==> (recursive_types@.contains(o)
                        || scan_exports(*schema, e as int)->Ok_0.contains(o)) by {
                    assert(found.union(scan_exports(*schema, e as int)->Ok_0).contains(o) <==> found.contains(o)
                        || scan_exports(*schema, e as int)->Ok_0.contains(o));
                    assert(recursive_types@.contains(o) <==> found_so_far.contains(o) || found.contains(o));
                    assert(scan_exports(*schema, 0)->Ok_0.contains(o) <==> (found_so_far.contains(o)
                        || scan_exports(*schema, e - 1)->Ok_0.contains(o)));
                }
            }
        }
    }
    let ghost recursive = scan_exports(*schema, 0)->Ok_0;
    proof {
        assert(recursive_types@.to_set() =~= recursive);
    }

    // The keys of the earlier plan stay in use.
    let mut used: Vec<StorageKey> = Vec::new();
    let mut n: usize = 0;
    while n < old_plan.nodes.entries.len()
        invariant
            n <= old_plan.nodes.entries@.len(),
            used@.no_duplicates(),
            forall|k: StorageKey|
                (used@.contains(k) || entries_keys(old_plan.nodes.entries@, n as int).contains(k)) <==> plan_keys(
                    *old_plan,
                ).contains(k),
        decreases old_plan.nodes.entries.len() - n,
    {
        let ghost earlier = used@;
        collect_storage_keys(&old_plan.nodes.entries[n].value, &mut used);
        proof {
            assert forall|k: StorageKey|
                (used@.contains(k) || entries_keys(old_plan.nodes.entries@, n + 1).contains(k)) <==> plan_keys(
                    *old_plan,
                ).contains(k) by {
                lemma_concat_contains(
                    super::node_keys(old_plan.nodes.entries@[n as int].value),
                    entries_keys(old_plan.nodes.entries@, n + 1),
                    k,
                );
                assert(used@.contains(k) <==> earlier.contains(k) || super::node_keys(
                    old_plan.nodes.entries@[n as int].value,
                ).contains(k));
                assert((earlier.contains(k) || entries_keys(old_plan.nodes.entries@, n as int).contains(k))
                    <==> plan_keys(*old_plan).contains(k));
            }
        }
        n += 1;
    }
    let ghost kept = used@;
    proof {
        assert forall|k: StorageKey| plan_keys(*old_plan).contains(k) implies kept.contains(k) by {
            assert(entries_keys(old_plan.nodes.entries@, n as int) =~= Seq::<StorageKey>::empty());
            assert(!Seq::<StorageKey>::empty().contains(k));
        }
    }

    let mut plan_st = PlanState {
        old_schema,
        used_storage_keys: used,
        recursive_types,
        fields_in_stack: Vec::new(),
    };
    let no_annotations: Vec<FieldAnnotation> = Vec::new();
    let mut plan = StoragePlan::new();
    let mut x: usize = 0;
    proof {
        assert(plan_st.fields_in_stack@ =~= seq![]);
        assert(no_annotations@ =~= seq![]);
        assert(sites(Seq::<StackEntry>::empty()) =~= Seq::<Occurrence>::empty());
        assert(kept + Seq::<StorageKey>::empty() =~= kept);
    }
    while x < schema.exports.entries.len()
        invariant
            x <= schema.exports.entries@.len(),
            scan_exports(*schema, 0) is Ok,
            recursive == scan_exports(*schema, 0)->Ok_0,
            scan_exports(*schema, x as int) is Ok,
            plan_st.old_schema == old_schema,
            plan_st.recursive_types@.to_set() == recursive,
            plan_st.fields_in_stack@ == Seq::<StackEntry>::empty(),
            no_annotations@ == Seq::<FieldAnnotation>::empty(),
            sites(Seq::<StackEntry>::empty()) == Seq::<Occurrence>::empty(),
            plan.nodes.entries@.len() == x,
            forall|i: int|
                0 <= i < x ==> {
                    &&& (#[trigger] plan.nodes.entries@[i]).key@ == schema.exports.entries@[i].key@
                    &&& fits(
                        *schema,
                        old_schema,
                        recursive,
                        schema.exports.entries@[i].value,
                        seq![],
                        Occurrence::Export(i as usize),
                        export_old(
                            old_plan,
                            old_schema,
                            schema.exports.entries@[i].key@,
                            schema.exports.entries@[i].value,
                        ),
                        seq![],
                        plan.nodes.entries@[i].value,
                    )
                },
            plan_st.used_storage_keys@ == kept + plan_minted(
                *schema,
                old_plan,
                old_schema,
                plan.nodes.entries@,
                x as int,
            ),
            plan_st.used_storage_keys@.no_duplicates(),
            plan_covered(*schema, old_plan, old_schema, 0) ==> plan_covered(
                *schema,
                old_plan,
                old_schema,
                x as int,
            ),
        decreases schema.exports.entries.len() - x,
    {
        let export = &schema.exports.entries[x];
        let old_point = match old_schema.exports.find(export.key.as_str()) {
            Some(e) => match old_plan.nodes.find(export.key.as_str()) {
                Some(n) => (OldTreePoint {
                    ty: &old_schema.exports.entries[e].value,
                    packed: false,
                    node: &old_plan.nodes.entries[n].value,
                }).validate_type(&export.value, &no_annotations),
                None => None,
            },
            None => None,
        };
        let ghost used_before = plan_st.used_storage_keys@;
        let ghost nodes_before = plan.nodes.entries@;
        let node = match generate_field(
            &mut plan_st,
            schema,
            &export.value,
            &no_annotations,
            Occurrence::Export(x),
            old_point,
        ) {
            Ok(node) => node,
            Err(err) => {
                return Err(err);
            },
        };
        plan.nodes.entries.push(Entry { key: export.key.clone(), value: node });
        proof {
            lemma_plan_minted_prefix(
                *schema,
                old_plan,
                old_schema,
                nodes_before,
                plan.nodes.entries@,
                x as int,
            );
            let below = minted(
                *schema,
                old_schema,
                schema.exports.entries@[x as int].value,
                seq![],
                Occurrence::Export(x),
                export_old(
                    old_plan,
                    old_schema,
                    schema.exports.entries@[x as int].key@,
                    schema.exports.entries@[x as int].value,
                ),
                seq![],
                node,
            );
            assert(plan_st.used_storage_keys@ == used_before + below);
            assert(plan_minted(*schema, old_plan, old_schema, plan.nodes.entries@, x + 1) == plan_minted(
                *schema,
                old_plan,
                old_schema,
                plan.nodes.entries@,
                x as int,
            ) + below);
            assert(plan_st.used_storage_keys@ =~= kept + plan_minted(
                *schema,
                old_plan,
                old_schema,
                plan.nodes.entries@,
                x + 1,
            ));
        }
        x += 1;
    }
    proof {
        let all_minted = plan_minted(
            *schema,
            old_plan,
            old_schema,
            plan.nodes.entries@,
            plan.nodes.entries@.len() as int,
        );
        lemma_concat_distinct(kept, all_minted);
        assert(plan_fits(*schema, old_plan, old_schema, recursive, plan));
        if old_plan.nodes.entries@.len() == 0 {
            lemma_unmatched_plan(
                *schema,
                old_plan,
                old_schema,
                recursive,
                plan,
                plan.nodes.entries@.len() as int,
            );
        }
    }
    Ok(plan)
}

/// `plan` is a plan of `schema` by itself: one node per export, each the plan
/// of its export, whatever its keys are.
pub open spec fn is_plan_of(schema: CompiledSchema, recursive: Set<Occurrence>, plan: StoragePlan) -> bool {
    &&& plan.nodes.entries@.len() == schema.exports.entries@.len()
    &&& forall|i: int|
        0 <= i < schema.exports.entries@.len() ==> {
            &&& (#[trigger] plan.nodes.entries@[i]).key@ == schema.exports.entries@[i].key@
            &&& fits(
                schema,
                &schema,
                recursive,
                schema.exports.entries@[i].value,
                seq![],
                Occurrence::Export(i as usize),
                None,
                seq![],
                plan.nodes.entries@[i].value,
            )
        }
}

/// An occurrence has a key on the stack exactly if it is among the stack's
/// occurrences.
proof fn lemma_stack_key_sites(stack: Seq<StackEntry>, site: Occurrence, from: int)
    requires
        0 <= from,
    ensures
        stack_key_from(stack, site, from) is Some <==> exists|i: int|
            from <= i < stack.len() && stack[i].site == site,
    decreases stack.len() - from,
{
    if from < stack.len() {
        lemma_stack_key_sites(stack, site, from + 1);
    }
}

proof fn lemma_stack_key_contains(stack: Seq<StackEntry>, site: Occurrence)
    ensures
        stack_key(stack, site) is Some <==> sites(stack).contains(site),
{
    lemma_stack_key_sites(stack, site, 0);
    if sites(stack).contains(site) {
        let i = choose|i: int| 0 <= i < sites(stack).len() && sites(stack)[i] == site;
        assert(stack[i].site == site);
    }
    if stack_key(stack, site) is Some {
        let i = choose|i: int| 0 <= i < stack.len() && stack[i].site == site;
        assert(sites(stack)[i] == site);
    }
}

/// Under the same schema, the point for a field below a record's point is the
/// field's own definition with the child of the same name.
proof fn lemma_child_point(schema: CompiledSchema, point: OldTreePoint, t: int, i: int)
    requires
        schema.wf(),
        point.ty matches FieldType::Named(name) && schema.types.index_of(name@) == Some(t),
        0 <= t < schema.types.entries@.len(),
        point.node.children@.len() == schema.types.entries@[t].value.fields.entries@.len(),
        forall|j: int|
            0 <= j < point.node.children@.len() ==> (#[trigger] point.node.children@[j]).key@
                == schema.types.entries@[t].value.fields.entries@[j].key@,
        0 <= i < point.node.children@.len(),
    ensures
        ({
            let fields = schema.types.entries@[t].value.fields.entries@;
            child_old(&schema, Some(point), fields[i].key@, fields[i].value) == Some(
                OldTreePoint {
                    ty: &fields[i].value.ty,
                    packed: is_packed(fields[i].value.annotations@),
                    node: &point.node.children@[i].value,
                },
            )
        }),
{
    let record = schema.types.entries@[t].value;
    let fields = record.fields.entries@;
    let name = fields[i].key@;
    let names = alt_names(name, fields[i].value.annotations@);
    assert(names[0] == name);
    record.fields.lemma_sorted_distinct();
    record.fields.lemma_distinct_index(i);
    assert forall|j: int| 0 <= j < i implies point.node.children@[j].key@ != name by {
        assert(point.node.children@[j].key@ == fields[j].key@);
    }
    assert(point.node.children@[i].key@ == name);
    crate::strmap::lemma_first_index_is(point.node.children@, name, 0, i);
    assert(first_known_name(point.node.children@, names, 0) == Some(name));
}

/// Planning a field again under the same schema, from the node that is its
/// plan already, yields that node again and mints nothing.
proof fn lemma_rematch_node(
    schema: CompiledSchema,
    recursive: Set<Occurrence>,
    field: FieldType,
    annotations: Seq<FieldAnnotation>,
    site: Occurrence,
    point: OldTreePoint,
    stack: Seq<StackEntry>,
    node: StorageNode,
)
    requires
        schema.wf(),
        *point.ty == field,
        point.packed == is_packed(annotations),
        fits(schema, &schema, recursive, field, annotations, site, None, stack, *point.node),
        fits(schema, &schema, recursive, field, annotations, site, Some(point), stack, node),
    ensures
        super::same_node(node, *point.node),
        minted(schema, &schema, field, annotations, site, Some(point), stack, node) == Seq::<
            StorageKey,
        >::empty(),
    decreases node, wrappers(field),
{
    match field {
        FieldType::Optional(inner) => {
            lemma_rematch_node(
                schema,
                recursive,
                *inner,
                annotations,
                site,
                point.spec_reduce_optional(),
                stack,
                node,
            );
        },
        FieldType::Primitive(_) => {},
        FieldType::SetOf(inner) => {
            let member_point = point.spec_reduce_set()->Some_0;
            assert(member_point.accepts(*inner, annotations));
            lemma_rematch_node(
                schema,
                recursive,
                *inner,
                annotations,
                site,
                member_point,
                stack,
                *node.set->Some_0,
            );
            assert(minted(schema, &schema, field, annotations, site, Some(point), stack, node) =~= Seq::<
                StorageKey,
            >::empty());
        },
        FieldType::Named(name) => {
            if is_packed(annotations) {
            } else if stack_key(stack, site) is Some {
            } else {
                let t = schema.types.index_of(name@)->Some_0;
                crate::strmap::lemma_first_index(schema.types.entries@, name@, 0);
                let fields = schema.types.entries@[t].value.fields.entries@;
                let pushed = stack.push(StackEntry { site, key: node.key });
                assert forall|i: int| 0 <= i < node.children@.len() implies {
                    &&& (#[trigger] node.children@[i]).key@ == point.node.children@[i].key@
                    &&& super::same_node(node.children@[i].value, point.node.children@[i].value)
                } by {
                    lemma_child_point(schema, point, t, i);
                    let child_point = OldTreePoint {
                        ty: &fields[i].value.ty,
                        packed: is_packed(fields[i].value.annotations@),
                        node: &point.node.children@[i].value,
                    };
                    assert(point.node.children@[i].key@ == fields[i].key@);
                    lemma_rematch_node(
                        schema,
                        recursive,
                        fields[i].value.ty,
                        fields[i].value.annotations@,
                        Occurrence::Field(t as usize, i as usize),
                        child_point,
                        pushed,
                        node.children@[i].value,
                    );
                }
                assert(children_fit_twice(schema, recursive, t, point, pushed, node)) by {
                    assert forall|i: int| 0 <= i < node.children@.len() implies fits(
                        schema,
                        &schema,
                        recursive,
                        fields[i].value.ty,
                        fields[i].value.annotations@,
                        Occurrence::Field(t as usize, i as usize),
                        None,
                        pushed,
                        point.node.children@[i].value,
                    ) by {
                        assert(point.node.children@[i].key@ == fields[i].key@);
                    }
                }
                lemma_rematch_children(schema, recursive, t, point, pushed, node, node.children@.len() as int);
                assert(minted(schema, &schema, field, annotations, site, Some(point), stack, node) =~= Seq::<
                    StorageKey,
                >::empty());
            }
        },
    }
}

/// Each child of `node` is the plan of its field with the point below `point`,
/// and the child of `point` at the same place is a plan of that field too.
spec fn children_fit_twice(
    schema: CompiledSchema,
    recursive: Set<Occurrence>,
    t: int,
    point: OldTreePoint,
    stack: Seq<StackEntry>,
    node: StorageNode,
) -> bool {
    forall|i: int|
        0 <= i < node.children@.len() ==> {
            &&& fits(
                schema,
                &schema,
                recursive,
                schema.types.entries@[t].value.fields.entries@[i].value.ty,
                schema.types.entries@[t].value.fields.entries@[i].value.annotations@,
                Occurrence::Field(t as usize, i as usize),
                None,
                stack,
                point.node.children@[i].value,
            )
            &&& fits(
                schema,
                &schema,
                recursive,
                schema.types.entries@[t].value.fields.entries@[i].value.ty,
                schema.types.entries@[t].value.fields.entries@[i].value.annotations@,
                Occurrence::Field(t as usize, i as usize),
                child_old(
                    &schema,
                    Some(point),
                    schema.types.entries@[t].value.fields.entries@[i].key@,
                    schema.types.entries@[t].value.fields.entries@[i].value,
                ),
                stack,
                (#[trigger] node.children@[i]).value,
            )
        }
}

proof fn lemma_rematch_children(
    schema: CompiledSchema,
    recursive: Set<Occurrence>,
    t: int,
    point: OldTreePoint,
    stack: Seq<StackEntry>,
    node: StorageNode,
    upto: int,
)
    requires
        schema.wf(),
        point.ty matches FieldType::Named(name) && schema.types.index_of(name@) == Some(t),
        0 <= t < schema.types.entries@.len(),
        0 <= upto <= node.children@.len(),
        node.children@.len() == schema.types.entries@[t].value.fields.entries@.len(),
        point.node.children@.len() == node.children@.len(),
        forall|j: int|
            0 <= j < point.node.children@.len() ==> (#[trigger] point.node.children@[j]).key@
                == schema.types.entries@[t].value.fields.entries@[j].key@,
        children_fit_twice(schema, recursive, t, point, stack, node),
    ensures
        minted_children(schema, &schema, t, Some(point), stack, node.children@, upto) == Seq::<
            StorageKey,
        >::empty(),
    decreases node, 0nat, upto,
{
    if upto > 0 {
        lemma_rematch_children(schema, recursive, t, point, stack, node, upto - 1);
        let fields = schema.types.entries@[t].value.fields.entries@;
        let i = upto - 1;
        lemma_child_point(schema, point, t, i);
        let child_point = OldTreePoint {
            ty: &fields[i].value.ty,
            packed: is_packed(fields[i].value.annotations@),
            node: &point.node.children@[i].value,
        };
        assert(node.children@[i].value == node.children@[i].value);
        assert(fits(
            schema,
            &schema,
            recursive,
            fields[i].value.ty,
            fields[i].value.annotations@,
            Occurrence::Field(t as usize, i as usize),
            Some(child_point),
            stack,
            node.children@[i].value,
        ));
        lemma_rematch_node(
            schema,
            recursive,
            fields[i].value.ty,
            fields[i].value.annotations@,
            Occurrence::Field(t as usize, i as usize),
            child_point,
            stack,
            node.children@[i].value,
        );
        assert(minted_children(schema, &schema, t, Some(point), stack, node.children@, upto) =~= Seq::<
            StorageKey,
        >::empty());
    }
}

/// Under the same schema, every node of a field's plan is a point for
/// planning the field again.
proof fn lemma_covered_node(
    schema: CompiledSchema,
    recursive: Set<Occurrence>,
    field: FieldType,
    annotations: Seq<FieldAnnotation>,
    site: Occurrence,
    point: OldTreePoint,
    stack: Seq<StackEntry>,
)
    requires
        schema.wf(),
        *point.ty == field,
        point.packed == is_packed(annotations),
        fits(schema, &schema, recursive, field, annotations, site, None, stack, *point.node),
    ensures
        covered(schema, &schema, field, annotations, site, Some(point), sites(stack)),
    decreases *point.node, wrappers(field),
{
    match field {
        FieldType::Optional(inner) => {
            lemma_covered_node(
                schema,
                recursive,
                *inner,
                annotations,
                site,
                point.spec_reduce_optional(),
                stack,
            );
        },
        FieldType::Primitive(_) => {},
        FieldType::SetOf(inner) => {
            let member_point = point.spec_reduce_set()->Some_0;
            assert(member_point.accepts(*inner, annotations));
            lemma_covered_node(schema, recursive, *inner, annotations, site, member_point, stack);
        },
        FieldType::Named(name) => {
            lemma_stack_key_contains(stack, site);
            if is_packed(annotations) {
            } else if stack_key(stack, site) is Some {
            } else if !site_valid(schema, site) {
            } else {
                let t = schema.types.index_of(name@)->Some_0;
                crate::strmap::lemma_first_index(schema.types.entries@, name@, 0);
                let pushed = stack.push(StackEntry { site, key: point.node.key });
                assert(sites(pushed) =~= sites(stack).push(site));
                lemma_covered_fields(schema, recursive, t, point, pushed, 0);
            }
        },
    }
}

proof fn lemma_covered_fields(
    schema: CompiledSchema,
    recursive: Set<Occurrence>,
    t: int,
    point: OldTreePoint,
    stack: Seq<StackEntry>,
    from: int,
)
    requires
        schema.wf(),
        point.ty matches FieldType::Named(name) && schema.types.index_of(name@) == Some(t),
        0 <= t < schema.types.entries@.len(),
        0 <= from <= point.node.children@.len(),
        point.node.children@.len() == schema.types.entries@[t].value.fields.entries@.len(),
        forall|i: int|
            0 <= i < point.node.children@.len() ==> {
                &&& (#[trigger] point.node.children@[i]).key@
                    == schema.types.entries@[t].value.fields.entries@[i].key@
                &&& fits(
                    schema,
                    &schema,
                    recursive,
                    schema.types.entries@[t].value.fields.entries@[i].value.ty,
                    schema.types.entries@[t].value.fields.entries@[i].value.annotations@,
                    Occurrence::Field(t as usize, i as usize),
                    None,
                    stack,
                    point.node.children@[i].value,
                )
            },
    ensures
        covered_fields(schema, &schema, t, from, Some(point), sites(stack)),
    decreases *point.node, 0nat, point.node.children@.len() - from,
{
    if from < point.node.children@.len() {
        let fields = schema.types.entries@[t].value.fields.entries@;
        lemma_child_point(schema, point, t, from);
        let child_point = OldTreePoint {
            ty: &fields[from].value.ty,
            packed: is_packed(fields[from].value.annotations@),
            node: &point.node.children@[from].value,
        };
        assert(point.node.children@[from].key@ == fields[from].key@);
        lemma_covered_node(
            schema,
            recursive,
            fields[from].value.ty,
            fields[from].value.annotations@,
            Occurrence::Field(t as usize, from as usize),
            child_point,
            stack,
        );
        lemma_covered_fields(schema, recursive, t, point, stack, from + 1);
    }
}

/// Under the same schema, the point for an export is the export itself with
/// the earlier plan's node at the same place.
proof fn lemma_export_point(schema: CompiledSchema, recursive: Set<Occurrence>, old_plan: &StoragePlan, i: int)
    requires
        schema.wf(),
        is_plan_of(schema, recursive, *old_plan),
        0 <= i < schema.exports.entries@.len(),
    ensures
        export_old(old_plan, &schema, schema.exports.entries@[i].key@, schema.exports.entries@[i].value)
            == Some(
            OldTreePoint {
                ty: &schema.exports.entries@[i].value,
                packed: false,
                node: &old_plan.nodes.entries@[i].value,
            },
        ),
{
    let name = schema.exports.entries@[i].key@;
    schema.exports.lemma_sorted_distinct();
    schema.exports.lemma_distinct_index(i);
    assert forall|j: int| 0 <= j < i implies old_plan.nodes.entries@[j].key@ != name by {
        assert(old_plan.nodes.entries@[j].key@ == schema.exports.entries@[j].key@);
    }
    assert(old_plan.nodes.entries@[i].key@ == name);
    crate::strmap::lemma_first_index_is(old_plan.nodes.entries@, name, 0, i);
    assert(!is_packed(Seq::<FieldAnnotation>::empty()));
}

/// Planning a schema over a plan of that same schema needs no new key.
pub proof fn lemma_same_schema_covered(schema: CompiledSchema, recursive: Set<Occurrence>, old_plan: &StoragePlan)
    requires
        schema.wf(),
        is_plan_of(schema, recursive, *old_plan),
    ensures
        plan_covered(schema, old_plan, &schema, 0),
{
    lemma_covered_exports(schema, recursive, old_plan, 0);
}

proof fn lemma_covered_exports(schema: CompiledSchema, recursive: Set<Occurrence>, old_plan: &StoragePlan, from: int)
    requires
        schema.wf(),
        is_plan_of(schema, recursive, *old_plan),
        0 <= from,
    ensures
        plan_covered(schema, old_plan, &schema, from),
    decreases schema.exports.entries@.len() - from,
{
    if from < schema.exports.entries@.len() {
        lemma_export_point(schema, recursive, old_plan, from);
        assert(old_plan.nodes.entries@[from].key@ == schema.exports.entries@[from].key@);
        assert(!is_packed(Seq::<FieldAnnotation>::empty()));
        assert(sites(Seq::<StackEntry>::empty()) =~= Seq::<Occurrence>::empty());
        lemma_covered_node(
            schema,
            recursive,
            schema.exports.entries@[from].value,
            seq![],
            Occurrence::Export(from as usize),
            OldTreePoint {
                ty: &schema.exports.entries@[from].value,
                packed: false,
                node: &old_plan.nodes.entries@[from].value,
            },
            seq![],
        );
        lemma_covered_exports(schema, recursive, old_plan, from + 1);
    }
}

/// Every plan of a schema that was made over an earlier plan of that same
/// schema is the earlier plan again: same exports, same shape, same flags,
/// and every key carried over.
pub proof fn lemma_replan_same_schema(
    schema: CompiledSchema,
    recursive: Set<Occurrence>,
    old_plan: &StoragePlan,
    plan: StoragePlan,
)
    requires
        schema.wf(),
        is_plan_of(schema, recursive, *old_plan),
        plan_fits(schema, old_plan, &schema, recursive, plan),
    ensures
        super::same_plan(plan, *old_plan),
{
    assert forall|i: int| 0 <= i < plan.nodes.entries@.len() implies {
        &&& (#[trigger] plan.nodes.entries@[i]).key@ == old_plan.nodes.entries@[i].key@
        &&& super::same_node(plan.nodes.entries@[i].value, old_plan.nodes.entries@[i].value)
    } by {
        lemma_export_point(schema, recursive, old_plan, i);
        assert(old_plan.nodes.entries@[i].key@ == schema.exports.entries@[i].key@);
        assert(!is_packed(Seq::<FieldAnnotation>::empty()));
        lemma_rematch_node(
            schema,
            recursive,
            schema.exports.entries@[i].value,
            seq![],
            Occurrence::Export(i as usize),
            OldTreePoint {
                ty: &schema.exports.entries@[i].value,
                packed: false,
                node: &old_plan.nodes.entries@[i].value,
            },
            seq![],
            plan.nodes.entries@[i].value,
        );
    }
}

/// The plan of a field is well-shaped.
pub proof fn lemma_fits_well_shaped(
    schema: CompiledSchema,
    old_schema: &CompiledSchema,
    recursive: Set<Occurrence>,
    field: FieldType,
    annotations: Seq<FieldAnnotation>,
    site: Occurrence,
    old: Option<OldTreePoint>,
    stack: Seq<StackEntry>,
    node: StorageNode,
)
    requires
        fits(schema, old_schema, recursive, field, annotations, site, old, stack, node),
    ensures
        well_shaped(node),
    decreases node, wrappers(field),
{
    match field {
        FieldType::Optional(inner) => {
            lemma_fits_well_shaped(
                schema,
                old_schema,
                recursive,
                *inner,
                annotations,
                site,
                unwrapped_old(old),
                stack,
                node,
            );
        },
        FieldType::Primitive(_) => {},
        FieldType::SetOf(inner) => {
            lemma_fits_well_shaped(
                schema,
                old_schema,
                recursive,
                *inner,
                annotations,
                site,
                member_old(old, *inner, annotations),
                stack,
                *node.set->Some_0,
            );
        },
        FieldType::Named(name) => {
            if is_packed(annotations) {
            } else if stack_key(stack, site) is Some {
            } else {
                let t = schema.types.index_of(name@)->Some_0;
                let fields = schema.types.entries@[t].value.fields.entries@;
                assert forall|i: int| 0 <= i < node.children@.len() implies well_shaped(
                    (#[trigger] node.children@[i]).value,
                ) by {
                    lemma_fits_well_shaped(
                        schema,
                        old_schema,
                        recursive,
                        fields[i].value.ty,
                        fields[i].value.annotations@,
                        Occurrence::Field(t as usize, i as usize),
                        child_old(old_schema, old, fields[i].key@, fields[i].value),
                        stack.push(StackEntry { site, key: node.key }),
                        node.children@[i].value,
                    );
                }
            }
        },
    }
}

/// Every node of a plan that the planner makes is well-shaped.
pub proof fn lemma_plan_well_shaped(
    schema: CompiledSchema,
    old_plan: &StoragePlan,
    old_schema: &CompiledSchema,
    recursive: Set<Occurrence>,
    plan: StoragePlan,
)
    requires
        plan_fits(schema, old_plan, old_schema, recursive, plan),
    ensures
        forall|i: int| 0 <= i < plan.nodes.entries@.len() ==> well_shaped((#[trigger] plan.nodes.entries@[i]).value),
{
    assert forall|i: int| 0 <= i < plan.nodes.entries@.len() implies well_shaped(
        (#[trigger] plan.nodes.entries@[i]).value,
    ) by {
        lemma_fits_well_shaped(
            schema,
            old_schema,
            recursive,
            schema.exports.entries@[i].value,
            seq![],
            Occurrence::Export(i as usize),
            export_old(old_plan, old_schema, schema.exports.entries@[i].key@, schema.exports.entries@[i].value),
            seq![],
            plan.nodes.entries@[i].value,
        );
    }
}

impl PlannerError {
    /// The error as a message.
    pub open spec fn spec_message(self) -> Seq<char> {
        match self {
            PlannerError::MissingType(name) => "missing type: "@ + name@,
            PlannerError::KeyUnavailable(KeygenError::ClockOutOfRange) => "the clock is out of the range of storage keys"@,
            PlannerError::KeyUnavailable(KeygenError::KeySpaceExhausted) => "no unused storage key was found"@,
        }
    }

    /// The error as a message.
    pub fn message(&self) -> (text: String)
        ensures
            text@ == self.spec_message(),
    {
        match self {
            PlannerError::MissingType(name) => "missing type: ".to_string().concat(name.as_str()),
            PlannerError::KeyUnavailable(KeygenError::ClockOutOfRange) => "the clock is out of the range of storage keys".to_string(),
            PlannerError::KeyUnavailable(KeygenError::KeySpaceExhausted) => "no unused storage key was found".to_string(),
        }
    }
}

} // verus!
