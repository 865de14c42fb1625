//! Which occurrences of record types are cycle participants, said without
//! the descent that finds them: those that a descent from an export reaches
//! again while it is inside them.

use vstd::prelude::*;
use crate::schema::{is_packed, CompiledSchema, FieldType};
use super::planner::{
    free_sites, lemma_push_site, recursive_sites, scan, scan_exports, scan_fields, site_valid, wrappers,
    Occurrence,
};

verus! {

/// The type inside the `Optional` and set layers of a field type.
pub open spec fn innermost(field: FieldType) -> FieldType
    decreases field,
{
    match field {
        FieldType::Optional(inner) => innermost(*inner),
        FieldType::SetOf(inner) => innermost(*inner),
        _ => field,
    }
}

/// The type written at an occurrence.
pub open spec fn field_at(schema: CompiledSchema, site: Occurrence) -> FieldType {
    match site {
        Occurrence::Export(e) => schema.exports.entries@[e as int].value,
        Occurrence::Field(t, f) => schema.types.entries@[t as int].value.fields.entries@[f as int].value.ty,
    }
}

/// The occurrence names a record type of the schema; the position of that
/// type.
pub open spec fn record_at(schema: CompiledSchema, site: Occurrence) -> Option<int> {
    if site_valid(schema, site) {
        match innermost(field_at(schema, site)) {
            FieldType::Named(name) => schema.types.index_of(name@),
            _ => None,
        }
    } else {
        None
    }
}

/// A descent steps from `parent` to `child`: `child` is a field, not packed,
/// of the record type that `parent` names, and names a record type itself.
pub open spec fn steps_to(schema: CompiledSchema, parent: Occurrence, child: Occurrence) -> bool {
    record_at(schema, parent) matches Some(t) && child matches Occurrence::Field(ct, cf) && ct == t
        && site_valid(schema, child) && !is_packed(
        schema.types.entries@[t].value.fields.entries@[cf as int].value.annotations@,
    ) && innermost(field_at(schema, child)) is Named
}

/// A descent from an export: it starts at an export that names a record
/// type, and steps from each occurrence to the next.
pub open spec fn descent(schema: CompiledSchema, path: Seq<Occurrence>) -> bool {
    &&& path.len() > 0
    &&& path[0] is Export
    &&& site_valid(schema, path[0])
    &&& innermost(field_at(schema, path[0])) is Named
    &&& forall|i: int| 0 <= i < path.len() - 1 ==> steps_to(schema, #[trigger] path[i], path[i + 1])
}

/// The occurrence is a cycle participant: some descent from an export, which
/// enters no occurrence twice, is inside the occurrence and can step to it
/// again.
pub open spec fn cycle_participant(schema: CompiledSchema, site: Occurrence) -> bool {
    exists|path: Seq<Occurrence>|
        #[trigger] descent(schema, path) && path.no_duplicates() && path.contains(site) && steps_to(
            schema,
            path.last(),
            site,
        )
}

/// The descent stands at `site` with `stack` behind it: `stack` followed by
/// `site` is a descent that enters no occurrence twice, unless `site` is on
/// the stack already; and `field` is the type at `site` or a layer inside it.
pub open spec fn stands_at(schema: CompiledSchema, field: FieldType, site: Occurrence, stack: Seq<Occurrence>) -> bool {
    &&& site_valid(schema, site)
    &&& innermost(field) == innermost(field_at(schema, site))
    &&& stack.no_duplicates()
    &&& if stack.len() == 0 {
        site is Export
    } else {
        descent(schema, stack) && (innermost(field) is Named ==> steps_to(schema, stack.last(), site))
    }
}

proof fn lemma_push_descent(schema: CompiledSchema, stack: Seq<Occurrence>, site: Occurrence)
    requires
        site_valid(schema, site),
        innermost(field_at(schema, site)) is Named,
        stack.no_duplicates(),
        !stack.contains(site),
        if stack.len() == 0 {
            site is Export
        } else {
            descent(schema, stack) && steps_to(schema, stack.last(), site)
        },
    ensures
        descent(schema, stack.push(site)),
        stack.push(site).no_duplicates(),
        stack.push(site).last() == site,
{
    let pushed = stack.push(site);
    assert forall|i: int| 0 <= i < pushed.len() - 1 implies steps_to(schema, #[trigger] pushed[i], pushed[i + 1]) by {
        if i < stack.len() - 1 {
            assert(steps_to(schema, stack[i], stack[i + 1]));
        }
    }
    crate::seqs::lemma_push_fresh(stack, site);
}

/// Every occurrence that a descent finds is a cycle participant.
pub proof fn lemma_scan_sound(schema: CompiledSchema, field: FieldType, site: Occurrence, stack: Seq<Occurrence>)
    requires
        stands_at(schema, field, site, stack),
        scan(schema, field, site, stack) is Ok,
    ensures
        forall|o: Occurrence| scan(schema, field, site, stack)->Ok_0.contains(o) ==> cycle_participant(schema, o),
    decreases free_sites(schema, stack), 0nat, wrappers(field),
{
    match field {
        FieldType::Optional(inner) => {
            lemma_scan_sound(schema, *inner, site, stack);
        },
        FieldType::SetOf(inner) => {
            lemma_scan_sound(schema, *inner, site, stack);
        },
        FieldType::Primitive(_) => {},
        FieldType::Named(name) => {
            if stack.contains(site) {
                assert(descent(schema, stack));
            } else {
                let t = schema.types.index_of(name@)->Some_0;
                crate::strmap::lemma_first_index(schema.types.entries@, name@, 0);
                lemma_push_site(schema, stack, site);
                lemma_push_descent(schema, stack, site);
                lemma_scan_fields_sound(schema, t, 0, site, stack.push(site));
            }
        },
    }
}

proof fn lemma_scan_fields_sound(schema: CompiledSchema, t: int, from: int, parent: Occurrence, stack: Seq<Occurrence>)
    requires
        0 <= t < schema.types.entries@.len(),
        0 <= from,
        descent(schema, stack),
        stack.no_duplicates(),
        stack.last() == parent,
        record_at(schema, parent) == Some(t),
        scan_fields(schema, t, from, stack) is Ok,
    ensures
        forall|o: Occurrence| scan_fields(schema, t, from, stack)->Ok_0.contains(o) ==> cycle_participant(schema, o),
    decreases free_sites(schema, stack), 1nat, schema.types.entries@[t].value.fields.entries@.len() - from,
{
    let fields = schema.types.entries@[t].value.fields.entries@;
    if from < fields.len() {
        let child = Occurrence::Field(t as usize, from as usize);
        assert(schema.types.entries.len() == schema.types.entries@.len());
        assert(schema.types.entries@[t].value.fields.entries.len() == fields.len());
        assert(child == Occurrence::Field(t as usize, from as usize) && (t as usize) as int == t && (
        from as usize) as int == from);
        if !is_packed(fields[from].value.annotations@) {
            assert(field_at(schema, child) == fields[from].value.ty);
            assert(stands_at(schema, fields[from].value.ty, child, stack));
            lemma_scan_sound(schema, fields[from].value.ty, child, stack);
        }
        lemma_scan_fields_sound(schema, t, from + 1, parent, stack);
    }
}

/// What the descent from one field finds is part of what the descents from
/// the fields find together.
proof fn lemma_scan_fields_holds(schema: CompiledSchema, t: int, from: int, f: int, stack: Seq<Occurrence>)
    requires
        0 <= t < schema.types.entries@.len(),
        0 <= from <= f < schema.types.entries@[t].value.fields.entries@.len(),
        !is_packed(schema.types.entries@[t].value.fields.entries@[f].value.annotations@),
        scan_fields(schema, t, from, stack) is Ok,
    ensures
        scan(
            schema,
            schema.types.entries@[t].value.fields.entries@[f].value.ty,
            Occurrence::Field(t as usize, f as usize),
            stack,
        ) is Ok,
        forall|o: Occurrence|
            scan(
                schema,
                schema.types.entries@[t].value.fields.entries@[f].value.ty,
                Occurrence::Field(t as usize, f as usize),
                stack,
            )->Ok_0.contains(o) ==> scan_fields(schema, t, from, stack)->Ok_0.contains(o),
    decreases f - from,
{
    if from < f {
        lemma_scan_fields_holds(schema, t, from + 1, f, stack);
    }
}

/// A descent that meets an occurrence on its stack finds that occurrence.
proof fn lemma_scan_meets(schema: CompiledSchema, field: FieldType, site: Occurrence, stack: Seq<Occurrence>)
    requires
        innermost(field) is Named,
        stack.contains(site),
    ensures
        scan(schema, field, site, stack) is Ok,
        scan(schema, field, site, stack)->Ok_0.contains(site),
    decreases field,
{
    match field {
        FieldType::Optional(inner) => {
            lemma_scan_meets(schema, *inner, site, stack);
        },
        FieldType::SetOf(inner) => {
            lemma_scan_meets(schema, *inner, site, stack);
        },
        _ => {},
    }
}

/// A descent finds every occurrence that some descent through it, which
/// enters no occurrence twice, can step to again.
proof fn lemma_scan_complete(
    schema: CompiledSchema,
    field: FieldType,
    site: Occurrence,
    stack: Seq<Occurrence>,
    path: Seq<Occurrence>,
    o: Occurrence,
)
    requires
        stands_at(schema, field, site, stack),
        innermost(field) is Named,
        !stack.contains(site),
        scan(schema, field, site, stack) is Ok,
        descent(schema, path),
        path.no_duplicates(),
        path.len() > stack.len(),
        path.subrange(0, stack.len() as int + 1) == stack.push(site),
        path.contains(o),
        steps_to(schema, path.last(), o),
    ensures
        scan(schema, field, site, stack)->Ok_0.contains(o),
    decreases free_sites(schema, stack), 0nat, wrappers(field),
{
    match field {
        FieldType::Optional(inner) => {
            lemma_scan_complete(schema, *inner, site, stack, path, o);
        },
        FieldType::SetOf(inner) => {
            lemma_scan_complete(schema, *inner, site, stack, path, o);
        },
        FieldType::Primitive(_) => {},
        FieldType::Named(name) => {
            let t = schema.types.index_of(name@)->Some_0;
            crate::strmap::lemma_first_index(schema.types.entries@, name@, 0);
            let pushed = stack.push(site);
            let fields = schema.types.entries@[t].value.fields.entries@;
            lemma_push_site(schema, stack, site);
            lemma_push_descent(schema, stack, site);
            assert(schema.types.entries.len() == schema.types.entries@.len());
            assert(path[stack.len() as int] == pushed[stack.len() as int]);
            assert(record_at(schema, site) == Some(t));
            if path.len() == stack.len() + 1 {
                // the descent stands at `site` and steps to `o`, which it is inside of
                assert(path =~= pushed);
                let f = o->Field_1 as int;
                assert(fields.len() == schema.types.entries@[t].value.fields.entries.len());
                lemma_scan_meets(schema, fields[f].value.ty, o, pushed);
                lemma_scan_fields_holds(schema, t, 0, f, pushed);
            } else {
                // the descent steps on to a field of the record type at `site`
                let c = path[stack.len() as int + 1];
                assert(steps_to(schema, path[stack.len() as int], c));
                let f = c->Field_1 as int;
                assert(fields.len() == schema.types.entries@[t].value.fields.entries.len());
                assert(!pushed.contains(c)) by {
                    if pushed.contains(c) {
                        let i = choose|i: int| 0 <= i < pushed.len() && pushed[i] == c;
                        assert(path.subrange(0, stack.len() as int + 1)[i] == path[i]);
                    }
                }
                assert(path.subrange(0, pushed.len() as int + 1) =~= pushed.push(c)) by {
                    assert forall|i: int| 0 <= i < pushed.len() + 1 implies path.subrange(0, pushed.len() as int + 1)[i]
                        == pushed.push(c)[i] by {
                        if i < pushed.len() {
                            assert(path.subrange(0, stack.len() as int + 1)[i] == path[i]);
                        }
                    }
                }
                lemma_scan_fields_holds(schema, t, 0, f, pushed);
                assert(field_at(schema, c) == fields[f].value.ty);
                assert(stands_at(schema, fields[f].value.ty, c, pushed));
                lemma_scan_complete(schema, fields[f].value.ty, c, pushed, path, o);
            }
        },
    }
}

/// What the descent from one export finds is part of what the descents from
/// the exports find together.
proof fn lemma_scan_exports_holds(schema: CompiledSchema, from: int, e: int)
    requires
        0 <= from <= e < schema.exports.entries@.len(),
        scan_exports(schema, from) is Ok,
    ensures
        scan(schema, schema.exports.entries@[e].value, Occurrence::Export(e as usize), seq![]) is Ok,
        forall|o: Occurrence|
            scan(
                schema,
                schema.exports.entries@[e].value,
                Occurrence::Export(e as usize),
                seq![],
            )->Ok_0.contains(o) ==> scan_exports(schema, from)->Ok_0.contains(o),
    decreases e - from,
{
    if from < e {
        lemma_scan_exports_holds(schema, from + 1, e);
    }
}

proof fn lemma_scan_exports_sound(schema: CompiledSchema, from: int)
    requires
        0 <= from,
        scan_exports(schema, from) is Ok,
    ensures
        forall|o: Occurrence| scan_exports(schema, from)->Ok_0.contains(o) ==> cycle_participant(schema, o),
    decreases schema.exports.entries@.len() - from,
{
    if from < schema.exports.entries@.len() {
        assert(schema.exports.entries.len() == schema.exports.entries@.len());
        let site = Occurrence::Export(from as usize);
        assert(Seq::<Occurrence>::empty().no_duplicates());
        assert(stands_at(schema, schema.exports.entries@[from].value, site, seq![]));
        lemma_scan_sound(schema, schema.exports.entries@[from].value, site, seq![]);
        lemma_scan_exports_sound(schema, from + 1);
    }
}

/// The cycle participants that the planner finds are the occurrences of
/// record types that some descent from an export, which enters no occurrence
/// twice, reaches again while it is inside them.
pub proof fn lemma_recursive_sites(schema: CompiledSchema)
    requires
        recursive_sites(schema) is Ok,
    ensures
        forall|o: Occurrence| recursive_sites(schema)->Ok_0.contains(o) <==> cycle_participant(schema, o),
{
    lemma_scan_exports_sound(schema, 0);
    assert forall|o: Occurrence| cycle_participant(schema, o) implies recursive_sites(schema)->Ok_0.contains(o) by {
        let path = choose|path: Seq<Occurrence>|
            #[trigger] descent(schema, path) && path.no_duplicates() && path.contains(o) && steps_to(
                schema,
                path.last(),
                o,
            );
        let e = path[0]->Export_0 as int;
        let site = Occurrence::Export(e as usize);
        assert(path[0] == site);
        lemma_scan_exports_holds(schema, 0, e);
        assert(Seq::<Occurrence>::empty().no_duplicates());
        assert(path.subrange(0, 1) =~= Seq::<Occurrence>::empty().push(site));
        assert(stands_at(schema, schema.exports.entries@[e].value, site, seq![]));
        lemma_scan_complete(schema, schema.exports.entries@[e].value, site, seq![], path, o);
    }
}

} // verus!
