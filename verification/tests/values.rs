use rdb::schema::{CompiledSchema, FieldAnnotation, FieldType, PrimitiveType, SpecializedType};
use rdb::strmap::StrMap;
use rdb::treewalker::shared::{TypeMap, ValueList, ValueMap};
use rdb::treewalker::vm::TwVm;
use rdb::treewalker::bytecode::TwScript;
use rdb::storage_plan::StoragePlan;
use rdb::treewalker::vm_value::{
    VmConst, VmConstSetValue, VmConstTableValue, VmListValue, VmMapValue, VmSetType, VmSetValueKind, VmTableType,
    VmTableValueKind, VmType, VmValue, VmValueError,
};
use rdb::value::PrimitiveValue;

fn int64() -> VmType {
    VmType::Primitive(PrimitiveType::Int64)
}

fn text_ty() -> VmType {
    VmType::Primitive(PrimitiveType::String)
}

fn map(fields: Vec<(&str, VmType)>) -> VmType {
    let mut m = TypeMap::new();
    for (k, v) in fields {
        m = m.with(k.to_string(), v);
    }
    VmType::MapOf(m)
}

#[test]
fn covariance() {
    assert!(int64().is_covariant_from(&int64()));
    assert!(!int64().is_covariant_from(&text_ty()));
    // a OneOf takes each of its options
    let optional = VmType::OneOf(vec![VmType::Null, int64()]);
    assert!(optional.is_covariant_from(&VmType::Null));
    assert!(optional.is_covariant_from(&int64()));
    assert!(!optional.is_covariant_from(&text_ty()));
    assert!(!int64().is_covariant_from(&optional));
    // and a OneOf of the same options in another order
    assert!(optional.is_covariant_from(&VmType::OneOf(vec![int64(), VmType::Null])));
    assert!(!optional.is_covariant_from(&VmType::OneOf(vec![int64(), text_ty()])));
    // a map takes a map with at least its fields
    let narrow = map(vec![("a", int64())]);
    let wide = map(vec![("a", int64()), ("b", text_ty())]);
    assert!(narrow.is_covariant_from(&wide));
    assert!(!wide.is_covariant_from(&narrow));
    assert!(map(vec![("a", VmType::OneOf(vec![VmType::Null, int64()]))]).is_covariant_from(&wide));
    assert!(!map(vec![("a", text_ty())]).is_covariant_from(&wide));
    assert!(!narrow.is_covariant_from(&int64()));
    assert!(VmType::Null.is_null());
    assert!(!int64().is_null());
    assert!(wide.same_as(&wide.duplicate()));
    assert!(!wide.same_as(&narrow));
}

#[test]
fn field_types_become_vm_types() {
    let f = FieldType::Optional(Box::new(FieldType::SetOf(Box::new(FieldType::Named("T".into())))));
    let expected = VmType::OneOf(vec![
        VmType::Null,
        VmType::SetOf(VmSetType { ty: Box::new(VmType::Table(VmTableType { name: "T".into() })) }),
    ]);
    assert!(VmType::from_field_type(&f).same_as(&expected));
    assert!(f.same_as(&f.duplicate()));
    assert!(!f.same_as(&FieldType::Named("T".into())));
}

fn schema() -> CompiledSchema {
    let mut item = SpecializedType::new("Item".into());
    item.add_field("id".into(), FieldType::Primitive(PrimitiveType::String), vec![FieldAnnotation::Primary]);
    item.add_field("n".into(), FieldType::Primitive(PrimitiveType::Int64), vec![]);
    item.add_field(
        "note".into(),
        FieldType::Optional(Box::new(FieldType::Primitive(PrimitiveType::String))),
        vec![],
    );
    let mut plain = SpecializedType::new("Plain".into());
    plain.add_field("x".into(), FieldType::Primitive(PrimitiveType::Int64), vec![]);
    let mut schema = CompiledSchema::new();
    schema.add_type(item);
    schema.add_type(plain);
    schema
}

fn table(ty: &str, fields: Vec<(&str, VmConst)>) -> VmConst {
    let mut m = StrMap::new();
    for (k, v) in fields {
        m.insert(k.to_string(), v);
    }
    VmConst::Table(VmConstTableValue { ty: ty.into(), fields: m })
}

fn s(x: &str) -> VmConst {
    VmConst::Primitive(PrimitiveValue::String(x.into()))
}

fn i(x: i64) -> VmConst {
    VmConst::Primitive(PrimitiveValue::Int64(x))
}

#[test]
fn primary_key_of_a_set_type() {
    let schema = schema();
    let set_of = |name: &str| VmType::SetOf(VmSetType { ty: Box::new(VmType::Table(VmTableType { name: name.into() })) });
    let (name, ty) = set_of("Item").primary_key(&schema).unwrap();
    assert_eq!(name, "id");
    assert!(ty.same_as(&FieldType::Primitive(PrimitiveType::String)));
    assert!(set_of("Plain").primary_key(&schema).is_none());
    assert!(set_of("Missing").primary_key(&schema).is_none());
    assert!(int64().primary_key(&schema).is_none());
}

#[test]
fn constants_become_fresh_values() {
    let schema = schema();
    let v = VmValue::from_const(&schema, &table("Item", vec![("n", i(5)), ("id", s("k"))])).unwrap();
    match &v {
        VmValue::Table(t) => {
            assert_eq!(t.ty, "Item");
            match &t.kind {
                VmTableValueKind::Fresh(fields) => {
                    let names: Vec<&str> = fields.entries.iter().map(|e| e.key.as_str()).collect();
                    assert_eq!(names, vec!["id", "n"]);
                    assert!(fields.get("n").unwrap().same_as(&VmValue::Primitive(PrimitiveValue::Int64(5))));
                }
                _ => unreachable!(),
            }
        }
        _ => unreachable!(),
    }
    assert!(v.same_as(&v.duplicate()));
    assert!(VmType::of_value(&v).same_as(&VmType::Table(VmTableType { name: "Item".into() })));
    assert!(!v.is_null());
    assert!(VmValue::from_const(&schema, &VmConst::Null).unwrap().is_null());
    assert!(VmValue::from_const(&schema, &VmConst::Bool(true)).unwrap().unwrap_bool());

    // an optional field may be given as null
    assert!(VmValue::from_const(&schema, &table("Item", vec![("n", i(5)), ("id", s("k")), ("note", VmConst::Null)])).is_ok());
}

#[test]
fn constant_errors() {
    let schema = schema();
    match VmValue::from_const(&schema, &table("Nope", vec![])) {
        Err(VmValueError::TypeNotFound(t)) => assert_eq!(t, "Nope"),
        _ => unreachable!(),
    }
    match VmValue::from_const(&schema, &table("Item", vec![("id", s("k")), ("zzz", i(1))])) {
        Err(VmValueError::FieldNotFound(f, t)) => {
            assert_eq!(f, "zzz");
            assert_eq!(t, "Item");
        }
        _ => unreachable!(),
    }
    match VmValue::from_const(&schema, &table("Item", vec![("id", i(1)), ("n", i(1))])) {
        Err(VmValueError::IncompatibleFieldAndValueType(_, _)) => {}
        _ => unreachable!(),
    }
    match VmValue::from_const(&schema, &table("Item", vec![("id", s("k"))])) {
        Err(VmValueError::MissingField(f, t)) => {
            assert_eq!(f, "n");
            assert_eq!(t, "Item");
        }
        _ => unreachable!(),
    }
    let set = |ty: &str, members: Vec<VmConst>| VmConst::SetOf(VmConstSetValue { member_ty: ty.into(), members });
    match VmValue::from_const(&schema, &set("Plain", vec![])) {
        Err(VmValueError::MissingPrimaryKey) => {}
        _ => unreachable!(),
    }
    match VmValue::from_const(&schema, &set("Item", vec![table("Plain", vec![("x", i(1))])])) {
        Err(VmValueError::IncompatibleFieldAndValueType(_, _)) => {}
        _ => unreachable!(),
    }
}

#[test]
fn set_constants_are_keyed_by_primary_key() {
    let schema = schema();
    let member = |id: &str, n: i64| table("Item", vec![("id", s(id)), ("n", i(n))]);
    let c = VmConst::SetOf(VmConstSetValue {
        member_ty: "Item".into(),
        members: vec![member("b", 1), member("a", 2), member("b", 3)],
    });
    match VmValue::from_const(&schema, &c).unwrap() {
        VmValue::SetOf(set) => match &set.kind {
            VmSetValueKind::Fresh(members) => {
                let keys: Vec<&[u8]> = members.iter().map(|m| m.key.as_slice()).collect();
                assert_eq!(keys, vec![b"a".as_slice(), b"b".as_slice()]);
                let b = VmValue::from_const(&schema, &member("b", 3)).unwrap();
                assert!(members[1].value.same_as(&b));
            }
            _ => unreachable!(),
        },
        _ => unreachable!(),
    }
}

#[test]
fn binding_a_script_converts_its_constants() {
    let schema = schema();
    let plan = StoragePlan::new();
    let script = TwScript {
        graphs: vec![],
        entry: 0,
        consts: vec![i(1), table("Nope", vec![])],
        idents: vec![],
        types: vec![int64()],
    };
    match TwVm::new(&schema, &plan, &script) {
        Err(VmValueError::TypeNotFound(t)) => assert_eq!(t, "Nope"),
        _ => unreachable!(),
    }
    let script = TwScript { graphs: vec![], entry: 0, consts: vec![i(1)], idents: vec![], types: vec![int64()] };
    let vm = TwVm::new(&schema, &plan, &script).unwrap();
    assert_eq!(vm.consts.len(), 1);
    assert!(vm.consts[0].same_as(&VmValue::Primitive(PrimitiveValue::Int64(1))));
    assert!(vm.types[0].same_as(&int64()));
}

fn num(x: i64) -> VmValue {
    VmValue::Primitive(PrimitiveValue::Int64(x))
}

fn as_int(v: Option<&VmValue>) -> Option<i64> {
    match v {
        Some(VmValue::Primitive(PrimitiveValue::Int64(x))) => Some(*x),
        _ => None,
    }
}

#[test]
fn value_maps_are_persistent_and_ordered() {
    let empty = ValueMap::new();
    assert!(empty.names().is_empty());
    assert!(empty.get("a").is_none());
    let one = empty.with("b".to_string(), num(1));
    let two = one.with("a".to_string(), num(2));
    assert_eq!(two.names(), vec!["a".to_string(), "b".to_string()]);
    assert_eq!(as_int(two.get("a")), Some(2));
    assert_eq!(as_int(two.get("b")), Some(1));
    // the map that `two` was made from is as it was
    assert_eq!(one.names(), vec!["b".to_string()]);
    assert!(one.get("a").is_none());
    assert!(empty.names().is_empty());
    // a name that is there takes the new value and keeps its place
    let again = two.with("a".to_string(), num(7));
    assert_eq!(again.names(), vec!["a".to_string(), "b".to_string()]);
    assert_eq!(as_int(again.get("a")), Some(7));
    assert_eq!(as_int(two.get("a")), Some(2));
    let less = two.without("a");
    assert_eq!(less.names(), vec!["b".to_string()]);
    assert!(less.get("a").is_none());
    assert_eq!(two.without("zz").names(), vec!["a".to_string(), "b".to_string()]);
    let copy = two.duplicate();
    assert_eq!(copy.names(), two.names());
    assert_eq!(as_int(copy.get("b")), Some(1));
}

#[test]
fn value_lists_grow_at_the_head() {
    let empty = ValueList::new();
    assert!(empty.head().is_none());
    assert!(empty.tail().is_none());
    assert!(empty.items().is_empty());
    let one = empty.prepend(num(1));
    let two = one.prepend(num(2));
    assert_eq!(as_int(two.head()), Some(2));
    assert_eq!(as_int(one.head()), Some(1));
    let items = two.items();
    assert_eq!(items.len(), 2);
    assert_eq!(as_int(items.get(0)), Some(2));
    assert_eq!(as_int(items.get(1)), Some(1));
    let rest = two.tail().unwrap();
    assert_eq!(as_int(rest.head()), Some(1));
    assert_eq!(rest.items().len(), 1);
    assert!(rest.tail().unwrap().head().is_none());
    assert_eq!(two.duplicate().items().len(), 2);
}

#[test]
fn type_maps_are_ordered_by_name() {
    let m = TypeMap::new().with("y".to_string(), text_ty()).with("x".to_string(), int64());
    assert_eq!(m.names(), vec!["x".to_string(), "y".to_string()]);
    assert!(m.get("x").unwrap().same_as(&int64()));
    assert!(m.get("y").unwrap().same_as(&text_ty()));
    assert!(m.get("z").is_none());
    assert!(TypeMap::new().names().is_empty());
    assert_eq!(m.duplicate().names(), m.names());
    // two map types are the same whatever the order their fields came in
    let a = map(vec![("x", int64()), ("y", text_ty())]);
    let b = map(vec![("y", text_ty()), ("x", int64())]);
    assert!(a.same_as(&b));
    assert!(!a.same_as(&map(vec![("x", int64())])));
    assert!(!a.same_as(&map(vec![("x", int64()), ("y", int64())])));
    assert!(!a.same_as(&map(vec![("x", int64()), ("z", text_ty())])));
    assert!(a.duplicate().same_as(&a));
}

#[test]
fn values_compare_by_what_they_hold() {
    let a = VmValue::MapOf(VmMapValue {
        elements: ValueMap::new().with("p".to_string(), num(1)).with("q".to_string(), num(2)),
    });
    let b = VmValue::MapOf(VmMapValue {
        elements: ValueMap::new().with("q".to_string(), num(2)).with("p".to_string(), num(1)),
    });
    let c = VmValue::MapOf(VmMapValue {
        elements: ValueMap::new().with("p".to_string(), num(1)).with("q".to_string(), num(3)),
    });
    assert!(a.same_as(&b));
    assert!(!a.same_as(&c));
    assert!(a.duplicate().same_as(&a));
    let l = VmValue::List(VmListValue { member_ty: int64(), node: ValueList::new().prepend(num(1)).prepend(num(2)) });
    let m = VmValue::List(VmListValue { member_ty: int64(), node: ValueList::new().prepend(num(1)).prepend(num(2)) });
    let n = VmValue::List(VmListValue { member_ty: int64(), node: ValueList::new().prepend(num(2)).prepend(num(1)) });
    let short = VmValue::List(VmListValue { member_ty: int64(), node: ValueList::new().prepend(num(2)) });
    assert!(l.same_as(&m));
    assert!(!l.same_as(&n));
    assert!(!l.same_as(&short));
    assert!(l.duplicate().same_as(&l));
}

#[test]
fn the_type_of_a_map_value_has_the_type_of_each_field() {
    let v = VmValue::MapOf(VmMapValue {
        elements: ValueMap::new()
            .with("n".to_string(), num(1))
            .with("flag".to_string(), VmValue::Bool(true))
            .with("inner".to_string(), VmValue::MapOf(VmMapValue { elements: ValueMap::new().with("k".to_string(), num(0)) })),
    });
    let expected = map(vec![("flag", VmType::Bool), ("inner", map(vec![("k", int64())])), ("n", int64())]);
    assert!(VmType::of_value(&v).same_as(&expected));
    assert!(VmType::of_value(&VmValue::MapOf(VmMapValue { elements: ValueMap::new() })).same_as(&map(vec![])));
}

#[test]
fn the_type_of_a_schema_has_a_field_for_every_export() {
    let mut schema = schema();
    schema.add_export("one".to_string(), FieldType::Named("Item".to_string()));
    schema.add_export("many".to_string(), FieldType::SetOf(Box::new(FieldType::Named("Item".to_string()))));
    let ty = VmType::of_schema(&schema);
    match &ty {
        VmType::MapOf(m) => {
            let names = m.names();
            assert!(names.contains(&"one".to_string()));
            assert!(names.contains(&"many".to_string()));
            assert!(m.get("one").unwrap().same_as(&VmType::from_field_type(&FieldType::Named("Item".to_string()))));
            assert!(m.get("many").unwrap().same_as(&VmType::from_field_type(&FieldType::SetOf(Box::new(
                FieldType::Named("Item".to_string())
            )))));
            let mut sorted = names.clone();
            sorted.sort();
            assert_eq!(names, sorted);
        }
        other => panic!("{:?}", other),
    }
    assert!(VmType::of_schema(&CompiledSchema::new()).same_as(&map(vec![])));
}
