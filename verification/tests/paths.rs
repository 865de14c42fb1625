use rdb::pathwalker::PathWalker;
use rdb::query::{check_stack, QueryPlan, QueryStep};
use rdb::schema::{CompiledSchema, FieldAnnotation, FieldType, PrimitiveType, SpecializedType};
use rdb::storage_plan::planner::generate_plan_for_schema;
use rdb::storage_plan::StoragePlan;
use rdb::value::PrimitiveValue;

fn named(name: &str) -> FieldType {
    FieldType::Named(name.to_string())
}

fn optional(inner: FieldType) -> FieldType {
    FieldType::Optional(Box::new(inner))
}

fn set_of(inner: FieldType) -> FieldType {
    FieldType::SetOf(Box::new(inner))
}

fn int64() -> FieldType {
    FieldType::Primitive(PrimitiveType::Int64)
}

fn text() -> FieldType {
    FieldType::Primitive(PrimitiveType::String)
}

enum Hop<'a> {
    Field(&'a str),
    Member(PrimitiveValue),
}

/// Walks a path of a query through the plan, and builds the steps of a plan
/// that reads the value at its end.
fn address(plan: &StoragePlan, export: &str, hops: &[Hop]) -> (PathWalker, QueryPlan) {
    let mut walker = PathWalker::from_export(plan, export).unwrap();
    let mut steps = vec![QueryStep::CurrentPoint];
    for hop in hops {
        match hop {
            Hop::Field(name) => {
                walker = walker.enter_field(plan, name).unwrap();
                steps.push(QueryStep::ExtendPoint(name.to_string()));
                steps.push(QueryStep::Swap2);
                steps.push(QueryStep::Pop);
            }
            Hop::Member(pk) => {
                walker = walker.enter_set(plan, pk).unwrap();
                steps.push(QueryStep::Const(pk.duplicate()));
                steps.push(QueryStep::LensPut);
                steps.push(QueryStep::CurrentPoint);
            }
        }
    }
    steps.push(QueryStep::PointGet);
    steps.push(QueryStep::PeekAndFulfillResult("result".into()));
    steps.push(QueryStep::Pop);
    (walker, QueryPlan { steps })
}

fn plan_of(schema: &CompiledSchema) -> StoragePlan {
    generate_plan_for_schema(&StoragePlan::new(), &CompiledSchema::new(), schema).unwrap()
}

#[test]
fn simple_point_get() {
    let mut item = SpecializedType::new("Item".into());
    item.add_field("a".into(), int64(), vec![]);
    item.add_field("b".into(), text(), vec![]);
    let mut schema = CompiledSchema::new();
    schema.add_type(item);
    schema.add_export("item".into(), named("Item"));
    let storage_plan = plan_of(&schema);
    let (a, plan_a) = address(&storage_plan, "item", &[Hop::Field("a")]);
    let (b, plan_b) = address(&storage_plan, "item", &[Hop::Field("b")]);
    assert!(check_stack(&plan_a, 0));
    assert!(check_stack(&plan_b, 0));
    assert_ne!(a.generate_key(&storage_plan), b.generate_key(&storage_plan));
}

#[test]
fn packed_field_is_planned_as_a_leaf() {
    let mut inner = SpecializedType::new("Inner".into());
    inner.add_field("x".into(), int64(), vec![]);
    let mut item = SpecializedType::new("Item".into());
    item.add_field("a".into(), named("Inner"), vec![FieldAnnotation::Packed]);
    item.add_field("b".into(), text(), vec![]);
    let mut schema = CompiledSchema::new();
    schema.add_type(inner);
    schema.add_type(item);
    schema.add_export("item".into(), named("Item"));
    let storage_plan = plan_of(&schema);
    let a = &storage_plan.nodes.entries[0].value.children[0];
    assert_eq!(a.key, "a");
    assert!(a.value.packed);
    assert!(a.value.children.is_empty());
    assert!(!a.value.flattened);
}

#[test]
fn simple_set_scan_with_index() {
    let mut item = SpecializedType::new("Item".into());
    item.add_field("a".into(), int64(), vec![FieldAnnotation::Primary]);
    item.add_field("b".into(), text(), vec![]);
    let mut schema = CompiledSchema::new();
    schema.add_type(item);
    schema.add_export("items".into(), set_of(named("Item")));
    let storage_plan = plan_of(&schema);
    let pk = || Hop::Member(PrimitiveValue::Int64(42));
    let (a, plan_a) = address(&storage_plan, "items", &[pk(), Hop::Field("a")]);
    let (b, plan_b) = address(&storage_plan, "items", &[pk(), Hop::Field("b")]);
    assert!(check_stack(&plan_a, 0));
    assert!(check_stack(&plan_b, 0));
    assert_ne!(a.generate_key(&storage_plan), b.generate_key(&storage_plan));
}

#[test]
fn recursive_set_scan_with_index() {
    let mut item = SpecializedType::new("Item".into());
    item.add_field("a".into(), int64(), vec![FieldAnnotation::Primary]);
    item.add_field("b".into(), set_of(named("Item")), vec![]);
    let mut schema = CompiledSchema::new();
    schema.add_type(item);
    schema.add_export("items".into(), set_of(named("Item")));
    let storage_plan = plan_of(&schema);
    let pk = |n: i64| Hop::Member(PrimitiveValue::Int64(n));
    let b = || Hop::Field("b");
    let (_, plan) = address(
        &storage_plan,
        "items",
        &[pk(42), b(), pk(21), b(), pk(10), b(), pk(9), b(), pk(8), b(), pk(7), Hop::Field("a")],
    );
    assert!(check_stack(&plan, 0));
}

fn tree_type(name: &str, value: FieldType) -> SpecializedType {
    let mut tree = SpecializedType::new(name.into());
    tree.add_field("left".into(), optional(named(name)), vec![]);
    tree.add_field("right".into(), optional(named(name)), vec![]);
    tree.add_field("value".into(), optional(value), vec![]);
    tree
}

#[test]
fn binary_tree() {
    let mut schema = CompiledSchema::new();
    schema.add_type(tree_type("BinaryTree<int64>", int64()));
    schema.add_export("data".into(), named("BinaryTree<int64>"));
    let storage_plan = plan_of(&schema);
    let hops: Vec<Hop> = ["right", "left", "left", "right", "left", "right", "value"]
        .iter()
        .map(|name| Hop::Field(name))
        .collect();
    let (_, plan) = address(&storage_plan, "data", &hops);
    assert!(check_stack(&plan, 0));
}

#[test]
fn binary_tree_and_sets() {
    let wrapper = "Wrapper<int64>";
    let inner_tree = "BinaryTree<Wrapper<int64>>";
    let keyed = "Keyed<string, BinaryTree<Wrapper<int64>>>";
    let outer_tree = "BinaryTree<set<Keyed<string, BinaryTree<Wrapper<int64>>>>>";
    let mut w = SpecializedType::new(wrapper.into());
    w.add_field("inner".into(), int64(), vec![]);
    let mut k = SpecializedType::new(keyed.into());
    k.add_field("key".into(), text(), vec![FieldAnnotation::Primary]);
    k.add_field("value".into(), named(inner_tree), vec![]);
    let mut schema = CompiledSchema::new();
    schema.add_type(w);
    schema.add_type(k);
    schema.add_type(tree_type(inner_tree, named(wrapper)));
    schema.add_type(tree_type(outer_tree, set_of(named(keyed))));
    schema.add_export("data".into(), named(outer_tree));
    let storage_plan = plan_of(&schema);
    let path = |last: &'static str| {
        vec![
            Hop::Field("right"),
            Hop::Field("value"),
            Hop::Member(PrimitiveValue::String("a".into())),
            Hop::Field("value"),
            Hop::Field("left"),
            Hop::Field(last),
            Hop::Field("value"),
            Hop::Field("inner"),
        ]
    };
    let (one, plan_one) = address(&storage_plan, "data", &path("right"));
    let (other, plan_other) = address(&storage_plan, "data", &path("left"));
    assert!(check_stack(&plan_one, 0));
    assert!(check_stack(&plan_other, 0));
    assert_ne!(one.generate_key(&storage_plan), other.generate_key(&storage_plan));
}
