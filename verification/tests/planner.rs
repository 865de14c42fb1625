use rdb::schema::{CompiledSchema, FieldAnnotation, FieldType, PrimitiveType, SpecializedType};
use rdb::storage_plan::planner::{generate_plan_for_schema, PlannerError};
use rdb::storage_plan::{StorageNode, StoragePlan};

fn named(name: &str) -> FieldType {
    FieldType::Named(name.to_string())
}

fn optional(inner: FieldType) -> FieldType {
    FieldType::Optional(Box::new(inner))
}

fn child<'a>(node: &'a StorageNode, name: &str) -> &'a StorageNode {
    &node.children.iter().find(|e| e.key == name).unwrap().value
}

fn binary_tree_schema() -> CompiledSchema {
    let mut tree = SpecializedType::new("BinaryTree<int64>".to_string());
    tree.add_field("left".to_string(), optional(named("BinaryTree<int64>")), vec![]);
    tree.add_field("right".to_string(), optional(named("BinaryTree<int64>")), vec![]);
    tree.add_field(
        "value".to_string(),
        optional(FieldType::Primitive(PrimitiveType::Int64)),
        vec![],
    );
    let mut schema = CompiledSchema::new();
    schema.add_type(tree);
    schema.add_export("data".to_string(), named("BinaryTree<int64>"));
    schema
}

fn all_keys(node: &StorageNode, out: &mut Vec<[u8; 12]>) {
    if !node.subspace_reference {
        out.push(node.key);
    }
    if let Some(member) = &node.set {
        all_keys(member, out);
    }
    for e in &node.children {
        all_keys(&e.value, out);
    }
}

#[test]
fn recursive_schema_planning() {
    let schema = binary_tree_schema();
    let plan = generate_plan_for_schema(&StoragePlan::new(), &CompiledSchema::new(), &schema).unwrap();
    assert_eq!(plan.nodes.entries.len(), 1);
    assert_eq!(plan.nodes.entries[0].key, "data");
    let data = &plan.nodes.entries[0].value;
    assert!(!data.subspace_reference);
    let left = child(data, "left");
    assert!(!left.flattened);
    assert!(!left.subspace_reference);
    let left_left = child(left, "left");
    assert!(left_left.subspace_reference);
    assert!(!left_left.flattened);
    assert_eq!(left_left.key, left.key);
    assert!(left_left.children.is_empty());
    let value = child(left, "value");
    assert!(!value.subspace_reference);
    assert_ne!(value.key, left.key);
    assert_ne!(value.key, data.key);
}

#[test]
fn fresh_plan_keys_are_unique() {
    let schema = binary_tree_schema();
    let plan = generate_plan_for_schema(&StoragePlan::new(), &CompiledSchema::new(), &schema).unwrap();
    let mut keys = Vec::new();
    for e in &plan.nodes.entries {
        all_keys(&e.value, &mut keys);
    }
    for i in 0..keys.len() {
        for j in 0..i {
            assert_ne!(keys[i], keys[j]);
        }
    }
    assert!(keys.len() >= 4);
}

#[test]
fn same_schema_reuses_every_key() {
    let schema = binary_tree_schema();
    let first = generate_plan_for_schema(&StoragePlan::new(), &CompiledSchema::new(), &schema).unwrap();
    let second = generate_plan_for_schema(&first, &schema, &schema).unwrap();
    assert_eq!(format!("{:?}", first), format!("{:?}", second));
}

#[test]
fn missing_type_is_reported() {
    let mut schema = CompiledSchema::new();
    schema.add_export("item".to_string(), named("Item"));
    match generate_plan_for_schema(&StoragePlan::new(), &CompiledSchema::new(), &schema) {
        Err(PlannerError::MissingType(name)) => assert_eq!(name, "Item"),
        other => panic!("{:?}", other.map(|_| ())),
    }
}

#[test]
fn renamed_field_keeps_its_key() {
    let mut item = SpecializedType::new("Item".to_string());
    item.add_field("a".to_string(), FieldType::Primitive(PrimitiveType::Int64), vec![]);
    let mut old = CompiledSchema::new();
    old.add_type(item);
    old.add_export("item".to_string(), named("Item"));
    let old_plan = generate_plan_for_schema(&StoragePlan::new(), &CompiledSchema::new(), &old).unwrap();

    let mut item = SpecializedType::new("Item".to_string());
    item.add_field(
        "b".to_string(),
        FieldType::Primitive(PrimitiveType::Int64),
        vec![FieldAnnotation::RenameFrom("a".to_string())],
    );
    item.add_field("c".to_string(), FieldType::Primitive(PrimitiveType::String), vec![]);
    let mut new = CompiledSchema::new();
    new.add_type(item);
    new.add_export("item".to_string(), named("Item"));
    let new_plan = generate_plan_for_schema(&old_plan, &old, &new).unwrap();

    let old_item = &old_plan.nodes.entries[0].value;
    let new_item = &new_plan.nodes.entries[0].value;
    assert_eq!(new_item.key, old_item.key);
    assert_eq!(child(new_item, "b").key, child(old_item, "a").key);
    assert_ne!(child(new_item, "c").key, child(old_item, "a").key);
    assert!(new_item.flattened);
}

fn copy_of(node: &StorageNode) -> StorageNode {
    StorageNode {
        key: node.key,
        flattened: node.flattened,
        subspace_reference: node.subspace_reference,
        packed: node.packed,
        set: node.set.as_ref().map(|member| Box::new(copy_of(member))),
        children: node
            .children
            .iter()
            .map(|e| rdb::strmap::Entry { key: e.key.clone(), value: copy_of(&e.value) })
            .collect(),
    }
}

#[test]
fn a_copy_of_a_plan_gives_the_same_keys() {
    let schema = binary_tree_schema();
    let plan = generate_plan_for_schema(&StoragePlan::new(), &CompiledSchema::new(), &schema).unwrap();
    let mut copy = StoragePlan::new();
    for e in &plan.nodes.entries {
        copy.nodes.entries.push(rdb::strmap::Entry { key: e.key.clone(), value: copy_of(&e.value) });
    }
    let replanned = generate_plan_for_schema(&copy, &schema, &schema).unwrap();
    for p in [&copy, &replanned] {
        let mut a = rdb::pathwalker::PathWalker::from_export(&plan, "data").unwrap();
        let mut b = rdb::pathwalker::PathWalker::from_export(p, "data").unwrap();
        for name in ["right", "left", "left", "right", "value"] {
            a = a.enter_field(&plan, name).unwrap();
            b = b.enter_field(p, name).unwrap();
            assert_eq!(a.generate_key(&plan), b.generate_key(p));
            assert!(a.same_as(&b));
        }
    }
}

#[test]
fn a_changed_type_gets_a_new_key_and_an_optional_one_keeps_it() {
    let make = |a: FieldType, b: FieldType| {
        let mut item = SpecializedType::new("Item".to_string());
        item.add_field("a".to_string(), a, vec![]);
        item.add_field("b".to_string(), b, vec![]);
        let mut schema = CompiledSchema::new();
        schema.add_type(item);
        schema.add_export("item".to_string(), named("Item"));
        schema
    };
    let int = || FieldType::Primitive(PrimitiveType::Int64);
    let text = || FieldType::Primitive(PrimitiveType::String);
    let old = make(int(), int());
    let old_plan = generate_plan_for_schema(&StoragePlan::new(), &CompiledSchema::new(), &old).unwrap();
    let new = make(optional(int()), text());
    let new_plan = generate_plan_for_schema(&old_plan, &old, &new).unwrap();
    let old_item = &old_plan.nodes.entries[0].value;
    let new_item = &new_plan.nodes.entries[0].value;
    assert_eq!(child(new_item, "a").key, child(old_item, "a").key);
    assert_ne!(child(new_item, "b").key, child(old_item, "b").key);
    assert_ne!(child(new_item, "b").key, child(old_item, "a").key);
}
