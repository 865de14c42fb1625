use rdb::bytes::{bytes_eq, bytes_lt, has_prefix, push_all, range_end, str_eq, str_lt};
use rdb::pathwalker::{PathWalker, Step, SET_DATA_TAG, SET_FAST_SCAN_TAG};
use rdb::schema::{CompiledSchema, FieldAnnotation, FieldType, PrimitiveType, SpecializedType};
use rdb::storage_plan::keygen::{claim_key, draw_key, key_at, key_from_parts, rand_storage_key};
use rdb::storage_plan::planner::generate_plan_for_schema;
use rdb::storage_plan::{holds_key, key_eq, StorageNode, StoragePlan};
use rdb::strmap::{Entry, StrMap};
use rdb::value::{be_vec, PrimitiveValue};

#[test]
fn byte_order_is_lexicographic() {
    assert!(bytes_lt(&[], &[0]));
    assert!(!bytes_lt(&[0], &[]));
    assert!(bytes_lt(&[1, 2], &[1, 3]));
    assert!(bytes_lt(&[1, 2], &[1, 2, 0]));
    assert!(!bytes_lt(&[1, 2], &[1, 2]));
    assert!(bytes_lt(&[1, 255], &[2]));
    assert!(bytes_eq(&[1, 2], &[1, 2]));
    assert!(!bytes_eq(&[1, 2], &[1, 2, 3]));
    assert!(has_prefix(&[1, 2, 3], &[1, 2]));
    assert!(!has_prefix(&[1, 2], &[1, 2, 3]));
    assert!(str_eq("abc", "abc"));
    assert!(!str_eq("abc", "abd"));
    assert!(str_lt("a", "b"));
    assert!(str_lt("Z", "a"));
}

#[test]
fn range_end_raises_the_last_byte() {
    assert_eq!(range_end(&vec![7, 0]), vec![7, 1]);
    assert_eq!(range_end(&vec![1, 2, 3]), vec![1, 2, 4]);
    let mut v = vec![1u8];
    push_all(&mut v, &[2, 3]);
    assert_eq!(v, vec![1, 2, 3]);
}

#[test]
fn a_prefix_range_covers_exactly_the_keys_with_the_prefix() {
    let prefix = vec![9u8, 9, 0];
    let end = range_end(&prefix);
    let inside = |k: &[u8]| !bytes_lt(k, &prefix) && bytes_lt(k, &end);
    assert!(inside(&[9, 9, 0]));
    assert!(inside(&[9, 9, 0, 255, 255]));
    assert!(!inside(&[9, 9]));
    assert!(!inside(&[9, 9, 1]));
    assert!(!inside(&[9, 8, 255]));
    assert!(!inside(&[9, 10]));
}

#[test]
fn big_endian_bytes() {
    assert_eq!(be_vec(0x0102030405060708), vec![1, 2, 3, 4, 5, 6, 7, 8]);
    assert_eq!(be_vec(1), vec![0, 0, 0, 0, 0, 0, 0, 1]);
}

#[test]
fn key_components_keep_the_order_of_numbers() {
    let enc = |x: i64| PrimitiveValue::Int64(x).serialize_for_key_component();
    assert_eq!(enc(0), vec![0x80, 0, 0, 0, 0, 0, 0, 0]);
    assert_eq!(enc(42), vec![0x80, 0, 0, 0, 0, 0, 0, 42]);
    assert_eq!(enc(-1), vec![0x7f, 255, 255, 255, 255, 255, 255, 255]);
    assert_eq!(enc(i64::MIN), vec![0; 8]);
    assert_eq!(enc(i64::MAX), vec![255; 8]);
    let samples = [i64::MIN, -300, -1, 0, 1, 255, 256, 70000, i64::MAX];
    for a in samples {
        for b in samples {
            assert_eq!(a < b, bytes_lt(&enc(a), &enc(b)));
        }
    }
    assert_eq!(PrimitiveValue::String("ab".into()).serialize_for_key_component(), vec![b'a', b'b']);
    assert_eq!(PrimitiveValue::Bytes(vec![1, 2]).serialize_for_key_component(), vec![1, 2]);
    assert_eq!(PrimitiveValue::Bool(true).serialize_for_key_component(), vec![1]);
    assert_eq!(PrimitiveValue::Double(3).serialize_for_key_component(), vec![0, 0, 0, 0, 0, 0, 0, 3]);
    assert_eq!(PrimitiveValue::Int64(5).get_type(), PrimitiveType::Int64);
    assert!(PrimitiveValue::String("x".into()).same_as(&PrimitiveValue::String("x".into())));
    assert!(!PrimitiveValue::Int64(1).same_as(&PrimitiveValue::Double(1)));
}

#[test]
fn keys_hold_time_then_random_bytes() {
    let tail = [10u8, 11, 12, 13, 14, 15];
    assert_eq!(
        key_at(0x0000_0102_0304_0506, &tail),
        Some([1, 2, 3, 4, 5, 6, 10, 11, 12, 13, 14, 15])
    );
    assert_eq!(key_at(0x0000_ffff_ffff_ffff, &tail).unwrap()[..6], [255; 6]);
    assert_eq!(key_at(0x0001_0000_0000_0000, &tail), None);
    assert_eq!(key_at(u128::MAX, &tail), None);
    assert_eq!(
        key_from_parts(&[0, 0, 9, 8, 7, 6, 5, 4], &tail),
        [9, 8, 7, 6, 5, 4, 10, 11, 12, 13, 14, 15]
    );
}

#[test]
fn minted_keys_are_new_and_taken_into_use() {
    let mut used: Vec<[u8; 12]> = Vec::new();
    let a = rand_storage_key(&mut used).unwrap();
    let b = rand_storage_key(&mut used).unwrap();
    assert_ne!(a, b);
    assert_eq!(used, vec![a, b]);
    assert!(holds_key(&used, &a));
    assert!(!claim_key(&mut used, a));
    assert_eq!(used.len(), 2);
    let c = [7u8; 12];
    assert!(claim_key(&mut used, c));
    assert_eq!(used.len(), 3);
    assert!(key_eq(&c, &[7u8; 12]));
    // the first two bytes of the time are the high bytes of the milliseconds
    // since the epoch, which stay zero for eight thousand years to come
    let drawn = draw_key().unwrap();
    assert!(drawn[0] < 4);
}

#[test]
fn sorted_map_inserts_in_name_order() {
    let mut m: StrMap<u32> = StrMap::new();
    m.insert("b".into(), 2);
    m.insert("a".into(), 1);
    m.insert("c".into(), 3);
    m.insert("b".into(), 20);
    let names: Vec<&str> = m.entries.iter().map(|e| e.key.as_str()).collect();
    assert_eq!(names, vec!["a", "b", "c"]);
    assert_eq!(m.get("b"), Some(&20));
    assert_eq!(m.get("d"), None);
    assert_eq!(m.find("c"), Some(2));
    assert_eq!(m.len(), 3);
    assert_eq!(m.remove("a"), Some(1));
    assert_eq!(m.remove("a"), None);
    assert_eq!(m.find("b"), Some(0));
}

fn leaf(key: u8) -> StorageNode {
    StorageNode {
        key: [key; 12],
        flattened: false,
        subspace_reference: false,
        packed: false,
        set: None,
        children: vec![],
    }
}

fn sample_plan() -> StoragePlan {
    // item (flattened) { a, tree (key 3, recursive) { left -> tree, value }, tags: set of (flattened) { id } }
    let tree = StorageNode {
        children: vec![
            Entry { key: "left".into(), value: StorageNode { subspace_reference: true, ..leaf(3) } },
            Entry { key: "value".into(), value: leaf(4) },
        ],
        ..leaf(3)
    };
    let member = StorageNode {
        flattened: true,
        children: vec![Entry { key: "id".into(), value: leaf(7) }],
        ..leaf(6)
    };
    let tags = StorageNode { set: Some(Box::new(member)), ..leaf(5) };
    let item = StorageNode {
        flattened: true,
        children: vec![
            Entry { key: "a".into(), value: leaf(2) },
            Entry { key: "tags".into(), value: tags },
            Entry { key: "tree".into(), value: tree },
        ],
        ..leaf(1)
    };
    let mut plan = StoragePlan::new();
    plan.nodes.entries.push(Entry { key: "item".into(), value: item });
    plan
}

fn cat(parts: &[&[u8]]) -> Vec<u8> {
    parts.iter().flat_map(|p| p.iter().copied()).collect()
}

#[test]
fn key_layout() {
    let plan = sample_plan();
    let item = PathWalker::from_export(&plan, "item").unwrap();
    assert!(item.stands_on(&plan));
    assert_eq!(item.generate_key(&plan), vec![1; 12]);
    assert!(PathWalker::from_export(&plan, "other").is_none());
    assert!(item.enter_field(&plan, "missing").is_none());

    // a flattened record's key is no part of its children's keys
    let a = item.enter_field(&plan, "a").unwrap();
    assert_eq!(a.generate_key(&plan), vec![2; 12]);

    // a record that is not flattened prefixes its children
    let tree = item.enter_field(&plan, "tree").unwrap();
    assert_eq!(tree.generate_key(&plan), vec![3; 12]);
    let value = tree.enter_field(&plan, "value").unwrap();
    assert_eq!(value.generate_key(&plan), cat(&[&[3; 12], &[4; 12]]));

    // a subspace reference leads back to the node it names
    let left = tree.enter_field(&plan, "left").unwrap();
    assert_eq!(left.route, vec![Step::Child(2)]);
    assert_eq!(left.generate_key(&plan), cat(&[&[3; 12], &[3; 12]]));
    let deep = left.enter_field(&plan, "left").unwrap().enter_field(&plan, "value").unwrap();
    assert_eq!(deep.generate_key(&plan), cat(&[&[3; 12], &[3; 12], &[3; 12], &[4; 12]]));

    // a set keeps an index and the members' data under its key
    let tags = item.enter_field(&plan, "tags").unwrap();
    assert_eq!(tags.set_fast_scan_prefix(&plan).unwrap(), cat(&[&[5; 12], &[SET_FAST_SCAN_TAG]]));
    assert_eq!(tags.set_data_prefix(&plan).unwrap(), cat(&[&[5; 12], &[SET_DATA_TAG]]));
    assert!(a.set_data_prefix(&plan).is_none());
    assert!(a.enter_set_raw(&plan, &[1]).is_none());
    let member = tags.enter_set(&plan, &PrimitiveValue::String("k".into())).unwrap();
    assert_eq!(member.generate_key(&plan), cat(&[&[5; 12], &[0], b"k", &[0], &[6; 12]]));
    let id = member.enter_field(&plan, "id").unwrap();
    assert_eq!(id.generate_key(&plan), cat(&[&[5; 12], &[0], b"k", &[0], &[7; 12]]));
    assert!(member.same_as(&tags.enter_set_raw(&plan, b"k").unwrap()));
    assert!(!member.same_as(&tags));
    assert!(member.duplicate().same_as(&member));
}

#[test]
fn recursive_set_walk() {
    // type Item { @primary a: int64, b: set<Item> }  export set<Item> items;
    let mut item = SpecializedType::new("Item".into());
    item.add_field("a".into(), FieldType::Primitive(PrimitiveType::Int64), vec![FieldAnnotation::Primary]);
    item.add_field(
        "b".into(),
        FieldType::SetOf(Box::new(FieldType::Named("Item".into()))),
        vec![],
    );
    let mut schema = CompiledSchema::new();
    schema.add_type(item);
    schema.add_export("items".into(), FieldType::SetOf(Box::new(FieldType::Named("Item".into()))));
    let plan = generate_plan_for_schema(&StoragePlan::new(), &CompiledSchema::new(), &schema).unwrap();
    let mut walker = PathWalker::from_export(&plan, "items").unwrap();
    let mut expected_len = 0;
    for pk in [42i64, 21, 10, 9, 8, 7] {
        walker = walker.enter_set(&plan, &PrimitiveValue::Int64(pk)).unwrap();
        let a = walker.enter_field(&plan, "a").unwrap();
        assert!(a.stands_on(&plan));
        walker = walker.enter_field(&plan, "b").unwrap();
        assert!(walker.set_data_prefix(&plan).is_some());
        let len = walker.generate_key(&plan).len();
        assert!(len > expected_len);
        expected_len = len;
    }
}
