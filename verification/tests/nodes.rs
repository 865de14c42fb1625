use rdb::pathwalker::PathWalker;
use rdb::schema::{CompiledSchema, FieldAnnotation, FieldType, PrimitiveType, SpecializedType};
use rdb::storage_plan::planner::generate_plan_for_schema;
use rdb::storage_plan::StoragePlan;
use rdb::treewalker::shared::{ValueList, ValueMap};
use rdb::treewalker::bytecode::{TwGraphNode, TwScript};
use rdb::treewalker::exec::{generate_root_map, reduce_member, ExecError};
use rdb::treewalker::node::{can_run, step_node, NodeStep};
use rdb::treewalker::vm::TwVm;
use rdb::treewalker::vm_value::{
    VmListValue, VmMapValue, VmSetValueKind, VmTableType, VmTableValue, VmTableValueKind, VmType, VmValue,
};
use rdb::treewalker::writes::{delete_set, is_storable, walk_and_insert, KvWrite, Payload};
use rdb::value::PrimitiveValue;

fn schema() -> CompiledSchema {
    let mut item = SpecializedType::new("Item".into());
    item.add_field("id".into(), FieldType::Primitive(PrimitiveType::Int64), vec![FieldAnnotation::Primary]);
    item.add_field("name".into(), FieldType::Primitive(PrimitiveType::String), vec![]);
    let mut root = SpecializedType::new("Root".into());
    root.add_field("items".into(), FieldType::SetOf(Box::new(FieldType::Named("Item".into()))), vec![]);
    root.add_field("one".into(), FieldType::Named("Item".into()), vec![]);
    let mut schema = CompiledSchema::new();
    schema.add_type(item);
    schema.add_type(root);
    schema.add_export("root".into(), FieldType::Named("Root".into()));
    schema
}

fn empty_script() -> TwScript {
    TwScript {
        graphs: vec![],
        entry: 0,
        consts: vec![],
        idents: vec!["name".into(), "Item".into(), "items".into(), "nope".into()],
        types: vec![VmType::Primitive(PrimitiveType::Int64)],
    }
}

fn num(x: i64) -> VmValue {
    VmValue::Primitive(PrimitiveValue::Int64(x))
}

fn text(x: &str) -> VmValue {
    VmValue::Primitive(PrimitiveValue::String(x.into()))
}

fn null() -> VmValue {
    VmValue::Null(VmType::Null)
}

fn map(entries: Vec<(&str, VmValue)>) -> VmValue {
    let mut m = ValueMap::new();
    for (k, v) in entries {
        m = m.with(k.to_string(), v);
    }
    VmValue::MapOf(VmMapValue { elements: m })
}

fn list(items: Vec<VmValue>) -> VmValue {
    let mut node = ValueList::new();
    for item in items.into_iter().rev() {
        node = node.prepend(item);
    }
    VmValue::List(VmListValue { member_ty: VmType::Table(VmTableType { name: "Item".into() }), node })
}

fn done(step: Option<NodeStep>) -> VmValue {
    match step {
        Some(NodeStep::Done(Some(v))) => v,
        other => panic!("{:?}", other),
    }
}

fn failed(step: Option<NodeStep>) -> ExecError {
    match step {
        Some(NodeStep::Failed(e)) => e,
        other => panic!("{:?}", other),
    }
}

struct World {
    schema: CompiledSchema,
    plan: StoragePlan,
    script: TwScript,
}

impl World {
    fn new() -> World {
        let schema = schema();
        let plan = generate_plan_for_schema(&StoragePlan::new(), &CompiledSchema::new(), &schema).unwrap();
        World { schema, plan, script: empty_script() }
    }

    fn step(&self, n: TwGraphNode, params: Vec<VmValue>) -> Option<NodeStep> {
        let vm = TwVm::new(&self.schema, &self.plan, &self.script).unwrap();
        let ty = VmType::Primitive(PrimitiveType::Int64);
        let step = step_node(&vm, &n, &params, &vec![num(7)], Some(&ty));
        assert_eq!(step.is_some(), can_run(&vm, &n, &params, &vec![num(7)], Some(&ty)));
        step
    }

    fn fresh_item(&self, id: i64, name: &str) -> VmValue {
        done(self.step(TwGraphNode::BuildTable(1), vec![map(vec![("id", num(id)), ("name", text(name))])]))
    }

    fn root_field(&self, name: &str) -> VmValue {
        let root = generate_root_map(&self.schema, &self.plan).unwrap();
        let table = match &root {
            VmValue::MapOf(m) => m.elements.get("root").unwrap().duplicate(),
            _ => unreachable!(),
        };
        let vm = TwVm::new(&self.schema, &self.plan, &self.script).unwrap();
        match rdb::treewalker::node::read_table_element(vm.schema, vm.storage_plan, &table, name) {
            Some(NodeStep::Done(Some(v))) => v,
            other => panic!("{:?}", other),
        }
    }
}

#[test]
fn arithmetic_and_logic() {
    let w = World::new();
    assert!(done(w.step(TwGraphNode::Add, vec![num(40), num(2)])).same_as(&num(42)));
    assert!(done(w.step(TwGraphNode::Add, vec![num(i64::MAX), num(1)])).same_as(&num(i64::MIN)));
    assert!(done(w.step(TwGraphNode::Sub, vec![num(i64::MIN), num(1)])).same_as(&num(i64::MAX)));
    assert!(done(w.step(TwGraphNode::Add, vec![text("ab"), text("cd")])).same_as(&text("abcd")));
    let double = |bits: u64| VmValue::Primitive(PrimitiveValue::Double(bits));
    assert!(matches!(
        w.step(TwGraphNode::Add, vec![double(1), double(2)]),
        Some(NodeStep::FloatAdd { left: 1, right: 2 })
    ));
    assert!(matches!(
        w.step(TwGraphNode::Sub, vec![double(1), double(2)]),
        Some(NodeStep::FloatSub { left: 1, right: 2 })
    ));
    assert!(w.step(TwGraphNode::Sub, vec![text("a"), text("b")]).is_none());
    assert!(w.step(TwGraphNode::Add, vec![num(1), text("b")]).is_none());
    let b = |x: bool| VmValue::Bool(x);
    assert!(done(w.step(TwGraphNode::And, vec![b(true), b(false)])).same_as(&b(false)));
    assert!(done(w.step(TwGraphNode::Or, vec![b(true), b(false)])).same_as(&b(true)));
    assert!(done(w.step(TwGraphNode::Not, vec![b(true)])).same_as(&b(false)));
    assert!(done(w.step(TwGraphNode::Eq, vec![num(1), num(1)])).same_as(&b(true)));
    assert!(done(w.step(TwGraphNode::Eq, vec![num(1), text("1")])).same_as(&b(false)));
    assert!(done(w.step(TwGraphNode::Ne, vec![num(1), num(2)])).same_as(&b(true)));
    assert!(done(w.step(TwGraphNode::IsNull, vec![null()])).same_as(&b(true)));
    assert!(done(w.step(TwGraphNode::IsNull, vec![num(1)])).same_as(&b(false)));
    assert!(done(w.step(TwGraphNode::Nop, vec![num(5)])).same_as(&num(5)));
    assert!(done(w.step(TwGraphNode::LoadParam(0), vec![])).same_as(&num(7)));
    assert!(w.step(TwGraphNode::LoadParam(1), vec![]).is_none());
    assert!(w.step(TwGraphNode::LoadConst(0), vec![]).is_none());
    assert!(w.step(TwGraphNode::Select, vec![num(1)]).is_none());
    assert!(w.step(TwGraphNode::And, vec![num(1), b(true)]).is_none());
}

#[test]
fn optional_chaining_gives_the_null_of_the_node_type() {
    let w = World::new();
    let typed_null = VmValue::Null(VmType::Primitive(PrimitiveType::Int64));
    assert!(done(w.step(TwGraphNode::Add, vec![null(), num(2)])).same_as(&typed_null));
    assert!(done(w.step(TwGraphNode::GetField(0), vec![null()])).same_as(&typed_null));
    assert!(done(w.step(TwGraphNode::Not, vec![null()])).same_as(&typed_null));
    // operations that must see nulls are run on them
    assert!(done(w.step(TwGraphNode::Eq, vec![null(), null()])).same_as(&VmValue::Bool(true)));
    assert!(done(w.step(TwGraphNode::InsertIntoMap(0), vec![null(), map(vec![])]))
        .same_as(&map(vec![("name", null())])));
    assert!(done(w.step(TwGraphNode::InsertIntoMap(0), vec![num(1), null()])).is_null());
    assert!(done(w.step(TwGraphNode::DeleteFromMap(0), vec![null()])).is_null());
}

#[test]
fn errors_of_the_script() {
    let w = World::new();
    assert!(matches!(failed(w.step(TwGraphNode::UnwrapOptional, vec![null()])), ExecError::NullUnwrapped));
    assert!(done(w.step(TwGraphNode::UnwrapOptional, vec![num(1)])).same_as(&num(1)));
    assert!(matches!(failed(w.step(TwGraphNode::Throw, vec![null()])), ExecError::ScriptThrownNull));
    match failed(w.step(TwGraphNode::Throw, vec![text("boom")])) {
        ExecError::ScriptThrownError(m) => assert_eq!(m, "boom"),
        other => panic!("{:?}", other),
    }
    assert!(w.step(TwGraphNode::Throw, vec![num(1)]).is_none());
    match failed(w.step(TwGraphNode::FilterSet(0), vec![num(1), num(2)])) {
        ExecError::NotImplemented(what) => assert_eq!(what, "FilterSet(0)"),
        other => panic!("{:?}", other),
    }
    match failed(w.step(TwGraphNode::FilterSet(4070), vec![num(1), num(2)])) {
        ExecError::NotImplemented(what) => assert_eq!(what, "FilterSet(4070)"),
        other => panic!("{:?}", other),
    }
}

#[test]
fn maps_and_lists() {
    let w = World::new();
    let m = done(w.step(TwGraphNode::CreateMap, vec![]));
    assert!(m.same_as(&map(vec![])));
    let m = done(w.step(TwGraphNode::InsertIntoMap(0), vec![text("x"), m]));
    assert!(m.same_as(&map(vec![("name", text("x"))])));
    assert!(done(w.step(TwGraphNode::GetField(0), vec![m.duplicate()])).same_as(&text("x")));
    assert!(w.step(TwGraphNode::GetField(3), vec![m.duplicate()]).is_none());
    assert!(w.step(TwGraphNode::GetField(99), vec![m.duplicate()]).is_none());
    let m = done(w.step(TwGraphNode::DeleteFromMap(0), vec![m]));
    assert!(m.same_as(&map(vec![])));

    let empty = done(w.step(TwGraphNode::CreateList(0), vec![]));
    let one = done(w.step(TwGraphNode::PrependToList, vec![num(1), empty.duplicate()]));
    let two = done(w.step(TwGraphNode::PrependToList, vec![num(2), one.duplicate()]));
    assert!(done(w.step(TwGraphNode::ListHead, vec![two.duplicate()])).same_as(&num(2)));
    assert!(done(w.step(TwGraphNode::PopFromList, vec![two.duplicate()])).same_as(&one));
    assert!(done(w.step(TwGraphNode::ListHead, vec![empty.duplicate()]))
        .same_as(&VmValue::Null(VmType::Primitive(PrimitiveType::Int64))));
    assert!(done(w.step(TwGraphNode::PopFromList, vec![empty.duplicate()])).same_as(&VmValue::Null(
        VmType::List(Box::new(VmType::Primitive(PrimitiveType::Int64)))
    )));
    match w.step(TwGraphNode::Reduce(3, false), vec![num(0), num(0), two]) {
        Some(NodeStep::ReduceList { graph: 3, items, .. }) => {
            assert_eq!(items.len(), 2);
            assert!(items[0].same_as(&num(2)));
            assert!(items[1].same_as(&num(1)));
        }
        other => panic!("{:?}", other),
    }
    assert!(done(w.step(TwGraphNode::Reduce(3, false), vec![num(0), num(0), null()])).is_null());
    assert!(w.step(TwGraphNode::CreateList(9), vec![]).is_none());
}

#[test]
fn tables_are_built_with_nulls_for_missing_fields() {
    let w = World::new();
    let t = done(w.step(TwGraphNode::BuildTable(1), vec![map(vec![("id", num(1))])]));
    match &t {
        VmValue::Table(VmTableValue { ty, kind: VmTableValueKind::Fresh(fields) }) => {
            assert_eq!(ty, "Item");
            assert!(fields.get("id").unwrap().same_as(&num(1)));
            assert!(fields.get("name").unwrap().same_as(&VmValue::Null(VmType::Primitive(PrimitiveType::String))));
        }
        _ => unreachable!(),
    }
    assert!(done(w.step(TwGraphNode::GetField(0), vec![w.fresh_item(1, "n")])).same_as(&text("n")));
    assert!(w.step(TwGraphNode::BuildTable(3), vec![map(vec![])]).is_none());
    assert!(w.step(TwGraphNode::BuildTable(1), vec![num(1)]).is_none());
    assert!(done(w.step(TwGraphNode::IsPresent, vec![t])).same_as(&VmValue::Bool(true)));
}

#[test]
fn sets_are_built_from_lists_by_primary_key() {
    let w = World::new();
    let l = list(vec![w.fresh_item(2, "b"), w.fresh_item(1, "a"), w.fresh_item(2, "c")]);
    let set = done(w.step(TwGraphNode::BuildSet, vec![l]));
    match &set {
        VmValue::SetOf(s) => match &s.kind {
            VmSetValueKind::Fresh(members) => {
                assert_eq!(members.len(), 2);
                assert_eq!(members[0].key, PrimitiveValue::Int64(1).serialize_for_key_component());
                assert!(members[1].value.same_as(&w.fresh_item(2, "c")));
            }
            _ => unreachable!(),
        },
        _ => unreachable!(),
    }
    assert!(is_storable(&set));
    assert!(!is_storable(&VmValue::Bool(true)));
    assert!(!is_storable(&map(vec![])));
    // operations on sets in the store do not take fresh sets
    assert!(matches!(
        failed(w.step(TwGraphNode::GetSetElement, vec![num(1), set.duplicate()])),
        ExecError::FreshTableOrSetNotSupported
    ));
    assert!(matches!(
        failed(w.step(TwGraphNode::DeleteFromSet, vec![num(1), set.duplicate()])),
        ExecError::FreshTableOrSetNotSupported
    ));
    assert!(matches!(
        failed(w.step(TwGraphNode::InsertIntoSet, vec![w.fresh_item(3, "x"), set.duplicate()])),
        ExecError::FreshTableOrSetNotSupported
    ));
    assert!(matches!(
        failed(w.step(TwGraphNode::Reduce(0, false), vec![num(0), num(0), set.duplicate()])),
        ExecError::FreshTableOrSetNotSupported
    ));
    // a table that lies in the store: a fresh set refuses it as it refuses every member,
    // a set in the store cannot copy it
    let stored = w.root_field("one");
    assert!(matches!(
        failed(w.step(TwGraphNode::InsertIntoSet, vec![stored.duplicate(), set.duplicate()])),
        ExecError::FreshTableOrSetNotSupported
    ));
    match failed(w.step(TwGraphNode::InsertIntoSet, vec![stored.duplicate(), w.root_field("items")])) {
        ExecError::NotImplemented(what) => assert_eq!(what, "table copy is not implemented"),
        other => panic!("{:?}", other),
    }
    assert!(w.step(TwGraphNode::InsertIntoSet, vec![stored, num(1)]).is_none());
    assert!(matches!(
        failed(w.step(TwGraphNode::InsertIntoTable(0), vec![text("x"), w.fresh_item(1, "a")])),
        ExecError::FreshTableOrSetNotSupported
    ));
    assert!(matches!(
        failed(w.step(TwGraphNode::DeleteFromTable(0), vec![w.fresh_item(1, "a")])),
        ExecError::FreshTableOrSetNotSupported
    ));
}

fn put_keys(writes: &Vec<KvWrite>) -> Vec<Vec<u8>> {
    writes
        .iter()
        .filter_map(|w| match w {
            KvWrite::Put { key, .. } => Some(key.clone()),
            _ => None,
        })
        .collect()
}

#[test]
fn writes_of_an_insert() {
    let w = World::new();
    let items = w.root_field("items");
    let set_walker = match &items {
        VmValue::SetOf(s) => match &s.kind {
            VmSetValueKind::Resident(walker) => walker.duplicate(),
            _ => unreachable!(),
        },
        _ => unreachable!(),
    };
    let pk = PrimitiveValue::Int64(5).serialize_for_key_component();
    let index = set_walker.set_fast_scan_prefix(&w.plan).unwrap();
    let member = set_walker.enter_set_raw(&w.plan, &pk).unwrap();
    let writes = match w.step(TwGraphNode::InsertIntoSet, vec![w.fresh_item(5, "five"), items.duplicate()]) {
        Some(NodeStep::Write(writes)) => writes,
        other => panic!("{:?}", other),
    };
    let mut index_key = index.clone();
    index_key.extend_from_slice(&pk);
    assert_eq!(
        put_keys(&writes),
        vec![
            index_key.clone(),
            member.generate_key(&w.plan),
            member.enter_field(&w.plan, "id").unwrap().generate_key(&w.plan),
            member.enter_field(&w.plan, "name").unwrap().generate_key(&w.plan),
        ]
    );
    assert!(matches!(&writes[3], KvWrite::Put { value: Payload::Primitive(PrimitiveValue::String(s)), .. } if s == "five"));
    assert!(matches!(&writes[1], KvWrite::Put { value: Payload::Empty, .. }));

    // reading the member back asks for the key that was written
    let found = done(w.step(TwGraphNode::GetSetElement, vec![num(5), items.duplicate()]));
    match w.step(TwGraphNode::GetField(0), vec![found.duplicate()]) {
        Some(NodeStep::Fetch { key, missing }) => {
            assert_eq!(key, put_keys(&writes)[3]);
            assert!(missing.same_as(&VmType::Primitive(PrimitiveType::String)));
        }
        other => panic!("{:?}", other),
    }
    match w.step(TwGraphNode::IsPresent, vec![found]) {
        Some(NodeStep::Probe { key }) => assert_eq!(key, member.generate_key(&w.plan)),
        other => panic!("{:?}", other),
    }

    // deleting the member deletes its index entry and everything under its key
    match w.step(TwGraphNode::DeleteFromSet, vec![num(5), items.duplicate()]) {
        Some(NodeStep::Write(writes)) => {
            assert_eq!(writes.len(), 2);
            assert!(matches!(&writes[0], KvWrite::Delete { key } if *key == index_key));
            match &writes[1] {
                KvWrite::DeleteRange { start, end } => {
                    assert!(member.generate_key(&w.plan).starts_with(start));
                    assert_eq!(start[..start.len() - 1], end[..end.len() - 1]);
                    assert_eq!((start[start.len() - 1], end[end.len() - 1]), (0, 1));
                }
                _ => unreachable!(),
            }
        }
        other => panic!("{:?}", other),
    }

    // a null deletes, a set clears what the store holds of it first
    let one = w.root_field("one");
    match w.step(TwGraphNode::InsertIntoTable(0), vec![null(), one.duplicate()]) {
        Some(NodeStep::Write(writes)) => assert!(matches!(&writes[..], [KvWrite::Delete { .. }])),
        other => panic!("{:?}", other),
    }
    match w.step(TwGraphNode::DeleteFromTable(0), vec![one.duplicate()]) {
        Some(NodeStep::Write(writes)) => assert!(matches!(&writes[..], [KvWrite::Delete { .. }])),
        other => panic!("{:?}", other),
    }
    assert!(w.step(TwGraphNode::InsertIntoTable(3), vec![num(1), one.duplicate()]).is_none());
    assert!(w.step(TwGraphNode::InsertIntoTable(0), vec![VmValue::Bool(true), one]).is_none());
    let cleared = delete_set(&w.plan, &set_walker).unwrap();
    assert!(matches!(&cleared[..], [KvWrite::DeleteRange { .. }, KvWrite::DeleteRange { .. }]));
    let whole = list(vec![w.fresh_item(1, "a")]);
    let set = done(w.step(TwGraphNode::BuildSet, vec![whole]));
    let writes = walk_and_insert(&w.plan, &set_walker, &set).unwrap();
    assert_eq!(writes.len(), 3 + 1 + 3);
    assert!(matches!(
        walk_and_insert(&w.plan, &set_walker, &items),
        Err(ExecError::NotImplemented(m)) if m == "set copy is not implemented"
    ));
    assert!(delete_set(&w.plan, &PathWalker::from_export(&w.plan, "root").unwrap()).is_none());
}

#[test]
fn reduce_over_a_set_scans_a_range_of_the_index() {
    let w = World::new();
    let items = w.root_field("items");
    let key = |n: i64| PrimitiveValue::Int64(n).serialize_for_key_component();
    match w.step(TwGraphNode::Reduce(2, false), vec![num(0), num(0), items.duplicate()]) {
        Some(NodeStep::ReduceSet { graph: 2, walker, member_ty, prefix, start, end, .. }) => {
            assert_eq!(member_ty, "Item");
            assert_eq!(start, prefix);
            assert_eq!(end[..end.len() - 1], prefix[..prefix.len() - 1]);
            assert_eq!(end[end.len() - 1], prefix[prefix.len() - 1] + 1);
            let mut listed = prefix.clone();
            listed.extend_from_slice(&key(9));
            let member = reduce_member(&w.plan, &walker, &member_ty, &prefix, &listed).unwrap();
            let direct = done(w.step(TwGraphNode::GetSetElement, vec![num(9), items.duplicate()]));
            assert!(member.same_as(&direct));
            assert!(reduce_member(&w.plan, &walker, &member_ty, &prefix, &vec![1, 2, 3]).is_none());
        }
        other => panic!("{:?}", other),
    }
    match w.step(TwGraphNode::Reduce(2, true), vec![num(0), num(0), items.duplicate(), num(3), null()]) {
        Some(NodeStep::ReduceSet { prefix, start, end, .. }) => {
            let mut from = prefix.clone();
            from.extend_from_slice(&key(3));
            assert_eq!(start, from);
            assert_eq!(end[end.len() - 1], prefix[prefix.len() - 1] + 1);
        }
        other => panic!("{:?}", other),
    }
    match w.step(TwGraphNode::Reduce(2, true), vec![num(0), num(0), items.duplicate(), null(), num(8)]) {
        Some(NodeStep::ReduceSet { prefix, start, end, .. }) => {
            let mut to = prefix.clone();
            to.extend_from_slice(&key(8));
            assert_eq!(start, prefix);
            assert_eq!(end, to);
        }
        other => panic!("{:?}", other),
    }
    assert!(w.step(TwGraphNode::Reduce(2, true), vec![num(0), num(0), items]).is_none());
}
