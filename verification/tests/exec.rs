use std::collections::{BTreeMap, VecDeque};

use rdb::pathwalker::PathWalker;
use rdb::schema::{CompiledSchema, FieldAnnotation, FieldType, PrimitiveType, SpecializedType};
use rdb::storage_plan::planner::generate_plan_for_schema;
use rdb::storage_plan::StoragePlan;
use rdb::treewalker::bytecode::{TwGraph, TwGraphNode, TwScript};
use rdb::treewalker::exec::{
    after_commit, decide_after_commit, enter_graph, generate_root_map, reduce_feed, reduce_member,
    reduce_params, AfterCommit, CommitOutcome, ExecError, Executor, GlobalTypeInfo, GraphTypeInfo,
    ReduceNext, MAX_COMMIT_ATTEMPTS, MAX_RECURSION_DEPTH,
};
use rdb::treewalker::node::{finish_fetch, step_node, NodeStep};
use rdb::treewalker::schedule::{GraphRun, ReadyNode};
use rdb::treewalker::vm::TwVm;
use rdb::treewalker::vm_value::{VmConst, VmType, VmValue};
use rdb::treewalker::writes::{KvWrite, Payload};
use rdb::value::PrimitiveValue;

type Kv = BTreeMap<Vec<u8>, Vec<u8>>;

fn encode(p: &Payload) -> Vec<u8> {
    match p {
        Payload::Empty => vec![],
        Payload::Primitive(PrimitiveValue::Int64(x)) => {
            let mut out = vec![1u8];
            out.extend_from_slice(&x.to_be_bytes());
            out
        }
        Payload::Primitive(PrimitiveValue::Double(x)) => {
            let mut out = vec![2u8];
            out.extend_from_slice(&x.to_be_bytes());
            out
        }
        Payload::Primitive(PrimitiveValue::String(x)) => {
            let mut out = vec![3u8];
            out.extend_from_slice(x.as_bytes());
            out
        }
        Payload::Primitive(PrimitiveValue::Bytes(x)) => {
            let mut out = vec![4u8];
            out.extend_from_slice(x);
            out
        }
        Payload::Primitive(PrimitiveValue::Bool(x)) => vec![5u8, *x as u8],
    }
}

fn decode(raw: &[u8]) -> PrimitiveValue {
    match raw[0] {
        1 => PrimitiveValue::Int64(i64::from_be_bytes(raw[1..9].try_into().unwrap())),
        2 => PrimitiveValue::Double(u64::from_be_bytes(raw[1..9].try_into().unwrap())),
        3 => PrimitiveValue::String(String::from_utf8(raw[1..].to_vec()).unwrap()),
        4 => PrimitiveValue::Bytes(raw[1..].to_vec()),
        _ => PrimitiveValue::Bool(raw[1] != 0),
    }
}

fn apply(kv: &mut Kv, writes: &Vec<KvWrite>) {
    for w in writes {
        match w {
            KvWrite::Put { key, value } => {
                kv.insert(key.clone(), encode(value));
            }
            KvWrite::Delete { key } => {
                kv.remove(key);
            }
            KvWrite::DeleteRange { start, end } => {
                let doomed: Vec<Vec<u8>> = kv.range(start.clone()..end.clone()).map(|(k, _)| k.clone()).collect();
                for k in doomed {
                    kv.remove(&k);
                }
            }
        }
    }
}

fn no_types(script: &TwScript) -> GlobalTypeInfo {
    GlobalTypeInfo {
        graphs: script
            .graphs
            .iter()
            .map(|g| GraphTypeInfo { nodes: g.nodes.iter().map(|_| None).collect() })
            .collect(),
    }
}

fn run_graph(
    vm: &TwVm,
    types: &GlobalTypeInfo,
    kv: &mut Kv,
    graph_index: usize,
    graph_params: &Vec<VmValue>,
    depth: usize,
) -> Result<Option<VmValue>, ExecError> {
    let executor = Executor::new(vm, types);
    let (mut run, first, inner) = executor.begin_graph(graph_index, depth)?;
    let g = &vm.script.graphs[graph_index];
    let mut queue: VecDeque<ReadyNode> =
        first.into_iter().map(|node| ReadyNode::Run { node, params: vec![] }).collect();
    while let Some(ready) = queue.pop_front() {
        let (node, result) = match ready {
            ReadyNode::Pass { node, value } => (node, Some(value)),
            ReadyNode::Run { node, params } => {
                let ty = executor.node_type(graph_index, node as usize);
                let step = step_node(vm, &g.nodes[node as usize].0, &params, graph_params, ty)
                    .expect("the parameters do not fit the operation");
                (node, finish(vm, types, kv, step, inner)?)
            }
        };
        let more = run.complete(g, &executor.fire_rule_tables[graph_index], node, result)?;
        queue.extend(more);
    }
    Ok(run.output)
}

fn reduce_over(
    vm: &TwVm,
    types: &GlobalTypeInfo,
    kv: &mut Kv,
    graph: u32,
    param: VmValue,
    init: VmValue,
    items: Vec<VmValue>,
    depth: usize,
) -> Result<Option<VmValue>, ExecError> {
    let mut so_far = init;
    for item in items {
        let params = reduce_params(&param, &so_far, item);
        let output = run_graph(vm, types, kv, graph as usize, &params, depth)?.expect("no output");
        match reduce_feed(so_far, output) {
            ReduceNext::Continue(v) => so_far = v,
            ReduceNext::Stop(v) => {
                so_far = v;
                break;
            }
        }
    }
    Ok(Some(so_far))
}

fn finish(
    vm: &TwVm,
    types: &GlobalTypeInfo,
    kv: &mut Kv,
    step: NodeStep,
    depth: usize,
) -> Result<Option<VmValue>, ExecError> {
    match step {
        NodeStep::Done(v) => Ok(v),
        NodeStep::Failed(e) => Err(e),
        NodeStep::Write(writes) => {
            apply(kv, &writes);
            Ok(None)
        }
        NodeStep::Fetch { key, missing } => Ok(Some(finish_fetch(kv.get(&key).map(|raw| decode(raw)), missing))),
        NodeStep::Probe { key } => Ok(Some(VmValue::Bool(kv.contains_key(&key)))),
        NodeStep::Call { graph, params } => run_graph(vm, types, kv, graph as usize, &params, depth),
        NodeStep::FloatAdd { left, right } => Ok(Some(VmValue::Primitive(PrimitiveValue::Double(
            (f64::from_bits(left) + f64::from_bits(right)).to_bits(),
        )))),
        NodeStep::FloatSub { left, right } => Ok(Some(VmValue::Primitive(PrimitiveValue::Double(
            (f64::from_bits(left) - f64::from_bits(right)).to_bits(),
        )))),
        NodeStep::ReduceList { graph, param, init, items } => {
            reduce_over(vm, types, kv, graph, param, init, items, depth)
        }
        NodeStep::ReduceSet { graph, param, init, walker, member_ty, prefix, start, end } => {
            let keys: Vec<Vec<u8>> = kv.range(start..end).map(|(k, _)| k.clone()).collect();
            let members: Vec<VmValue> = keys
                .iter()
                .map(|k| reduce_member(vm.storage_plan, &walker, &member_ty, &prefix, k).unwrap())
                .collect();
            reduce_over(vm, types, kv, graph, param, init, members, depth)
        }
    }
}

fn graph(nodes: Vec<(TwGraphNode, Vec<u32>, Option<u32>)>, output: Option<u32>) -> TwGraph {
    TwGraph {
        name: "".into(),
        exported: false,
        nodes,
        output,
        effects: vec![],
        param_types: vec![0],
        output_type: output.map(|_| 1),
    }
}

fn script(graphs: Vec<TwGraph>, consts: Vec<VmConst>, idents: &[&str]) -> TwScript {
    TwScript {
        graphs,
        entry: 0,
        consts,
        idents: idents.iter().map(|x| x.to_string()).collect(),
        types: vec![VmType::Schema, VmType::Primitive(PrimitiveType::Int64)],
    }
}

fn text(s: &str) -> VmConst {
    VmConst::Primitive(PrimitiveValue::String(s.into()))
}

fn exec(schema: &CompiledSchema, plan: &StoragePlan, kv: &mut Kv, s: &TwScript) -> Option<VmValue> {
    let vm = TwVm::new(schema, plan, s).unwrap();
    assert!(Executor::graphs_well_formed(&vm));
    let types = no_types(s);
    let root = generate_root_map(schema, plan).unwrap();
    run_graph(&vm, &types, kv, 0, &vec![root], 0).unwrap()
}

fn item_schema() -> CompiledSchema {
    let mut duration = SpecializedType::new("Duration<int64>".into());
    duration.add_field("start".into(), FieldType::Primitive(PrimitiveType::Int64), vec![]);
    duration.add_field("end".into(), FieldType::Primitive(PrimitiveType::Int64), vec![]);
    let mut item = SpecializedType::new("Item<>".into());
    item.add_field("id".into(), FieldType::Primitive(PrimitiveType::String), vec![]);
    item.add_field("name".into(), FieldType::Primitive(PrimitiveType::String), vec![]);
    item.add_field("duration".into(), FieldType::Named("Duration<int64>".into()), vec![]);
    let mut schema = CompiledSchema::new();
    schema.add_type(duration);
    schema.add_type(item);
    schema.add_export("some_item".into(), FieldType::Named("Item<>".into()));
    schema
}

#[test]
fn basic_exec() {
    let schema = item_schema();
    let plan = generate_plan_for_schema(&StoragePlan::new(), &CompiledSchema::new(), &schema).unwrap();
    let mut kv = Kv::new();
    let s = script(
        vec![graph(
            vec![
                (TwGraphNode::LoadParam(0), vec![], None),
                (TwGraphNode::GetField(0), vec![0], None),
                (TwGraphNode::GetField(1), vec![1], None),
                (TwGraphNode::GetField(2), vec![1], None),
                (TwGraphNode::GetField(3), vec![3], None),
                (TwGraphNode::CreateMap, vec![], None),
                (TwGraphNode::InsertIntoMap(4), vec![2, 5], None),
                (TwGraphNode::InsertIntoMap(5), vec![4, 6], None),
                (TwGraphNode::LoadConst(0), vec![], None),
                (TwGraphNode::InsertIntoTable(1), vec![8, 1], None),
            ],
            Some(7),
        )],
        vec![text("test_name")],
        &["some_item", "name", "duration", "start", "field_1", "field_2"],
    );
    let output = exec(&schema, &plan, &mut kv, &s).unwrap();
    match &output {
        VmValue::MapOf(x) => {
            match x.elements.get("field_1").unwrap() {
                VmValue::Null(VmType::Primitive(PrimitiveType::String)) => {}
                _ => unreachable!(),
            }
            match x.elements.get("field_2").unwrap() {
                VmValue::Null(VmType::Primitive(PrimitiveType::Int64)) => {}
                _ => unreachable!(),
            }
        }
        _ => unreachable!(),
    }

    let s = script(
        vec![graph(
            vec![
                (TwGraphNode::LoadParam(0), vec![], None),
                (TwGraphNode::GetField(0), vec![0], None),
                (TwGraphNode::GetField(1), vec![1], None),
            ],
            Some(2),
        )],
        vec![],
        &["some_item", "name"],
    );
    match exec(&schema, &plan, &mut kv, &s).unwrap() {
        VmValue::Primitive(PrimitiveValue::String(x)) if x == "test_name" => {}
        _ => unreachable!(),
    };
}

fn set_schema() -> CompiledSchema {
    let mut item = SpecializedType::new("Item<>".into());
    item.add_field("id".into(), FieldType::Primitive(PrimitiveType::String), vec![FieldAnnotation::Primary]);
    item.add_field("name".into(), FieldType::Primitive(PrimitiveType::String), vec![]);
    let mut schema = CompiledSchema::new();
    schema.add_type(item);
    schema.add_export(
        "some_item".into(),
        FieldType::SetOf(Box::new(FieldType::Named("Item<>".into()))),
    );
    schema
}

fn read_name_script() -> TwScript {
    script(
        vec![graph(
            vec![
                (TwGraphNode::LoadParam(0), vec![], None),
                (TwGraphNode::LoadConst(0), vec![], None),
                (TwGraphNode::GetField(0), vec![0], None),
                (TwGraphNode::GetSetElement, vec![1, 2], None),
                (TwGraphNode::GetField(1), vec![3], None),
            ],
            Some(4),
        )],
        vec![text("test_id")],
        &["some_item", "name"],
    )
}

#[test]
fn set_queries() {
    let schema = set_schema();
    let plan = generate_plan_for_schema(&StoragePlan::new(), &CompiledSchema::new(), &schema).unwrap();
    let mut kv = Kv::new();
    let s = script(
        vec![graph(
            vec![
                (TwGraphNode::LoadParam(0), vec![], None),
                (TwGraphNode::LoadConst(0), vec![], None),
                (TwGraphNode::LoadConst(1), vec![], None),
                (TwGraphNode::CreateMap, vec![], None),
                (TwGraphNode::InsertIntoMap(1), vec![1, 3], None),
                (TwGraphNode::InsertIntoMap(2), vec![2, 4], None),
                (TwGraphNode::BuildTable(3), vec![5], None),
                (TwGraphNode::GetField(0), vec![0], None),
                (TwGraphNode::InsertIntoSet, vec![6, 7], None),
            ],
            None,
        )],
        vec![text("test_id"), text("test_name")],
        &["some_item", "id", "name", "Item<>"],
    );
    assert!(exec(&schema, &plan, &mut kv, &s).is_none());

    match exec(&schema, &plan, &mut kv, &read_name_script()).unwrap() {
        VmValue::Primitive(PrimitiveValue::String(x)) if x == "test_name" => {}
        _ => unreachable!(),
    };

    let s = script(
        vec![graph(
            vec![
                (TwGraphNode::LoadParam(0), vec![], None),
                (TwGraphNode::LoadConst(0), vec![], None),
                (TwGraphNode::GetField(0), vec![0], None),
                (TwGraphNode::DeleteFromSet, vec![1, 2], None),
            ],
            None,
        )],
        vec![text("test_id")],
        &["some_item", "name"],
    );
    assert!(exec(&schema, &plan, &mut kv, &s).is_none());

    match exec(&schema, &plan, &mut kv, &read_name_script()).unwrap() {
        VmValue::Null(_) => {}
        _ => unreachable!(),
    };
}

#[test]
fn simple_point_get_reads_null_then_value() {
    let mut item = SpecializedType::new("Item".into());
    item.add_field("a".into(), FieldType::Primitive(PrimitiveType::Int64), vec![]);
    item.add_field("b".into(), FieldType::Primitive(PrimitiveType::String), vec![]);
    let mut schema = CompiledSchema::new();
    schema.add_type(item);
    schema.add_export("item".into(), FieldType::Named("Item".into()));
    let plan = generate_plan_for_schema(&StoragePlan::new(), &CompiledSchema::new(), &schema).unwrap();
    let mut kv = Kv::new();
    let read = script(
        vec![graph(
            vec![
                (TwGraphNode::LoadParam(0), vec![], None),
                (TwGraphNode::GetField(0), vec![0], None),
                (TwGraphNode::GetField(1), vec![1], None),
            ],
            Some(2),
        )],
        vec![],
        &["item", "a"],
    );
    match exec(&schema, &plan, &mut kv, &read).unwrap() {
        VmValue::Null(VmType::Primitive(PrimitiveType::Int64)) => {}
        other => panic!("{:?}", other),
    }
    let write = script(
        vec![graph(
            vec![
                (TwGraphNode::LoadParam(0), vec![], None),
                (TwGraphNode::GetField(0), vec![0], None),
                (TwGraphNode::LoadConst(0), vec![], None),
                (TwGraphNode::InsertIntoTable(1), vec![2, 1], None),
            ],
            None,
        )],
        vec![VmConst::Primitive(PrimitiveValue::Int64(42))],
        &["item", "a"],
    );
    assert!(exec(&schema, &plan, &mut kv, &write).is_none());
    match exec(&schema, &plan, &mut kv, &read).unwrap() {
        VmValue::Primitive(PrimitiveValue::Int64(42)) => {}
        other => panic!("{:?}", other),
    }
}

#[test]
fn select_passes_the_branch_that_fires() {
    // node 1 is true, node 2 its negation; 3 runs under 1, 4 under 2; 5 selects.
    let s = script(
        vec![graph(
            vec![
                (TwGraphNode::LoadConst(0), vec![], None),
                (TwGraphNode::Nop, vec![0], None),
                (TwGraphNode::Not, vec![0], None),
                (TwGraphNode::LoadConst(1), vec![], Some(1)),
                (TwGraphNode::LoadConst(2), vec![], Some(2)),
                (TwGraphNode::Select, vec![3, 4], None),
            ],
            Some(5),
        )],
        vec![
            VmConst::Bool(true),
            VmConst::Primitive(PrimitiveValue::Int64(1)),
            VmConst::Primitive(PrimitiveValue::Int64(2)),
        ],
        &[],
    );
    let schema = set_schema();
    let plan = generate_plan_for_schema(&StoragePlan::new(), &CompiledSchema::new(), &schema).unwrap();
    let mut kv = Kv::new();
    match exec(&schema, &plan, &mut kv, &s).unwrap() {
        VmValue::Primitive(PrimitiveValue::Int64(1)) => {}
        other => panic!("{:?}", other),
    }
}

#[test]
fn both_select_candidates_fired() {
    let s = script(
        vec![graph(
            vec![
                (TwGraphNode::LoadConst(0), vec![], None),
                (TwGraphNode::LoadConst(0), vec![], None),
                (TwGraphNode::Select, vec![0, 1], None),
            ],
            Some(2),
        )],
        vec![VmConst::Primitive(PrimitiveValue::Int64(1))],
        &[],
    );
    let schema = set_schema();
    let plan = generate_plan_for_schema(&StoragePlan::new(), &CompiledSchema::new(), &schema).unwrap();
    let vm = TwVm::new(&schema, &plan, &s).unwrap();
    let types = no_types(&s);
    let mut kv = Kv::new();
    match run_graph(&vm, &types, &mut kv, 0, &vec![], 0) {
        Err(ExecError::BothSelectCandidatesFired) => {}
        other => panic!("{:?}", other),
    }
}

#[test]
fn reduce_list_sums_and_stops_at_null() {
    // graph 1: (param, acc, item) -> acc + item
    let add = TwGraph {
        name: "add".into(),
        exported: false,
        nodes: vec![
            (TwGraphNode::LoadParam(1), vec![], None),
            (TwGraphNode::LoadParam(2), vec![], None),
            (TwGraphNode::Add, vec![0, 1], None),
        ],
        output: Some(2),
        effects: vec![],
        param_types: vec![],
        output_type: Some(1),
    };
    let main = graph(
        vec![
            (TwGraphNode::CreateList(1), vec![], None),
            (TwGraphNode::LoadConst(0), vec![], None),
            (TwGraphNode::LoadConst(1), vec![], None),
            (TwGraphNode::PrependToList, vec![1, 0], None),
            (TwGraphNode::PrependToList, vec![2, 3], None),
            (TwGraphNode::LoadConst(2), vec![], None),
            (TwGraphNode::Reduce(1, false), vec![5, 5, 4], None),
        ],
        Some(6),
    );
    let s = script(
        vec![main, add],
        vec![
            VmConst::Primitive(PrimitiveValue::Int64(40)),
            VmConst::Primitive(PrimitiveValue::Int64(2)),
            VmConst::Primitive(PrimitiveValue::Int64(0)),
        ],
        &[],
    );
    let schema = set_schema();
    let plan = generate_plan_for_schema(&StoragePlan::new(), &CompiledSchema::new(), &schema).unwrap();
    let mut kv = Kv::new();
    match exec(&schema, &plan, &mut kv, &s).unwrap() {
        VmValue::Primitive(PrimitiveValue::Int64(42)) => {}
        other => panic!("{:?}", other),
    }
}

#[test]
fn recursion_depth_is_bounded() {
    assert!(matches!(enter_graph(0), Ok(1)));
    assert!(matches!(enter_graph(MAX_RECURSION_DEPTH - 1), Ok(128)));
    assert!(matches!(
        enter_graph(MAX_RECURSION_DEPTH),
        Err(ExecError::MaxRecursionDepthExceeded(128))
    ));
    // a graph that calls itself fails at the bound
    let s = script(
        vec![graph(vec![(TwGraphNode::Call(0), vec![], None)], Some(0))],
        vec![],
        &[],
    );
    let schema = set_schema();
    let plan = generate_plan_for_schema(&StoragePlan::new(), &CompiledSchema::new(), &schema).unwrap();
    let vm = TwVm::new(&schema, &plan, &s).unwrap();
    let types = no_types(&s);
    let mut kv = Kv::new();
    match run_graph(&vm, &types, &mut kv, 0, &vec![], 0) {
        Err(ExecError::MaxRecursionDepthExceeded(128)) => {}
        other => panic!("{:?}", other),
    }
}

fn attempts(conflicts: usize) -> Result<usize, ExecError> {
    for attempt in 0..MAX_COMMIT_ATTEMPTS {
        let outcome = if attempt < conflicts { CommitOutcome::Conflict } else { CommitOutcome::Committed };
        match after_commit(attempt, outcome, true) {
            AfterCommit::Finish => return Ok(attempt),
            AfterCommit::Propagate => unreachable!(),
            AfterCommit::Retry(delay) => {
                let ms = delay.unwrap();
                assert!(1 <= ms && ms < 20);
            }
            AfterCommit::GiveUp(delay) => {
                let ms = delay.unwrap();
                assert!(1 <= ms && ms < 20);
                return Err(ExecError::ConflictAfterRetries);
            }
        }
    }
    unreachable!()
}

#[test]
fn conflict_retry() {
    for n in 0..10 {
        assert_eq!(attempts(n).unwrap(), n);
    }
    assert!(matches!(attempts(10), Err(ExecError::ConflictAfterRetries)));
    assert_eq!(decide_after_commit(3, CommitOutcome::Conflict, None), AfterCommit::Retry(None));
    assert_eq!(decide_after_commit(9, CommitOutcome::Conflict, Some(7)), AfterCommit::GiveUp(Some(7)));
    assert_eq!(decide_after_commit(0, CommitOutcome::Failed, None), AfterCommit::Propagate);
    assert_eq!(after_commit(0, CommitOutcome::Conflict, false), AfterCommit::Retry(None));
}

#[test]
fn start_seeds_nodes_that_wait_for_nothing() {
    let g = graph(
        vec![
            (TwGraphNode::LoadParam(0), vec![], None),
            (TwGraphNode::GetField(0), vec![0], None),
            (TwGraphNode::CreateMap, vec![], None),
            (TwGraphNode::CreateMap, vec![], Some(0)),
        ],
        Some(1),
    );
    assert!(g.is_well_formed());
    let (run, first) = GraphRun::start(&g);
    assert_eq!(first, vec![0, 2]);
    assert_eq!(run.preconditions(), vec![true, true, true, false]);
    assert_eq!(run.widths(), vec![0, 1, 0, 0]);
    let bad = graph(vec![(TwGraphNode::Nop, vec![0], None)], None);
    assert!(!bad.is_well_formed());
}

#[test]
fn root_map_rejects_primitive_exports() {
    let mut schema = CompiledSchema::new();
    schema.add_export("n".into(), FieldType::Primitive(PrimitiveType::Int64));
    let plan = generate_plan_for_schema(&StoragePlan::new(), &CompiledSchema::new(), &schema).unwrap();
    assert!(matches!(generate_root_map(&schema, &plan), Err(ExecError::ExportTypeNotSupported)));
    let schema = set_schema();
    assert!(matches!(
        generate_root_map(&schema, &StoragePlan::new()),
        Err(ExecError::PathIntegrityFailure(name)) if name == "some_item"
    ));
    let _ = PathWalker::from_export(&plan, "n");
}
