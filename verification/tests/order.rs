use rdb::treewalker::bytecode::{TwGraph, TwGraphNode};
use rdb::treewalker::fire_rules::generate_fire_rules;
use rdb::treewalker::schedule::{GraphRun, ReadyNode};
use rdb::treewalker::vm_value::VmValue;
use rdb::value::PrimitiveValue;

fn num(x: i64) -> Option<VmValue> {
    Some(VmValue::Primitive(PrimitiveValue::Int64(x)))
}

fn sample() -> TwGraph {
    TwGraph {
        name: "".into(),
        exported: false,
        nodes: vec![
            (TwGraphNode::LoadConst(0), vec![], None),
            (TwGraphNode::LoadConst(1), vec![], None),
            (TwGraphNode::Add, vec![0, 1], None),
            (TwGraphNode::Nop, vec![0], None),
            (TwGraphNode::Nop, vec![1], Some(0)),
            (TwGraphNode::Select, vec![3], None),
        ],
        output: Some(2),
        effects: vec![],
        param_types: vec![],
        output_type: None,
    }
}

fn finish(first: u32, second: u32) -> (String, Vec<String>) {
    let g = sample();
    let table = generate_fire_rules(&g);
    let (mut run, seeds) = GraphRun::start(&g);
    assert_eq!(seeds, vec![0, 1]);
    let result = |n: u32| if n == 0 { Some(VmValue::Bool(true)) } else { num(2) };
    let mut handed: Vec<ReadyNode> = run.complete(&g, &table, first, result(first)).unwrap();
    handed.extend(run.complete(&g, &table, second, result(second)).unwrap());
    let mut handed: Vec<String> = handed.iter().map(|r| format!("{:?}", r)).collect();
    handed.sort();
    (format!("{:?}", run), handed)
}

#[test]
fn the_order_of_finishing_does_not_matter() {
    let (state_a, handed_a) = finish(0, 1);
    let (state_b, handed_b) = finish(1, 0);
    assert_eq!(state_a, state_b);
    assert_eq!(handed_a, handed_b);
    // node 3 waits for node 0 only, node 2 and node 4 for both
    assert_eq!(handed_a.len(), 3);
}

#[test]
fn a_guard_that_says_no_keeps_its_node_from_running() {
    let g = sample();
    let table = generate_fire_rules(&g);
    let (mut run, _) = GraphRun::start(&g);
    let handed = run.complete(&g, &table, 0, Some(VmValue::Bool(false))).unwrap();
    assert_eq!(handed.len(), 1);
    assert!(matches!(&handed[0], ReadyNode::Run { node: 3, params } if params.len() == 1));
    let handed = run.complete(&g, &table, 1, num(2)).unwrap();
    assert_eq!(handed.len(), 1);
    assert!(matches!(&handed[0], ReadyNode::Run { node: 2, params } if params.len() == 2));
    assert!(!run.preconditions()[4]);
    assert!(!run.fired[4]);
    let handed = run.complete(&g, &table, 3, Some(VmValue::Bool(false))).unwrap();
    assert!(matches!(&handed[0], ReadyNode::Pass { node: 5, value: VmValue::Bool(false) }));
    assert!(run.output.is_none());
    run.complete(&g, &table, 2, num(3)).unwrap();
    assert!(matches!(run.output, Some(VmValue::Primitive(PrimitiveValue::Int64(3)))));
}

fn whole_run(order: &[u32]) -> (String, Vec<String>, String) {
    let g = sample();
    let table = generate_fire_rules(&g);
    let (mut run, _) = GraphRun::start(&g);
    let result = |n: u32| match n {
        0 | 3 | 5 => Some(VmValue::Bool(true)),
        2 => num(4),
        _ => num(2),
    };
    let mut handed: Vec<String> = Vec::new();
    for n in order {
        for ready in run.complete(&g, &table, *n, result(*n)).unwrap() {
            handed.push(format!("{:?}", ready));
        }
    }
    handed.sort();
    let output = format!("{:?}", run.output);
    (format!("{:?}", run), handed, output)
}

#[test]
fn whole_runs_end_alike_in_every_order() {
    let first = whole_run(&[0, 1, 2, 3, 4, 5]);
    assert_eq!(first.2, format!("{:?}", num(4)));
    // every node but the two seeds is handed out once
    assert_eq!(first.1.len(), 4);
    let orders: [[u32; 6]; 5] =
        [[5, 4, 3, 2, 1, 0], [1, 0, 3, 5, 2, 4], [3, 0, 5, 1, 4, 2], [0, 3, 5, 1, 4, 2], [2, 4, 0, 1, 5, 3]];
    for order in orders.iter() {
        let other = whole_run(order);
        assert_eq!(first.0, other.0);
        assert_eq!(first.1, other.1);
        assert_eq!(first.2, other.2);
    }
}
