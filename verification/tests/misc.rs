use rdb::decimal::decimal_string;
use rdb::query::{check_stack, QueryPlan, QueryStep};
use rdb::storage_plan::keygen::KeygenError;
use rdb::storage_plan::planner::PlannerError;
use rdb::treewalker::exec::ExecError;
use rdb::treewalker::vm_value::VmValueError;
use rdb::strmap::StrMap;
use rdb::sysquery::{
    append_zero, lookup_query_script, ns_to_kv_prefix_with_appended_zero, SerializedVmValue, SysQueryError,
};
use rdb::treewalker::assembler::TwAsmError;
use rdb::treewalker::bytecode::{TwGraph, TwGraphNode};
use rdb::treewalker::fire_rules::{generate_fire_rules, rules_for, FireRuleItem, FireRuleKind};
use rdb::value::PrimitiveValue;

fn plan(steps: Vec<QueryStep>) -> QueryPlan {
    QueryPlan { steps }
}

#[test]
fn stack_balance() {
    // a point get: push the point, extend it, read, hand out the result, drop it
    let get = || {
        vec![
            QueryStep::CurrentPoint,
            QueryStep::ExtendPoint("a".into()),
            QueryStep::Swap2,
            QueryStep::Pop,
            QueryStep::PointGet,
            QueryStep::PeekAndFulfillResult("r".into()),
            QueryStep::Pop,
        ]
    };
    assert!(check_stack(&plan(get()), 0));
    assert!(check_stack(&plan(vec![]), 0));
    assert!(check_stack(&plan(vec![]), 5));
    assert!(!check_stack(&plan(vec![QueryStep::Pop]), 0));
    assert!(check_stack(&plan(vec![QueryStep::Pop, QueryStep::CurrentPoint]), 1));
    assert!(!check_stack(&plan(vec![QueryStep::CurrentPoint]), 0));
    assert!(!check_stack(&plan(vec![QueryStep::CurrentPoint, QueryStep::LensPut]), 0));

    // a scan runs its subplan on a stack of one value
    let sub = |steps| Box::new(plan(steps));
    let scan = |inner: Vec<QueryStep>| {
        plan(vec![
            QueryStep::CurrentPoint,
            QueryStep::Const(PrimitiveValue::Int64(42)),
            QueryStep::RangeScanIndex { subplan: sub(inner) },
        ])
    };
    assert!(check_stack(&scan(vec![QueryStep::LensGet]), 0));
    assert!(!check_stack(&scan(vec![QueryStep::Pop]), 0));
    let nested = vec![
        QueryStep::Const(PrimitiveValue::Int64(21)),
        QueryStep::RangeScanKeys { subplan: sub(vec![QueryStep::PointGet]) },
        QueryStep::CurrentPoint,
    ];
    assert!(check_stack(&scan(nested), 0));
}

fn tree(fields: Vec<(&str, SerializedVmValue)>) -> SerializedVmValue {
    let mut m = StrMap::new();
    for (k, v) in fields {
        m.insert(k.to_string(), v);
    }
    SerializedVmValue::Tree(m)
}

fn text(s: &str) -> SerializedVmValue {
    SerializedVmValue::String(s.into())
}

#[test]
fn namespace_prefix() {
    assert_eq!(
        ns_to_kv_prefix_with_appended_zero(&text("aGVsbG8=")).unwrap(),
        vec![b'h', b'e', b'l', b'l', b'o', 0]
    );
    assert_eq!(ns_to_kv_prefix_with_appended_zero(&text("")).unwrap(), vec![0]);
    assert!(matches!(
        ns_to_kv_prefix_with_appended_zero(&SerializedVmValue::Null),
        Err(SysQueryError::NamespaceNotFound)
    ));
    assert!(matches!(
        ns_to_kv_prefix_with_appended_zero(&text("!!!")),
        Err(SysQueryError::InvalidPrefix)
    ));
    assert!(matches!(
        ns_to_kv_prefix_with_appended_zero(&SerializedVmValue::Int64(1)),
        Err(SysQueryError::UnexpectedResult)
    ));
    assert_eq!(append_zero(vec![1, 2]), vec![1, 2, 0]);
}

#[test]
fn query_script_lookup() {
    let full = tree(vec![
        ("id", text("q1")),
        ("create_time", text("1630000000")),
        ("associated_deployment", text("d1")),
        ("script", text("body")),
    ]);
    let q = lookup_query_script(&full).unwrap();
    assert_eq!(q.id, "q1");
    assert_eq!(q.create_time, 1630000000);
    assert_eq!(q.associated_deployment, "d1");
    assert_eq!(q.script, "body");
    assert!(matches!(
        lookup_query_script(&SerializedVmValue::Null),
        Err(SysQueryError::QueryScriptNotFound)
    ));
    assert!(matches!(lookup_query_script(&text("x")), Err(SysQueryError::UnexpectedResult)));
    let partial = tree(vec![("id", text("q1")), ("script", text("body"))]);
    assert!(matches!(lookup_query_script(&partial), Err(SysQueryError::UnexpectedResult)));
    let bad_time = tree(vec![
        ("id", text("7")),
        ("create_time", text("soon")),
        ("associated_deployment", text("d1")),
        ("script", text("body")),
    ]);
    assert!(matches!(lookup_query_script(&bad_time), Err(SysQueryError::InvalidCreateTime)));
}

#[test]
fn error_messages() {
    assert_eq!(PlannerError::MissingType("T".into()).message(), "missing type: T");
    assert!(!PlannerError::KeyUnavailable(KeygenError::ClockOutOfRange).message().is_empty());
    assert_eq!(VmValueError::TypeNotFound("T".into()).message(), "type `T` not found in schema");
    assert_eq!(
        VmValueError::FieldNotFound("f".into(), "T".into()).message(),
        "field `f` not found in type `T`"
    );
    assert_eq!(
        VmValueError::IncompatibleFieldAndValueType("a".into(), "b".into()).message(),
        "field type `a` cannot be converted from value type `b`"
    );
    assert_eq!(VmValueError::MissingField("f".into(), "T".into()).message(), "missing field `f` of type `T`");
    assert_eq!(VmValueError::MissingPrimaryKey.message(), "primary key not found in a set member type");
    assert_eq!(ExecError::NotImplemented("x".into()).message(), "not yet implemented: x");
    assert_eq!(ExecError::MaxRecursionDepthExceeded(128).message(), "max recursion depth exceeded: 128");
    assert_eq!(ExecError::MaxRecursionDepthExceeded(0).message(), "max recursion depth exceeded: 0");
    assert_eq!(decimal_string(0), "0");
    assert_eq!(decimal_string(9), "9");
    assert_eq!(decimal_string(10), "10");
    assert_eq!(decimal_string(1234567890), "1234567890");
    assert_eq!(decimal_string(u64::MAX), "18446744073709551615");
    assert_eq!(
        ExecError::PathIntegrityFailure("p".into()).message(),
        "path integrity check failed: missing path(s): p"
    );
    assert_eq!(ExecError::ScriptThrownError("m".into()).message(), "script thrown error: `m`");
    assert_eq!(ExecError::ScriptThrownNull.message(), "script thrown null");
    assert_eq!(ExecError::ConflictAfterRetries.message(), "conflict after retries");
    assert_eq!(SysQueryError::NamespaceNotFound.message(), "namespace not found");
    assert_eq!(SysQueryError::QueryScriptNotFound.message(), "query script not found");
}

#[test]
fn assembler_messages() {
    assert_eq!(TwAsmError::InvalidLiteral.message(), "invalid literal");
    assert_eq!(TwAsmError::NodeNotFound("n".into()).message(), "node not found: n");
    assert_eq!(TwAsmError::DuplicateParam("p".into()).message(), "duplicate param: p");
}

#[test]
fn fire_rules_list_the_waiting_nodes() {
    let g = TwGraph {
        name: "".into(),
        exported: false,
        nodes: vec![
            (TwGraphNode::LoadParam(0), vec![], None),
            (TwGraphNode::Nop, vec![0], None),
            (TwGraphNode::Eq, vec![0, 0], Some(1)),
            (TwGraphNode::Nop, vec![1], Some(0)),
        ],
        output: Some(2),
        effects: vec![],
        param_types: vec![],
        output_type: None,
    };
    assert!(g.is_well_formed());
    let table = generate_fire_rules(&g);
    assert_eq!(table.len(), 4);
    let item = |target_node, kind| FireRuleItem { target_node, kind };
    assert_eq!(
        rules_for(&table, 0),
        vec![
            item(1, FireRuleKind::ParamDep(0)),
            item(2, FireRuleKind::ParamDep(0)),
            item(2, FireRuleKind::ParamDep(1)),
            item(3, FireRuleKind::Precondition),
        ]
    );
    assert_eq!(
        rules_for(&table, 1),
        vec![item(2, FireRuleKind::Precondition), item(3, FireRuleKind::ParamDep(0))]
    );
    assert_eq!(rules_for(&table, 2), vec![]);
    assert!(TwGraphNode::GetField(0).is_optional_chained());
    assert!(!TwGraphNode::IsNull.is_optional_chained());
    assert!(TwGraphNode::Select.is_select());
}
