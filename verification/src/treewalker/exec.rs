//! The decisions of the executor. The executor itself, which talks to the
//! store and awaits, runs outside this library: it performs what these
//! functions tell it to and hands back what came of it.

use vstd::prelude::*;
use rand::Rng;
use crate::bytes::{has_prefix, is_prefix};
use crate::pathwalker::{spec_enter_set_raw, spec_from_export, PathWalker};
use crate::schema::{CompiledSchema, FieldType};
use crate::storage_plan::StoragePlan;
use super::fire_rules::{generate_fire_rules, table_of, FireRuleTable};
use super::shared::{held_entries, ValueMap};
use super::schedule::{initial_run, run_shape, seeds, values_view, GraphRun};
use super::vm::TwVm;
use super::vm_value::{
    assoc_insert, vm_type_of_field, ValueView,
    VmMapValue, VmSetValue, VmSetValueKind, VmTableValue, VmTableValueKind, VmType, VmValue,
};

verus! {

/// The options of the executor.
#[derive(Debug)]
pub struct ExecConfig {
    /// How many nodes may be in flight at once. Advisory.
    pub concurrency: usize,
}

#[derive(Debug)]
pub enum ExecError {
    NotImplemented(String),
    NullUnwrapped,
    FreshTableOrSetNotSupported,
    ExportTypeNotSupported,
    MaxRecursionDepthExceeded(usize),
    BothSelectCandidatesFired,
    PathIntegrityFailure(String),
    ConflictAfterRetries,
    ScriptThrownError(String),
    ScriptThrownNull,
}

/// An error of the executor as a value.
pub enum ExecErrorView {
    NotImplemented(Seq<char>),
    NullUnwrapped,
    FreshTableOrSetNotSupported,
    ExportTypeNotSupported,
    MaxRecursionDepthExceeded(usize),
    BothSelectCandidatesFired,
    PathIntegrityFailure(Seq<char>),
    ConflictAfterRetries,
    ScriptThrownError(Seq<char>),
    ScriptThrownNull,
}

impl View for ExecError {
    type V = ExecErrorView;

    open spec fn view(&self) -> ExecErrorView {
        match self {
            ExecError::NotImplemented(what) => ExecErrorView::NotImplemented(what@),
            ExecError::NullUnwrapped => ExecErrorView::NullUnwrapped,
            ExecError::FreshTableOrSetNotSupported => ExecErrorView::FreshTableOrSetNotSupported,
            ExecError::ExportTypeNotSupported => ExecErrorView::ExportTypeNotSupported,
            ExecError::MaxRecursionDepthExceeded(depth) => ExecErrorView::MaxRecursionDepthExceeded(*depth),
            ExecError::BothSelectCandidatesFired => ExecErrorView::BothSelectCandidatesFired,
            ExecError::PathIntegrityFailure(paths) => ExecErrorView::PathIntegrityFailure(paths@),
            ExecError::ConflictAfterRetries => ExecErrorView::ConflictAfterRetries,
            ExecError::ScriptThrownError(message) => ExecErrorView::ScriptThrownError(message@),
            ExecError::ScriptThrownNull => ExecErrorView::ScriptThrownNull,
        }
    }
}

/// How deep graphs may call graphs.
pub const MAX_RECURSION_DEPTH: usize = 128;

/// How often a transaction is attempted before the executor gives up on
/// conflicts.
pub const MAX_COMMIT_ATTEMPTS: usize = 10;

/// The least delay before a transaction is attempted again, in milliseconds.
pub const MIN_RETRY_DELAY_MS: u64 = 1;

/// The bound that the delay before another attempt stays below, in
/// milliseconds.
pub const RETRY_DELAY_BOUND_MS: u64 = 20;

/// Enters a graph at the given depth of calls: gives the depth at which the
/// graph's own calls take place, or fails where the graph would lie too deep.
pub fn enter_graph(recursion_depth: usize) -> (inner: Result<usize, ExecError>)
    ensures
        recursion_depth < MAX_RECURSION_DEPTH ==> inner == Ok::<usize, ExecError>((recursion_depth + 1) as usize),
        recursion_depth >= MAX_RECURSION_DEPTH ==> (inner matches Err(
            ExecError::MaxRecursionDepthExceeded(depth),
        ) && depth == recursion_depth),
{
    if recursion_depth >= MAX_RECURSION_DEPTH {
        Err(ExecError::MaxRecursionDepthExceeded(recursion_depth))
    } else {
        Ok(recursion_depth + 1)
    }
}

/// How a commit ended.
#[derive(Clone, Copy, PartialEq, Eq, Structural, Debug)]
pub enum CommitOutcome {
    Committed,
    /// The store refused the commit because of a conflicting commit.
    Conflict,
    /// The store failed otherwise.
    Failed,
}

/// What the executor does after a commit.
#[derive(Clone, Copy, PartialEq, Eq, Structural, Debug)]
pub enum AfterCommit {
    /// Return the result of the graph.
    Finish,
    /// Return the store's error.
    Propagate,
    /// Sleep for the delay, if there is one, and run the graph again in a
    /// new transaction.
    Retry(Option<u64>),
    /// Sleep for the delay, if there is one, and fail with
    /// `ConflictAfterRetries`.
    GiveUp(Option<u64>),
}

/// What the executor does after the commit of the attempt `attempt`, counted
/// from 0, has ended in `outcome`, where `delay` is the delay to sleep for
/// after a conflict.
pub open spec fn spec_after_commit(attempt: usize, outcome: CommitOutcome, delay: Option<u64>) -> AfterCommit {
    match outcome {
        CommitOutcome::Committed => AfterCommit::Finish,
        CommitOutcome::Failed => AfterCommit::Propagate,
        CommitOutcome::Conflict => if attempt + 1 < MAX_COMMIT_ATTEMPTS {
            AfterCommit::Retry(delay)
        } else {
            AfterCommit::GiveUp(delay)
        },
    }
}

/// `rand::thread_rng` and `Rng::gen_range` on a half-open range: a number of
/// the range, whichever the generator gives.
#[verifier::external_body]
fn random_in_range(low: u64, high: u64) -> (n: u64)
    requires
        low < high,
    ensures
        low <= n < high,
{
    rand::thread_rng().gen_range(low..high)
}

/// What the executor does after a commit, given the delay to sleep for after
/// a conflict.
pub fn decide_after_commit(attempt: usize, outcome: CommitOutcome, delay: Option<u64>) -> (next: AfterCommit)
    ensures
        next == spec_after_commit(attempt, outcome, delay),
{
    match outcome {
        CommitOutcome::Committed => AfterCommit::Finish,
        CommitOutcome::Failed => AfterCommit::Propagate,
        CommitOutcome::Conflict => if attempt < MAX_COMMIT_ATTEMPTS - 1 {
            AfterCommit::Retry(delay)
        } else {
            AfterCommit::GiveUp(delay)
        },
    }
}

/// What the executor does after a commit. After a conflict it sleeps, where
/// it can sleep, for a random delay of at least `MIN_RETRY_DELAY_MS` and less
/// than `RETRY_DELAY_BOUND_MS` milliseconds.
pub fn after_commit(attempt: usize, outcome: CommitOutcome, can_sleep: bool) -> (next: AfterCommit)
    ensures
        exists|delay: Option<u64>|
            next == spec_after_commit(attempt, outcome, delay) && (outcome == CommitOutcome::Conflict ==> (
            delay is Some == can_sleep) && (delay matches Some(ms) ==> MIN_RETRY_DELAY_MS <= ms
                < RETRY_DELAY_BOUND_MS)),
{
    let delay = if can_sleep && outcome == CommitOutcome::Conflict {
        Some(random_in_range(MIN_RETRY_DELAY_MS, RETRY_DELAY_BOUND_MS))
    } else {
        None
    };
    decide_after_commit(attempt, outcome, delay)
}

/// How a run of attempts ends.
#[derive(Clone, Copy, PartialEq, Eq, Structural, Debug)]
pub enum RunEnd {
    /// The attempt at this position committed; the result is that attempt's.
    Finished(usize),
    /// The store's error at this attempt is returned.
    Propagated(usize),
    /// `ConflictAfterRetries`.
    GaveUp,
    /// The outcomes end before the run does.
    Unfinished,
}

/// How the run ends whose commits, from the attempt `attempt` on, end in
/// `outcomes`.
pub open spec fn run_end(outcomes: Seq<CommitOutcome>, attempt: usize) -> RunEnd
    decreases outcomes.len() - attempt,
{
    if attempt < outcomes.len() {
        match spec_after_commit(attempt, outcomes[attempt as int], None) {
            AfterCommit::Finish => RunEnd::Finished(attempt),
            AfterCommit::Propagate => RunEnd::Propagated(attempt),
            AfterCommit::Retry(_) => run_end(outcomes, (attempt + 1) as usize),
            AfterCommit::GiveUp(_) => RunEnd::GaveUp,
        }
    } else {
        RunEnd::Unfinished
    }
}

/// A run whose first `n` commits conflict and whose next commit succeeds
/// returns the result of that attempt, if `n` is below the limit; a run whose
/// commits conflict as often as the limit allows fails with
/// `ConflictAfterRetries`.
pub proof fn lemma_conflicts_then_commit(outcomes: Seq<CommitOutcome>, n: usize)
    requires
        n <= outcomes.len(),
        forall|i: int| 0 <= i < n ==> outcomes[i] == CommitOutcome::Conflict,
    ensures
        n < MAX_COMMIT_ATTEMPTS && n < outcomes.len() && outcomes[n as int] == CommitOutcome::Committed
            ==> run_end(outcomes, 0) == RunEnd::Finished(n),
        n >= MAX_COMMIT_ATTEMPTS ==> run_end(outcomes, 0) == RunEnd::GaveUp,
{
    lemma_run_after_conflicts(outcomes, n, 0);
}

proof fn lemma_run_after_conflicts(outcomes: Seq<CommitOutcome>, n: usize, from: usize)
    requires
        from <= n <= outcomes.len(),
        from <= MAX_COMMIT_ATTEMPTS,
        forall|i: int| 0 <= i < n ==> outcomes[i] == CommitOutcome::Conflict,
    ensures
        n < MAX_COMMIT_ATTEMPTS && n < outcomes.len() && outcomes[n as int] == CommitOutcome::Committed
            ==> run_end(outcomes, from) == RunEnd::Finished(n),
        n >= MAX_COMMIT_ATTEMPTS && from < MAX_COMMIT_ATTEMPTS ==> run_end(outcomes, from) == RunEnd::GaveUp,
    decreases n - from,
{
    if from < n && from + 1 < MAX_COMMIT_ATTEMPTS {
        lemma_run_after_conflicts(outcomes, n, (from + 1) as usize);
    }
}

/// The types that the type check has found: for every graph, the type of
/// every node's result, where the node has one.
#[derive(Debug)]
pub struct GlobalTypeInfo {
    pub graphs: Vec<GraphTypeInfo>,
}

#[derive(Debug)]
pub struct GraphTypeInfo {
    pub nodes: Vec<Option<VmType>>,
}

/// What the executor keeps for a script: the script bound to its schema and
/// plan, the types of its nodes, and the fire rules of its graphs.
pub struct Executor<'a, 'b> {
    pub vm: &'b TwVm<'a>,
    pub type_info: &'b GlobalTypeInfo,
    pub fire_rule_tables: Vec<FireRuleTable>,
}

impl<'a, 'b> Executor<'a, 'b> {
    /// The executor holds the fire rules of every graph of the script.
    pub open spec fn ready(self) -> bool {
        &&& self.fire_rule_tables@.len() == self.vm.script.graphs@.len()
        &&& forall|g: int|
            0 <= g < self.vm.script.graphs@.len() ==> self.vm.script.graphs@[g].wf() && table_of(
                self.vm.script.graphs@[g],
                (#[trigger] self.fire_rule_tables@[g])@,
            )
    }

    /// Whether every graph of the script is well-formed.
    pub fn graphs_well_formed(vm: &TwVm) -> (yes: bool)
        ensures
            yes == (forall|g: int| 0 <= g < vm.script.graphs@.len() ==> (#[trigger] vm.script.graphs@[g]).wf()),
    {
        let mut g: usize = 0;
        while g < vm.script.graphs.len()
            invariant
                g <= vm.script.graphs@.len(),
                forall|i: int| 0 <= i < g ==> (#[trigger] vm.script.graphs@[i]).wf(),
            decreases vm.script.graphs.len() - g,
        {
            if !vm.script.graphs[g].is_well_formed() {
                return false;
            }
            g += 1;
        }
        true
    }

    pub fn new(vm: &'b TwVm<'a>, type_info: &'b GlobalTypeInfo) -> (executor: Self)
        requires
            forall|g: int| 0 <= g < vm.script.graphs@.len() ==> (#[trigger] vm.script.graphs@[g]).wf(),
        ensures
            executor.vm == vm,
            executor.type_info == type_info,
            executor.ready(),
    {
        let mut fire_rule_tables: Vec<FireRuleTable> = Vec::new();
        let mut g: usize = 0;
        while g < vm.script.graphs.len()
            invariant
                g <= vm.script.graphs@.len(),
                fire_rule_tables@.len() == g,
                forall|i: int| 0 <= i < vm.script.graphs@.len() ==> (#[trigger] vm.script.graphs@[i]).wf(),
                forall|i: int|
                    0 <= i < g ==> table_of(vm.script.graphs@[i], (#[trigger] fire_rule_tables@[i])@),
            decreases vm.script.graphs.len() - g,
        {
            assert(vm.script.graphs@[g as int].wf());
            fire_rule_tables.push(generate_fire_rules(&vm.script.graphs[g]));
            g += 1;
        }
        Executor { vm, type_info, fire_rule_tables }
    }

    /// Begins a run of the graph at `graph_index`, called at the given depth:
    /// the state of the run, the nodes to run first, and the depth at which
    /// the graph's own calls take place. Fails where the graph would lie too
    /// deep.
    pub fn begin_graph(&self, graph_index: usize, recursion_depth: usize) -> (begun: Result<
        (GraphRun, Vec<u32>, usize),
        ExecError,
    >)
        requires
            self.ready(),
            graph_index < self.vm.script.graphs@.len(),
        ensures
            recursion_depth >= MAX_RECURSION_DEPTH ==> (begun matches Err(
                ExecError::MaxRecursionDepthExceeded(depth),
            ) && depth == recursion_depth),
            recursion_depth < MAX_RECURSION_DEPTH ==> (begun matches Ok((run, first, inner)) && run@
                == initial_run(self.vm.script.graphs@[graph_index as int]) && run_shape(
                self.vm.script.graphs@[graph_index as int],
                run@,
            ) && first@ == seeds(
                self.vm.script.graphs@[graph_index as int],
                self.vm.script.graphs@[graph_index as int].nodes@.len() as int,
            ) && inner == recursion_depth + 1),
    {
        let inner = match enter_graph(recursion_depth) {
            Ok(inner) => inner,
            Err(e) => {
                return Err(e);
            },
        };
        assert(table_of(
            self.vm.script.graphs@[graph_index as int],
            self.fire_rule_tables@[graph_index as int]@,
        ));
        let (run, first) = GraphRun::start(&self.vm.script.graphs[graph_index]);
        Ok((run, first, inner))
    }

    /// The type of the result of a node, where the type check has found one.
    pub fn node_type(&self, graph_index: usize, node: usize) -> (ty: Option<&'b VmType>)
        ensures
            ty == (if graph_index < self.type_info.graphs@.len() && node
                < self.type_info.graphs@[graph_index as int].nodes@.len() {
                match &self.type_info.graphs@[graph_index as int].nodes@[node as int] {
                    Some(t) => Some(t),
                    None => None,
                }
            } else {
                None
            }),
    {
        if graph_index < self.type_info.graphs.len() && node < self.type_info.graphs[graph_index].nodes.len() {
            match &self.type_info.graphs[graph_index].nodes[node] {
                Some(t) => Some(t),
                None => None,
            }
        } else {
            None
        }
    }
}

/// The parameters with which a reduction calls its graph: the parameter that
/// stays, what has been reduced so far, and the next item.
pub fn reduce_params(param: &VmValue, so_far: &VmValue, item: VmValue) -> (params: Vec<VmValue>)
    ensures
        values_view(params@) == seq![param@, so_far@, item@],
{
    let mut params: Vec<VmValue> = Vec::new();
    params.push(param.duplicate());
    params.push(so_far.duplicate());
    params.push(item);
    assert(values_view(params@) =~= seq![param@, so_far@, item@]);
    params
}

/// How a reduction goes on after its graph has answered.
#[derive(Debug)]
pub enum ReduceNext {
    /// Go on with the next item; this is what has been reduced so far.
    Continue(VmValue),
    /// The reduction is over; this is its result.
    Stop(VmValue),
}

/// How a reduction goes on after its graph has answered `output` for an
/// item: a null ends the reduction with what had been reduced before the
/// item; any other answer is what has been reduced so far.
pub fn reduce_feed(so_far: VmValue, output: VmValue) -> (next: ReduceNext)
    ensures
        output@ is Null ==> (next matches ReduceNext::Stop(v) && v@ == so_far@),
        !(output@ is Null) ==> (next matches ReduceNext::Continue(v) && v@ == output@),
{
    if output.is_null() {
        ReduceNext::Stop(so_far)
    } else {
        ReduceNext::Continue(output)
    }
}

/// The member of a set in the store that the scan index lists under `key`:
/// the table at the member's position, the member's primary key being `key`
/// without the index's prefix. Nothing where `key` does not start with the
/// prefix or the walker stands on no set.
pub fn reduce_member(plan: &StoragePlan, walker: &PathWalker, member_ty: &String, prefix: &Vec<u8>, key: &Vec<u8>) -> (member: Option<
    VmValue,
>)
    ensures
        match member {
            Some(v) => is_prefix(prefix@, key@) && (spec_enter_set_raw(
                *plan,
                walker@,
                key@.subrange(prefix@.len() as int, key@.len() as int),
            ) matches Some(at) && v@ == (ValueView::ResidentTable { ty: member_ty@, walker: at })),
            None => !is_prefix(prefix@, key@) || spec_enter_set_raw(
                *plan,
                walker@,
                key@.subrange(prefix@.len() as int, key@.len() as int),
            ) is None,
        },
{
    if !has_prefix(key.as_slice(), prefix.as_slice()) {
        return None;
    }
    let mut primary_key: Vec<u8> = Vec::new();
    let mut i: usize = prefix.len();
    while i < key.len()
        invariant
            prefix@.len() <= i <= key@.len(),
            primary_key@ == key@.subrange(prefix@.len() as int, i as int),
        decreases key.len() - i,
    {
        primary_key.push(key[i]);
        assert(primary_key@ =~= key@.subrange(prefix@.len() as int, i + 1));
        i += 1;
    }
    match walker.enter_set_raw(plan, primary_key.as_slice()) {
        Some(at) => Some(VmValue::Table(VmTableValue { ty: member_ty.clone(), kind: VmTableValueKind::Resident(at) })),
        None => None,
    }
}

/// The entries of the root map after the first `upto` exports: each export,
/// which must be a record or a set, as the table or set in the store at the
/// export's position. An export of another type is not supported; an export
/// that the plan does not hold fails the integrity of the path.
pub open spec fn root_entries(schema: CompiledSchema, plan: StoragePlan, upto: int) -> Result<
    Seq<(Seq<char>, ValueView)>,
    ExecErrorView,
>
    decreases upto,
{
    if 0 < upto <= schema.exports.entries@.len() {
        match root_entries(schema, plan, upto - 1) {
            Err(e) => Err(e),
            Ok(entries) => {
                let export = schema.exports.entries@[upto - 1];
                match export.value {
                    FieldType::Named(name) => match spec_from_export(plan, export.key@) {
                        Some(walker) => Ok(
                            assoc_insert(entries, export.key@, ValueView::ResidentTable { ty: name@, walker }),
                        ),
                        None => Err(ExecErrorView::PathIntegrityFailure(export.key@)),
                    },
                    FieldType::SetOf(member) => match spec_from_export(plan, export.key@) {
                        Some(walker) => Ok(
                            assoc_insert(
                                entries,
                                export.key@,
                                ValueView::ResidentSet { member_ty: vm_type_of_field(member@), walker },
                            ),
                        ),
                        None => Err(ExecErrorView::PathIntegrityFailure(export.key@)),
                    },
                    _ => Err(ExecErrorView::ExportTypeNotSupported),
                }
            },
        }
    } else {
        Ok(seq![])
    }
}

proof fn lemma_root_entries_err(schema: CompiledSchema, plan: StoragePlan, upto: int, len: int)
    requires
        0 <= upto <= len <= schema.exports.entries@.len(),
        root_entries(schema, plan, upto) is Err,
    ensures
        root_entries(schema, plan, len) == root_entries(schema, plan, upto),
    decreases len - upto,
{
    if upto < len {
        lemma_root_entries_err(schema, plan, upto, len - 1);
    }
}

/// The map that a graph gets as the schema's root: every export by name.
pub fn generate_root_map(schema: &CompiledSchema, plan: &StoragePlan) -> (root: Result<VmValue, ExecError>)
    ensures
        root_entries(*schema, *plan, schema.exports.entries@.len() as int) matches Ok(entries) ==> (
        root matches Ok(v) && v@ == ValueView::MapOf(entries)),
        root_entries(*schema, *plan, schema.exports.entries@.len() as int) matches Err(e) ==> (
        root matches Err(x) && x@ == e),
{
    let mut m = ValueMap::new();
    let mut i: usize = 0;
    while i < schema.exports.entries.len()
        invariant
            i <= schema.exports.entries@.len(),
            root_entries(*schema, *plan, i as int) == Ok::<Seq<(Seq<char>, ValueView)>, ExecErrorView>(
                held_entries(m),
            ),
        decreases schema.exports.entries.len() - i,
    {
        let export = &schema.exports.entries[i];
        proof {
            if root_entries(*schema, *plan, i + 1) is Err {
                lemma_root_entries_err(*schema, *plan, i + 1, schema.exports.entries@.len() as int);
            }
        }
        match &export.value {
            FieldType::Named(name) => match PathWalker::from_export(plan, export.key.as_str()) {
                Some(walker) => {
                    m = m.with(
                        export.key.clone(),
                        VmValue::Table(VmTableValue { ty: name.clone(), kind: VmTableValueKind::Resident(walker) }),
                    );
                },
                None => {
                    return Err(ExecError::PathIntegrityFailure(export.key.clone()));
                },
            },
            FieldType::SetOf(member) => match PathWalker::from_export(plan, export.key.as_str()) {
                Some(walker) => {
                    m = m.with(
                        export.key.clone(),
                        VmValue::SetOf(
                            VmSetValue {
                                member_ty: VmType::from_field_type(member),
                                kind: VmSetValueKind::Resident(walker),
                            },
                        ),
                    );
                },
                None => {
                    return Err(ExecError::PathIntegrityFailure(export.key.clone()));
                },
            },
            _ => {
                return Err(ExecError::ExportTypeNotSupported);
            },
        }
        i += 1;
    }
    Ok(VmValue::MapOf(VmMapValue { elements: m }))
}

impl ExecError {
    /// The error as a message.
    pub open spec fn spec_message(self) -> Seq<char> {
        match self {
            ExecError::NotImplemented(what) => "not yet implemented: "@ + what@,
            ExecError::NullUnwrapped => "null value unwrappped"@,
            ExecError::FreshTableOrSetNotSupported => "operation is not supported on fresh tables or sets"@,
            ExecError::ExportTypeNotSupported => "export type not supported"@,
            ExecError::MaxRecursionDepthExceeded(depth) => "max recursion depth exceeded: "@
                + crate::decimal::decimal_text(depth as nat),
            ExecError::BothSelectCandidatesFired => "both select candidates are fired - this is not deterministic and not allowed"@,
            ExecError::PathIntegrityFailure(paths) => "path integrity check failed: missing path(s): "@ + paths@,
            ExecError::ConflictAfterRetries => "conflict after retries"@,
            ExecError::ScriptThrownError(message) => "script thrown error: `"@ + message@ + "`"@,
            ExecError::ScriptThrownNull => "script thrown null"@,
        }
    }

    /// The error as a message.
    pub fn message(&self) -> (text: String)
        ensures
            text@ == self.spec_message(),
    {
        match self {
            ExecError::NotImplemented(what) => "not yet implemented: ".to_string().concat(what.as_str()),
            ExecError::NullUnwrapped => "null value unwrappped".to_string(),
            ExecError::FreshTableOrSetNotSupported => "operation is not supported on fresh tables or sets".to_string(),
            ExecError::ExportTypeNotSupported => "export type not supported".to_string(),
            ExecError::MaxRecursionDepthExceeded(depth) => "max recursion depth exceeded: ".to_string().concat(
                crate::decimal::decimal_string(*depth as u64).as_str(),
            ),
            ExecError::BothSelectCandidatesFired => "both select candidates are fired - this is not deterministic and not allowed".to_string(),
            ExecError::PathIntegrityFailure(paths) => "path integrity check failed: missing path(s): ".to_string().concat(
                paths.as_str(),
            ),
            ExecError::ConflictAfterRetries => "conflict after retries".to_string(),
            ExecError::ScriptThrownError(message) => "script thrown error: `".to_string().concat(
                message.as_str(),
            ).concat("`"),
            ExecError::ScriptThrownNull => "script thrown null".to_string(),
        }
    }
}

} // verus!
