//! The workflow coordinator: lifecycle, execution and the registry.
//!
//! Submitting a workflow validates its step set, computes a topological
//! order, runs every step through its operation handler — one step's
//! failure never stops the rest — and records the outcome under a fresh
//! workflow id in the registry, where it can later be looked up or
//! cancelled.

use vstd::prelude::*;
use vstd::string::StringExecFns;

use crate::graph::is_topo_order;
use crate::graph::order_ints;
use crate::graph::topological_order;
use crate::graph::valid_steps;
use crate::graph::validate;
use crate::graph::validation_error;
use crate::ops::apply_op_spec;
use crate::ops::apply_operation;
use crate::ops::builtin_operation_names;
use crate::ops::builtin_ops;
use crate::step::graph_error_message;
use crate::step::steps_view;
use crate::step::GraphError;
use crate::step::StepView;
use crate::step::WorkflowStep;
use crate::strmap::StrMap;
use crate::value::str_eq;
use crate::value::Val;
use crate::value::Value;

verus! {

/// A workflow's place in its lifecycle. `Pending` precedes validation;
/// `Running` follows a successful validation; `Completed` and `Failed`
/// are terminal by outcome; `Cancelled` is terminal by request.
#[derive(Debug, Clone, Copy, PartialEq, Eq, Structural)]
pub enum WorkflowStatus {
    Pending,
    Running,
    Completed,
    Failed,
    Cancelled,
}

impl WorkflowStatus {
    /// No transition leaves this status.
    pub open spec fn terminal(self) -> bool {
        self == WorkflowStatus::Completed || self == WorkflowStatus::Failed || self
            == WorkflowStatus::Cancelled
    }

    /// Whether this status is terminal.
    pub fn is_terminal(&self) -> (r: bool)
        ensures
            r == self.terminal(),
    {
        match self {
            WorkflowStatus::Completed => true,
            WorkflowStatus::Failed => true,
            WorkflowStatus::Cancelled => true,
            _ => false,
        }
    }
}

/// Ghost model of a workflow execution record.
pub struct ExecutionView {
    pub id: Seq<char>,
    pub name: Seq<char>,
    pub steps: Seq<StepView>,
    pub status: WorkflowStatus,
    pub current_step: Option<Seq<char>>,
    pub results: Map<Seq<char>, Val>,
    pub errors: Map<Seq<char>, Seq<char>>,
    pub start_time: u64,
    pub end_time: Option<u64>,
    pub total_duration_ms: Option<u64>,
}

/// One workflow's execution record: the submitted steps, its lifecycle
/// status, per-step results and errors, and timing.
#[derive(Debug, PartialEq)]
pub struct WorkflowExecution {
    pub id: String,
    pub name: String,
    pub steps: Vec<WorkflowStep>,
    pub status: WorkflowStatus,
    pub current_step: Option<String>,
    pub results: StrMap<Value>,
    pub errors: StrMap<String>,
    pub start_time: u64,
    pub end_time: Option<u64>,
    pub total_duration_ms: Option<u64>,
}

impl View for WorkflowExecution {
    type V = ExecutionView;

    open spec fn view(&self) -> ExecutionView {
        ExecutionView {
            id: self.id@,
            name: self.name@,
            steps: steps_view(self.steps@),
            status: self.status,
            current_step: match self.current_step {
                Some(s) => Some(s@),
                None => None,
            },
            results: self.results@,
            errors: self.errors@,
            start_time: self.start_time,
            end_time: self.end_time,
            total_duration_ms: self.total_duration_ms,
        }
    }
}

impl WorkflowExecution {
    /// The record's result and error maps hold each key at most once.
    pub open spec fn wf(&self) -> bool {
        self.results.wf() && self.errors.wf()
    }
}

impl Clone for WorkflowExecution {
    /// Cloning preserves the record's model and well-formedness.
    fn clone(&self) -> (res: Self)
        ensures
            res@ == self@,
            self.wf() ==> res.wf(),
    {
        let mut steps: Vec<WorkflowStep> = Vec::new();
        let mut i: usize = 0;
        while i < self.steps.len()
            invariant
                0 <= i <= self.steps@.len(),
                steps@.len() == i,
                forall|j: int| 0 <= j < i ==> steps@[j]@ == (#[trigger] self.steps@[j])@,
            decreases self.steps@.len() - i,
        {
            steps.push(self.steps[i].clone());
            i += 1;
        }
        let current_step = match &self.current_step {
            Some(s) => Some(s.clone()),
            None => None,
        };
        let res = WorkflowExecution {
            id: self.id.clone(),
            name: self.name.clone(),
            steps,
            status: self.status,
            current_step,
            results: self.results.clone(),
            errors: self.errors.clone(),
            start_time: self.start_time,
            end_time: self.end_time,
            total_duration_ms: self.total_duration_ms,
        };
        proof {
            assert(steps_view(res.steps@) =~= steps_view(self.steps@));
        }
        res
    }
}

/// A workflow's final outcome: status, the full result and error maps,
/// timing, and step counts.
#[derive(Debug, PartialEq)]
pub struct WorkflowResult {
    pub workflow_id: String,
    pub status: WorkflowStatus,
    pub results: StrMap<Value>,
    pub errors: StrMap<String>,
    pub execution_time_ms: u64,
    pub step_count: usize,
    pub successful_steps: usize,
    pub failed_steps: usize,
}

/// The outputs of the dependencies that have one, in dependency
/// declaration order; a failed dependency's missing output is omitted.
pub open spec fn dep_inputs(deps: Seq<Seq<char>>, results: Map<Seq<char>, Val>) -> Seq<
    Val,
>
    decreases deps.len(),
{
    if deps.len() == 0 {
        Seq::empty()
    } else {
        let rest = dep_inputs(deps.drop_last(), results);
        if results.contains_key(deps.last()) {
            rest.push(results[deps.last()])
        } else {
            rest
        }
    }
}

/// A step's resolved input: its own payload when it has no dependencies,
/// else the list of its dependencies' available outputs.
pub open spec fn step_input(step: StepView, results: Map<Seq<char>, Val>) -> Val {
    if step.dependencies.len() == 0 {
        step.data
    } else {
        Val::List(dep_inputs(step.dependencies, results))
    }
}

/// A step failure's message: the handler's error wrapped with the step
/// id and operation name.
pub open spec fn wrap_err(id: Seq<char>, op: Seq<char>, inner: Seq<char>) -> Seq<char> {
    "Step '"@ + id + "' ("@ + op + ") failed: "@ + inner
}

/// What attempting one step yields, given the results recorded so far.
pub open spec fn step_outcome(step: StepView, results: Map<Seq<char>, Val>) -> Result<
    Val,
    Seq<char>,
> {
    match apply_op_spec(step.operation, step_input(step, results), step.parameters) {
        Ok(v) => Ok(v),
        Err(m) => Err(wrap_err(step.id, step.operation, m)),
    }
}

/// The result and error maps after running the steps at the listed
/// positions in that order, each outcome keyed by step id.
pub open spec fn run_fold(steps: Seq<StepView>, order: Seq<int>) -> (
    Map<Seq<char>, Val>,
    Map<Seq<char>, Seq<char>>,
)
    decreases order.len(),
{
    if order.len() == 0 {
        (Map::empty(), Map::empty())
    } else {
        let prior = run_fold(steps, order.drop_last());
        let k = order.last();
        if 0 <= k < steps.len() {
            let step = steps[k];
            match step_outcome(step, prior.0) {
                Ok(v) => (prior.0.insert(step.id, v), prior.1),
                Err(m) => (prior.0, prior.1.insert(step.id, m)),
            }
        } else {
            prior
        }
    }
}

/// The first registry record carrying the given workflow id.
pub open spec fn lookup_record(regs: Seq<ExecutionView>, id: Seq<char>) -> Option<
    ExecutionView,
>
    decreases regs.len(),
{
    if regs.len() == 0 {
        None
    } else if regs[0].id == id {
        Some(regs[0])
    } else {
        lookup_record(regs.drop_first(), id)
    }
}

/// A match at the first position carrying the id settles the lookup.
proof fn lemma_lookup_record_found(regs: Seq<ExecutionView>, id: Seq<char>, i: int)
    requires
        0 <= i < regs.len(),
        regs[i].id == id,
        forall|j: int| 0 <= j < i ==> regs[j].id != id,
    ensures
        lookup_record(regs, id) == Some(regs[i]),
    decreases i,
{
    if i > 0 {
        lemma_lookup_record_found(regs.drop_first(), id, i - 1);
    }
}

/// With no record carrying the id, the lookup comes back empty.
proof fn lemma_lookup_record_missing(regs: Seq<ExecutionView>, id: Seq<char>)
    requires
        forall|j: int| 0 <= j < regs.len() ==> regs[j].id != id,
    ensures
        lookup_record(regs, id) is None,
    decreases regs.len(),
{
    if regs.len() > 0 {
        lemma_lookup_record_missing(regs.drop_first(), id);
    }
}

/// Relies on chrono's `Utc::now` and `DateTime::timestamp_millis`: the
/// system clock's milliseconds since the Unix epoch. Nothing is promised
/// of the value.
#[verifier::external_body]
fn now_timestamp_millis() -> i64 {
    chrono::Utc::now().timestamp_millis()
}

/// The clock reading clamped below at the epoch.
fn now_millis() -> (r: u64) {
    let t = now_timestamp_millis();
    if t < 0 {
        0
    } else {
        t as u64
    }
}

/// Relies on uuid's `Uuid::new_v4` and its `Display` impl: a random
/// version-4 UUID rendered in hyphenated form, which is 36 characters.
#[verifier::external_body]
fn fresh_workflow_id() -> (r: String)
    ensures
        r@.len() == 36,
{
    uuid::Uuid::new_v4().to_string()
}

/// A step failure message wrapping the handler's error.
fn wrap_error(id: &str, op: &str, inner: &str) -> (r: String)
    ensures
        r@ == wrap_err(id@, op@, inner@),
{
    let mut m = "Step '".to_owned();
    m.append(id);
    m.append("' (");
    m.append(op);
    m.append(") failed: ");
    m.append(inner);
    m
}

/// A step's resolved input value.
fn resolve_input(step: &WorkflowStep, results: &StrMap<Value>) -> (r: Value)
    requires
        results.wf(),
    ensures
        r@ == step_input(step@, results@),
{
    if step.dependencies.len() == 0 {
        step.data.deep_copy()
    } else {
        let ghost gdeps = step@.dependencies;
        let mut combined: Vec<Value> = Vec::new();
        let mut d: usize = 0;
        while d < step.dependencies.len()
            invariant
                results.wf(),
                gdeps == step@.dependencies,
                gdeps.len() == step.dependencies@.len(),
                forall|k: int|
                    0 <= k < gdeps.len() ==> gdeps[k] == (#[trigger] step.dependencies@[k])@,
                0 <= d <= gdeps.len(),
                crate::value::vals_of(combined@) == dep_inputs(
                    gdeps.take(d as int),
                    results@,
                ),
            decreases gdeps.len() - d,
        {
            let ghost old_combined = combined@;
            match results.get(step.dependencies[d].as_str()) {
                Some(v) => {
                    combined.push(v.deep_copy());
                    proof {
                        assert(combined@.drop_last() =~= old_combined);
                    }
                },
                None => {},
            }
            proof {
                assert(gdeps.take(d + 1).drop_last() =~= gdeps.take(d as int));
                assert(gdeps.take(d + 1).last() == gdeps[d as int]);
            }
            d += 1;
        }
        proof {
            assert(gdeps.take(gdeps.len() as int) =~= gdeps);
        }
        Value::List(combined)
    }
}


/// A faithful copy of a step list.
fn clone_steps(steps: &Vec<WorkflowStep>) -> (r: Vec<WorkflowStep>)
    ensures
        steps_view(r@) == steps_view(steps@),
{
    let mut out: Vec<WorkflowStep> = Vec::new();
    let mut i: usize = 0;
    while i < steps.len()
        invariant
            0 <= i <= steps@.len(),
            out@.len() == i,
            forall|j: int| 0 <= j < i ==> out@[j]@ == (#[trigger] steps@[j])@,
        decreases steps@.len() - i,
    {
        out.push(steps[i].clone());
        i += 1;
    }
    proof {
        assert(steps_view(out@) =~= steps_view(steps@));
    }
    out
}

/// The elapsed milliseconds between two clock readings, zero when the
/// clock went backwards.
pub open spec fn dur_of(start: u64, end: u64) -> u64 {
    if end >= start {
        (end - start) as u64
    } else {
        0
    }
}

/// A request to cancel a workflow was refused: the id names no record,
/// or the record is already terminal.
#[derive(Debug, Clone, Copy, PartialEq, Eq, Structural)]
pub enum CancelError {
    NotFound,
    AlreadyTerminal,
}

/// The workflow coordinator: the operation registry's user and the owner
/// of the registry of execution records.
pub struct WorkflowEngine {
    workflows: Vec<WorkflowExecution>,
}

impl View for WorkflowEngine {
    type V = Seq<ExecutionView>;

    closed spec fn view(&self) -> Seq<ExecutionView> {
        Seq::new(self.workflows@.len(), |i: int| self.workflows@[i]@)
    }
}

impl WorkflowEngine {
    /// Every record's maps are well formed.
    pub closed spec fn wf(&self) -> bool {
        forall|i: int|
            0 <= i < self.workflows@.len() ==> (#[trigger] self.workflows@[i]).wf()
    }

    /// A coordinator with an empty registry.
    pub fn new() -> (r: Self)
        ensures
            r@ == Seq::<ExecutionView>::empty(),
            r.wf(),
    {
        let r = WorkflowEngine { workflows: Vec::new() };
        proof {
            assert(r@ =~= Seq::<ExecutionView>::empty());
        }
        r
    }

    /// The names of the registered operations, in registration order.
    pub fn get_available_operations(&self) -> (r: Vec<String>)
        ensures
            r@.len() == builtin_ops().len(),
            forall|k: int| 0 <= k < r@.len() ==> r@[k]@ == builtin_ops()[k],
    {
        builtin_operation_names()
    }

    /// Submit a workflow: validate the step set, run every step in
    /// topological order — one step's failure never stops the rest — and
    /// record the outcome in the registry under a fresh workflow id,
    /// which is returned either way. A validation failure is returned as
    /// the error and recorded as a `Failed` execution whose error map
    /// holds one synthetic entry under the key `workflow`; step failures
    /// are recorded per step and never raised.
    #[verifier::rlimit(100)]
    pub fn execute_workflow(
        &mut self,
        name: &str,
        steps: &Vec<WorkflowStep>,
        parameters: Option<&Value>,
    ) -> (r: (String, Result<WorkflowResult, GraphError>))
        requires
            old(self).wf(),
        ensures
            final(self).wf(),
            final(self)@.len() == old(self)@.len() + 1,
            forall|j: int| 0 <= j < old(self)@.len() ==> final(self)@[j] == old(self)@[j],
            ({
                let sv = steps_view(steps@);
                let rec = final(self)@.last();
                &&& rec.id == r.0@
                &&& r.0@.len() == 36
                &&& rec.name == name@
                &&& rec.steps == sv
                &&& rec.end_time is Some
                &&& rec.total_duration_ms == Some(dur_of(rec.start_time, rec.end_time->0))
                &&& match r.1 {
                    Ok(result) => {
                        &&& valid_steps(sv)
                        &&& (exists|o: Seq<int>|
                            {
                                &&& #[trigger] is_topo_order(sv, o)
                                &&& rec.results == run_fold(sv, o).0
                                &&& rec.errors == run_fold(sv, o).1
                                &&& rec.current_step == (if o.len() == 0 {
                                    Option::<Seq<char>>::None
                                } else {
                                    Some(sv[o.last()].id)
                                })
                            })
                        &&& (rec.status == WorkflowStatus::Completed || rec.status
                            == WorkflowStatus::Failed)
                        &&& ((rec.status == WorkflowStatus::Completed) <==> (rec.errors =~= Map::<
                            Seq<char>,
                            Seq<char>,
                        >::empty()))
                        &&& result.workflow_id@ == rec.id
                        &&& result.status == rec.status
                        &&& result.results@ == rec.results
                        &&& result.errors@ == rec.errors
                        &&& result.results.wf() && result.errors.wf()
                        &&& result.execution_time_ms == rec.total_duration_ms->0
                        &&& result.step_count == steps@.len()
                        &&& result.successful_steps as nat == result.results.spec_len()
                        &&& result.failed_steps as nat == result.errors.spec_len()
                    },
                    Err(e) => {
                        &&& validation_error(sv, e)
                        &&& rec.status == WorkflowStatus::Failed
                        &&& rec.current_step is None
                        &&& rec.results =~= Map::<Seq<char>, Val>::empty()
                        &&& rec.errors =~= Map::<Seq<char>, Seq<char>>::empty().insert(
                            "workflow"@,
                            graph_error_message(e),
                        )
                    },
                }
            }),
    {
        let workflow_id = fresh_workflow_id();
        let start_time = now_millis();
        let ghost sv = steps_view(steps@);
        match validate(steps) {
            Err(e) => {
                let msg = e.message();
                let mut errors: StrMap<String> = StrMap::new();
                errors.insert("workflow".to_owned(), msg);
                let end_time = now_millis();
                let duration = if end_time >= start_time {
                    end_time - start_time
                } else {
                    0
                };
                let execution = WorkflowExecution {
                    id: workflow_id.clone(),
                    name: name.to_owned(),
                    steps: clone_steps(steps),
                    status: WorkflowStatus::Failed,
                    current_step: None,
                    results: StrMap::new(),
                    errors,
                    start_time,
                    end_time: Some(end_time),
                    total_duration_ms: Some(duration),
                };
                let ghost recv = execution@;
                self.workflows.push(execution);
                proof {
                    assert(final(self)@ =~= old(self)@.push(recv));
                }
                (workflow_id, Err(e))
            },
            Ok(()) => {
                let order = match topological_order(steps) {
                    Ok(o) => o,
                    Err(_) => {
                        proof {
                            assert(false);
                        }
                        vstd::pervasive::unreached()
                    },
                };
                let ghost oi = order_ints(order@);
                let mut results: StrMap<Value> = StrMap::new();
                let mut errors: StrMap<String> = StrMap::new();
                let mut current_step: Option<String> = None;
                let mut k: usize = 0;
                while k < order.len()
                    invariant
                        sv == steps_view(steps@),
                        sv.len() == steps@.len(),
                        oi == order_ints(order@),
                        oi.len() == order@.len(),
                        is_topo_order(sv, oi),
                        forall|t: int| 0 <= t < oi.len() ==> 0 <= #[trigger] oi[t] < sv.len(),
                        forall|t: int| 0 <= t < order@.len() ==> oi[t] == (#[trigger] order@[t]) as int,
                        0 <= k <= order@.len(),
                        results.wf(),
                        errors.wf(),
                        results@ == run_fold(sv, oi.take(k as int)).0,
                        errors@ == run_fold(sv, oi.take(k as int)).1,
                        k == 0 ==> current_step is None,
                        k > 0 ==> (current_step matches Some(c) && c@ == sv[oi[k - 1]].id),
                    decreases order@.len() - k,
                {
                    let idx = order[k];
                    let step = &steps[idx];
                    proof {
                        assert(step@ == sv[oi[k as int]]);
                    }
                    current_step = Some(step.id.clone());
                    let input = resolve_input(step, &results);
                    let params_ref: Option<&Value> = match &step.parameters {
                        Some(p) => Some(p),
                        None => None,
                    };
                    let ghost expected = apply_op_spec(step@.operation, input@, step@.parameters);
                    let mut outcome = apply_operation(step.operation.as_str(), &input, params_ref);
                    let mut tries_left: u32 = match step.retry_count {
                        Some(c) => c,
                        None => 0,
                    };
                    while tries_left > 0 && outcome.is_err()
                        invariant
                            expected == apply_op_spec(step@.operation, input@, step@.parameters),
                            match (outcome, expected) {
                                (Ok(v), Ok(ev)) => v@ == ev,
                                (Err(m), Err(em)) => m@ == em,
                                _ => false,
                            },
                        decreases tries_left,
                    {
                        outcome = apply_operation(step.operation.as_str(), &input, match &step
                            .parameters {
                            Some(p) => Some(p),
                            None => None,
                        });
                        tries_left -= 1;
                    }
                    match outcome {
                        Ok(v) => {
                            results.insert(step.id.clone(), v);
                        },
                        Err(m) => {
                            let wrapped = wrap_error(
                                step.id.as_str(),
                                step.operation.as_str(),
                                m.as_str(),
                            );
                            errors.insert(step.id.clone(), wrapped);
                        },
                    }
                    proof {
                        assert(oi.take(k + 1).drop_last() =~= oi.take(k as int));
                        assert(oi.take(k + 1).last() == oi[k as int]);
                    }
                    k += 1;
                }
                proof {
                    assert(oi.take(oi.len() as int) =~= oi);
                }
                let succ = results.len();
                let fail = errors.len();
                let empty_errors = errors.is_empty();
                let status = if empty_errors {
                    WorkflowStatus::Completed
                } else {
                    WorkflowStatus::Failed
                };
                proof {
                    if !empty_errors {
                        errors.lemma_dom_len();
                        if errors@ =~= Map::<Seq<char>, Seq<char>>::empty() {
                            assert(errors@.dom() =~= Set::<Seq<char>>::empty());
                            assert(false);
                        }
                    }
                }
                let end_time = now_millis();
                let duration = if end_time >= start_time {
                    end_time - start_time
                } else {
                    0
                };
                let execution = WorkflowExecution {
                    id: workflow_id.clone(),
                    name: name.to_owned(),
                    steps: clone_steps(steps),
                    status,
                    current_step,
                    results: results.clone(),
                    errors: errors.clone(),
                    start_time,
                    end_time: Some(end_time),
                    total_duration_ms: Some(duration),
                };
                let result = WorkflowResult {
                    workflow_id: workflow_id.clone(),
                    status,
                    results,
                    errors,
                    execution_time_ms: duration,
                    step_count: steps.len(),
                    successful_steps: succ,
                    failed_steps: fail,
                };
                let ghost recv = execution@;
                self.workflows.push(execution);
                proof {
                    assert(final(self)@ =~= old(self)@.push(recv));
                    assert(is_topo_order(sv, oi));
                    if oi.len() > 0 {
                        assert(recv.current_step == Some(sv[oi.last()].id));
                    }
                }
                (workflow_id, Ok(result))
            },
        }
    }

    /// A snapshot of the first record under the given workflow id.
    pub fn get_workflow_status(&self, workflow_id: &str) -> (r: Option<WorkflowExecution>)
        requires
            self.wf(),
        ensures
            match r {
                Some(e) => lookup_record(self@, workflow_id@) == Some(e@) && e.wf(),
                None => lookup_record(self@, workflow_id@) is None,
            },
    {
        let mut i: usize = 0;
        while i < self.workflows.len()
            invariant
                self.wf(),
                0 <= i <= self.workflows@.len(),
                forall|j: int| 0 <= j < i ==> self@[j].id != workflow_id@,
            decreases self.workflows@.len() - i,
        {
            if str_eq(self.workflows[i].id.as_str(), workflow_id) {
                let e = self.workflows[i].clone();
                proof {
                    lemma_lookup_record_found(self@, workflow_id@, i as int);
                }
                return Some(e);
            }
            i += 1;
        }
        proof {
            lemma_lookup_record_missing(self@, workflow_id@);
        }
        None
    }

    /// Cancel the first record under the given workflow id: refused when
    /// the id names no record or the record is already terminal;
    /// otherwise the record becomes `Cancelled` with an end time
    /// recorded, and nothing else changes.
    pub fn cancel_workflow(&mut self, workflow_id: &str) -> (r: Result<(), CancelError>)
        requires
            old(self).wf(),
        ensures
            final(self).wf(),
            match r {
                Ok(()) => {
                    &&& (lookup_record(old(self)@, workflow_id@) matches Some(e)
                        && !e.status.terminal())
                    &&& final(self)@.len() == old(self)@.len()
                    &&& (exists|i: int|
                        {
                            &&& 0 <= i < old(self)@.len()
                            &&& (#[trigger] old(self)@[i]).id == workflow_id@
                            &&& forall|j: int| 0 <= j < i ==> old(self)@[j].id != workflow_id@
                            &&& forall|j: int|
                                0 <= j < old(self)@.len() && j != i ==> final(self)@[j] == old(
                                    self,
                                )@[j]
                            &&& final(self)@[i].status == WorkflowStatus::Cancelled
                            &&& final(self)@[i].end_time is Some
                            &&& final(self)@[i].id == old(self)@[i].id
                            &&& final(self)@[i].name == old(self)@[i].name
                            &&& final(self)@[i].steps == old(self)@[i].steps
                            &&& final(self)@[i].current_step == old(self)@[i].current_step
                            &&& final(self)@[i].results == old(self)@[i].results
                            &&& final(self)@[i].errors == old(self)@[i].errors
                            &&& final(self)@[i].start_time == old(self)@[i].start_time
                            &&& final(self)@[i].total_duration_ms == old(
                                self,
                            )@[i].total_duration_ms
                        })
                },
                Err(CancelError::NotFound) => final(self)@ == old(self)@ && lookup_record(
                    old(self)@,
                    workflow_id@,
                ) is None,
                Err(CancelError::AlreadyTerminal) => final(self)@ == old(self)@ && (
                lookup_record(old(self)@, workflow_id@) matches Some(e) && e.status.terminal()),
            },
    {
        let mut i: usize = 0;
        while i < self.workflows.len()
            invariant
                *self == *old(self),
                old(self).wf(),
                0 <= i <= self.workflows@.len(),
                forall|j: int| 0 <= j < i ==> self@[j].id != workflow_id@,
            decreases self.workflows@.len() - i,
        {
            if str_eq(self.workflows[i].id.as_str(), workflow_id) {
                proof {
                    lemma_lookup_record_found(self@, workflow_id@, i as int);
                }
                if self.workflows[i].status.is_terminal() {
                    return Err(CancelError::AlreadyTerminal);
                }
                let end_time = now_millis();
                let mut updated = self.workflows[i].clone();
                updated.status = WorkflowStatus::Cancelled;
                updated.end_time = Some(end_time);
                let ghost updv = updated@;
                self.workflows.set(i, updated);
                proof {
                    assert forall|j: int|
                        0 <= j < old(self)@.len() && j != i implies final(self)@[j] == old(
                        self,
                    )@[j] by {
                        assert(self.workflows@[j] == old(self).workflows@[j]);
                    }
                    assert(final(self)@[i as int] == updv);
                }
                return Ok(());
            }
            i += 1;
        }
        proof {
            lemma_lookup_record_missing(self@, workflow_id@);
        }
        Err(CancelError::NotFound)
    }
}


/// Whether the steps at two positions carry distinct ids whenever the
/// positions differ.
pub open spec fn unique_ids(steps: Seq<StepView>) -> bool {
    forall|p: int, q: int| 0 <= p < q < steps.len() ==> steps[p].id != steps[q].id
}

/// Running a prefix of a duplicate-free order touches a step's id
/// exactly when the prefix holds the step's position, and then records
/// it in exactly one of the two maps.
proof fn lemma_run_fold_membership(steps: Seq<StepView>, order: Seq<int>, i: int)
    requires
        unique_ids(steps),
        forall|t: int| 0 <= t < order.len() ==> 0 <= #[trigger] order[t] < steps.len(),
        forall|t1: int, t2: int| 0 <= t1 < t2 < order.len() ==> order[t1] != order[t2],
        0 <= i < steps.len(),
    ensures
        order.contains(i) ==> (run_fold(steps, order).0.contains_key(steps[i].id) != run_fold(
            steps,
            order,
        ).1.contains_key(steps[i].id)),
        !order.contains(i) ==> (!run_fold(steps, order).0.contains_key(steps[i].id) && !run_fold(
            steps,
            order,
        ).1.contains_key(steps[i].id)),
    decreases order.len(),
{
    if order.len() > 0 {
        let rest = order.drop_last();
        let last = order.last();
        lemma_run_fold_membership(steps, rest, i);
        assert(order =~= rest.push(last));
        crate::graph::lemma_push_contains(rest, last, i);
        assert(!rest.contains(last)) by {
            if rest.contains(last) {
                let t = choose|t: int| 0 <= t < rest.len() && rest[t] == last;
                assert(order[t] == order[order.len() - 1]);
                assert(false);
            }
        }
        if last != i {
            assert(steps[last].id != steps[i].id) by {
                if i < last {
                    assert(steps[i].id != steps[last].id);
                }
            }
        }
    }
}

/// Law: a run over a complete order attempts every step, and each
/// step's id then sits in exactly one of the result and error maps.
pub proof fn lemma_step_attempted_once(steps: Seq<StepView>, order: Seq<int>, i: int)
    requires
        unique_ids(steps),
        is_topo_order(steps, order),
        0 <= i < steps.len(),
    ensures
        run_fold(steps, order).0.contains_key(steps[i].id) != run_fold(
            steps,
            order,
        ).1.contains_key(steps[i].id),
{
    assert(order.contains(i));
    lemma_run_fold_membership(steps, order, i);
}

} // verus!
