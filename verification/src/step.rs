//! Workflow steps and graph-level errors.

use vstd::prelude::*;
use vstd::string::StringExecFns;

use crate::value::val_of;
use crate::value::Val;
use crate::value::Value;

verus! {

/// Ghost model of a workflow step.
pub struct StepView {
    pub id: Seq<char>,
    pub operation: Seq<char>,
    pub dependencies: Seq<Seq<char>>,
    pub data: Val,
    pub parameters: Option<Val>,
    pub timeout_ms: Option<u64>,
    pub retry_count: Option<u32>,
}

/// One unit of work: a unique id, a named operation, dependencies on
/// other steps by id, an input payload, optional handler parameters, an
/// optional timeout bound and an optional retry budget.
#[derive(Debug, PartialEq)]
pub struct WorkflowStep {
    pub id: String,
    pub operation: String,
    pub dependencies: Vec<String>,
    pub data: Value,
    pub parameters: Option<Value>,
    pub timeout_ms: Option<u64>,
    pub retry_count: Option<u32>,
}

impl View for WorkflowStep {
    type V = StepView;

    open spec fn view(&self) -> StepView {
        StepView {
            id: self.id@,
            operation: self.operation@,
            dependencies: Seq::new(
                self.dependencies@.len(),
                |i: int| self.dependencies@[i]@,
            ),
            data: val_of(self.data),
            parameters: match self.parameters {
                Some(p) => Some(val_of(p)),
                None => None,
            },
            timeout_ms: self.timeout_ms,
            retry_count: self.retry_count,
        }
    }
}

impl Clone for WorkflowStep {
    /// Cloning preserves the step's model.
    fn clone(&self) -> (res: Self)
        ensures
            res@ == self@,
    {
        let mut dependencies: Vec<String> = Vec::new();
        let mut i: usize = 0;
        while i < self.dependencies.len()
            invariant
                0 <= i <= self.dependencies@.len(),
                dependencies@.len() == i,
                forall|j: int| 0 <= j < i ==> dependencies@[j] == (
                #[trigger] self.dependencies@[j]),
            decreases self.dependencies@.len() - i,
        {
            dependencies.push(self.dependencies[i].clone());
            i += 1;
        }
        let parameters = match &self.parameters {
            Some(p) => Some(p.deep_copy()),
            None => None,
        };
        let res = WorkflowStep {
            id: self.id.clone(),
            operation: self.operation.clone(),
            dependencies,
            data: self.data.deep_copy(),
            parameters,
            timeout_ms: self.timeout_ms,
            retry_count: self.retry_count,
        };
        proof {
            assert(res@.dependencies =~= self@.dependencies);
        }
        res
    }
}

/// The ghost models of a step sequence, element by element.
pub open spec fn steps_view(steps: Seq<WorkflowStep>) -> Seq<StepView> {
    Seq::new(steps.len(), |i: int| steps[i]@)
}

/// A structural fault in a submitted step set, found before any step
/// runs.
#[derive(Debug, PartialEq)]
pub enum GraphError {
    /// The step set is empty.
    Empty,
    /// A step (first field) declares a dependency id (second field) that
    /// names no step in the set.
    UnknownDependency(String, String),
    /// The dependency relation contains a cycle.
    CycleDetected,
}

impl Clone for GraphError {
    /// Cloning preserves the error, up to the views of its fields.
    fn clone(&self) -> (res: Self)
        ensures
            self is Empty ==> res is Empty,
            self is CycleDetected ==> res is CycleDetected,
            self matches GraphError::UnknownDependency(s, d) ==> res matches
                GraphError::UnknownDependency(s2, d2) && s2@ == s@ && d2@ == d@,
    {
        match self {
            GraphError::Empty => GraphError::Empty,
            GraphError::UnknownDependency(s, d) => GraphError::UnknownDependency(
                s.clone(),
                d.clone(),
            ),
            GraphError::CycleDetected => GraphError::CycleDetected,
        }
    }
}


/// The message text a graph error carries into a workflow's error map.
pub open spec fn graph_error_message(e: GraphError) -> Seq<char> {
    match e {
        GraphError::Empty => "Workflow must have at least one step"@,
        GraphError::UnknownDependency(s, d) => "Step '"@ + s@
            + "' depends on non-existent step '"@ + d@ + "'"@,
        GraphError::CycleDetected => "Circular dependency detected in workflow"@,
    }
}

impl GraphError {
    /// The error as a message for a workflow's error map.
    pub fn message(&self) -> (r: String)
        ensures
            r@ == graph_error_message(*self),
    {
        match self {
            GraphError::Empty => "Workflow must have at least one step".to_owned(),
            GraphError::UnknownDependency(s, d) => {
                let mut m = "Step '".to_owned();
                m.append(s.as_str());
                m.append("' depends on non-existent step '");
                m.append(d.as_str());
                m.append("'");
                m
            },
            GraphError::CycleDetected => "Circular dependency detected in workflow".to_owned(),
        }
    }
}

} // verus!
