//! Strategy matrices (which workers an investigation phase runs, and how) and
//! writer bindings, read from TOML.

use crate::diagnostic::{Diagnostic, SCHEMA_VERSION};
use crate::pattern::{pattern_matches, slug_syntax};
use crate::record::RecordSummary;
use crate::text::{last_segment, last_segment_seq, push_str, str_eq, strip_suffix, strip_suffix_seq};
use crate::tree::{Tree, get, has_key, lookup, parse_toml, toml_document};
use crate::verdict::{Verdict, refused_with};
use crate::work_item::{decimal, decimal_string};
use vstd::prelude::*;

verus! {

/// The resolution of a writer binding.
#[derive(Debug, PartialEq, Eq)]
pub struct BindingResolution {
    pub mode: String,
    pub value: String,
}

/// The implementation-writer binding of an investigation.
#[derive(Debug, PartialEq, Eq)]
pub struct StrategyBinding {
    pub adapter: String,
    pub role: String,
    pub model: String,
    pub reasoning_effort: String,
    pub resolution: BindingResolution,
}

/// How many subagents may run at once, and how deep they may nest.
#[derive(Clone, Copy, Debug, PartialEq, Eq, Structural)]
pub struct StrategyLimits {
    pub max_concurrent_subagents: u64,
    pub max_depth: u64,
}

/// The capabilities a strategy needs of its platform.
#[derive(Debug, PartialEq, Eq)]
pub struct StrategyRequirements {
    pub capabilities: Vec<String>,
}

/// One kind of worker a strategy runs.
#[derive(Debug, PartialEq, Eq)]
pub struct StrategyWorker {
    pub role: String,
    pub platform_profile: String,
    pub model: Option<String>,
    pub reasoning_effort: Option<String>,
    pub minimum_count: u64,
    pub maximum_count: u64,
    pub can_spawn_subagents: bool,
}

/// How tickets flow through a pipelined implementation.
#[derive(Clone, Copy, Debug, PartialEq, Eq, Structural)]
pub struct StrategyPipeline {
    pub maximum_active_tickets: u64,
    pub look_ahead_read_only: bool,
    pub require_dependency_independence: bool,
    pub require_disjoint_write_paths: bool,
    pub immutable_review_commits: bool,
    pub corrections_preempt_forward_work: bool,
}

/// How the workers coordinate.
#[derive(Clone, Copy, Debug, PartialEq, Eq, Structural)]
pub struct StrategyCoordination {
    pub batch_when_capacity_exceeded: bool,
    pub candidate_review_before_ticket: bool,
    pub shared_ticket_storage_required: bool,
    pub pipeline: Option<StrategyPipeline>,
}

/// The executable projection of a complete strategy matrix.
#[derive(Debug, PartialEq, Eq)]
pub struct StrategyProjection {
    pub root_binding: String,
    pub limits: StrategyLimits,
    pub requirements: StrategyRequirements,
    pub workers: Vec<StrategyWorker>,
    pub coordination: StrategyCoordination,
}

/// The plain content of a worker.
pub struct WorkerView {
    pub role: Seq<char>,
    pub platform_profile: Seq<char>,
    pub model: Option<Seq<char>>,
    pub reasoning_effort: Option<Seq<char>>,
    pub minimum_count: u64,
    pub maximum_count: u64,
    pub can_spawn_subagents: bool,
}

/// The plain content of a projection.
pub struct ProjectionView {
    pub root_binding: Seq<char>,
    pub limits: StrategyLimits,
    pub capabilities: Seq<Seq<char>>,
    pub workers: Seq<WorkerView>,
    pub coordination: StrategyCoordination,
}

/// The plain content of a binding.
pub struct BindingView {
    pub adapter: Seq<char>,
    pub role: Seq<char>,
    pub model: Seq<char>,
    pub reasoning_effort: Seq<char>,
    pub mode: Seq<char>,
    pub value: Seq<char>,
}

/// The view of an optional string.
pub open spec fn opt_text_view(s: Option<String>) -> Option<Seq<char>> {
    match s {
        Some(v) => Some(v@),
        None => None,
    }
}

impl View for StrategyWorker {
    type V = WorkerView;

    open spec fn view(&self) -> WorkerView {
        WorkerView {
            role: self.role@,
            platform_profile: self.platform_profile@,
            model: opt_text_view(self.model),
            reasoning_effort: opt_text_view(self.reasoning_effort),
            minimum_count: self.minimum_count,
            maximum_count: self.maximum_count,
            can_spawn_subagents: self.can_spawn_subagents,
        }
    }
}

impl View for StrategyProjection {
    type V = ProjectionView;

    open spec fn view(&self) -> ProjectionView {
        ProjectionView {
            root_binding: self.root_binding@,
            limits: self.limits,
            capabilities: self.requirements.capabilities@.map_values(|s: String| s@),
            workers: self.workers@.map_values(|w: StrategyWorker| w@),
            coordination: self.coordination,
        }
    }
}

impl View for StrategyBinding {
    type V = BindingView;

    open spec fn view(&self) -> BindingView {
        BindingView {
            adapter: self.adapter@,
            role: self.role@,
            model: self.model@,
            reasoning_effort: self.reasoning_effort@,
            mode: self.resolution.mode@,
            value: self.resolution.value@,
        }
    }
}

/// Why a strategy record is refused: code, message and the field it concerns.
pub struct Fault {
    pub code: Seq<char>,
    pub message: Seq<char>,
    pub field: Option<Seq<char>>,
}

/// A fault about a field.
pub open spec fn fault(code: Seq<char>, message: Seq<char>, field: Seq<char>) -> Fault {
    Fault { code, message, field: Some(field) }
}

/// A fault about the whole record.
pub open spec fn plain_fault(code: Seq<char>, message: Seq<char>) -> Fault {
    Fault { code, message, field: None }
}

/// The refusal a fault stands for.
pub open spec fn refusal<T>(f: Fault) -> Verdict<T> {
    Verdict::Refuse { code: f.code, message: f.message, field: f.field, section: None }
}

/// A required non-empty string field.
pub open spec fn req_text(t: Tree, name: Seq<char>, code: Seq<char>) -> Result<Seq<char>, Fault> {
    match get(t, name) {
        Some(Tree::Str(s)) => if s@.len() > 0 {
            Ok(s@)
        } else {
            Err(fault(code, "field must be a non-empty string"@, name))
        },
        _ => Err(fault(code, "field must be a non-empty string"@, name)),
    }
}

/// An optional non-empty string field.
pub open spec fn opt_text(t: Tree, name: Seq<char>, code: Seq<char>) -> Result<Option<Seq<char>>, Fault> {
    match get(t, name) {
        None => Ok(None),
        Some(Tree::Str(s)) => if s@.len() > 0 {
            Ok(Some(s@))
        } else {
            Err(fault(code, "field must be a non-empty string"@, name))
        },
        _ => Err(fault(code, "field must be a non-empty string"@, name)),
    }
}

/// A non-negative integer field.
pub open spec fn count(t: Tree, name: Seq<char>) -> Result<u64, Fault> {
    match get(t, name) {
        Some(Tree::Int(n)) => if 0 <= n <= u64::MAX {
            Ok(n as u64)
        } else {
            Err(fault("invalid_strategy"@, "field must be a non-negative integer"@, name))
        },
        _ => Err(fault("invalid_strategy"@, "field must be a non-negative integer"@, name)),
    }
}

/// A positive integer field.
pub open spec fn positive(t: Tree, name: Seq<char>) -> Result<u64, Fault> {
    match count(t, name) {
        Err(f) => Err(f),
        Ok(v) => if v > 0 {
            Ok(v)
        } else {
            Err(fault("invalid_strategy"@, "field must be a positive integer"@, name))
        },
    }
}

/// A boolean field.
pub open spec fn flag(t: Tree, name: Seq<char>) -> Result<bool, Fault> {
    match get(t, name) {
        Some(Tree::Bool(b)) => Ok(b),
        _ => Err(fault("invalid_strategy"@, "field must be a boolean"@, name)),
    }
}

/// A required table field.
pub open spec fn sub_table(t: Tree, name: Seq<char>) -> Result<Tree, Fault> {
    match get(t, name) {
        Some(Tree::Table(entries)) => Ok(Tree::Table(entries)),
        _ => Err(fault("invalid_strategy"@, name + " must be a TOML table"@, name)),
    }
}

/// The position of worker `index` in diagnostics.
pub open spec fn worker_at(index: nat) -> Seq<char> {
    "workers."@ + decimal(index)
}

/// A worker table, checked against the strategy's depth limit.
pub open spec fn worker_of(item: Tree, index: nat, depth: u64) -> Result<WorkerView, Fault> {
    let at = worker_at(index);
    if !(item is Table) {
        Err(fault("invalid_strategy"@, "worker must be a TOML table"@, at))
    } else {
        match positive(item, "minimum_count"@) {
            Err(f) => Err(f),
            Ok(minimum) => match positive(item, "maximum_count"@) {
                Err(f) => Err(f),
                Ok(maximum) => if minimum > maximum {
                    Err(fault("invalid_strategy"@, "worker minimum_count must not exceed maximum_count"@, at))
                } else {
                    match flag(item, "can_spawn_subagents"@) {
                        Err(f) => Err(f),
                        Ok(spawn) => if spawn && depth < 2 {
                            Err(
                                fault(
                                    "strategy_depth"@,
                                    "spawning worker requires max_depth of at least 2"@,
                                    at + ".can_spawn_subagents"@,
                                ),
                            )
                        } else {
                            match opt_text(item, "model"@, "invalid_strategy"@) {
                                Err(f) => Err(f),
                                Ok(model) => match opt_text(item, "reasoning"@, "invalid_strategy"@) {
                                    Err(f) => Err(f),
                                    Ok(reasoning) => if (model is Some) != (reasoning is Some) {
                                        Err(
                                            fault(
                                                "invalid_strategy"@,
                                                "worker model and reasoning must be supplied together"@,
                                                at,
                                            ),
                                        )
                                    } else {
                                        match req_text(item, "role"@, "invalid_strategy"@) {
                                            Err(f) => Err(f),
                                            Ok(role) => match req_text(item, "platform_profile"@, "invalid_strategy"@) {
                                                Err(f) => Err(f),
                                                Ok(platform_profile) => Ok(
                                                    WorkerView {
                                                        role,
                                                        platform_profile,
                                                        model,
                                                        reasoning_effort: reasoning,
                                                        minimum_count: minimum,
                                                        maximum_count: maximum,
                                                        can_spawn_subagents: spawn,
                                                    },
                                                ),
                                            },
                                        }
                                    },
                                },
                            }
                        },
                    }
                },
            },
        }
    }
}

/// The workers of a `workers` array, or the first worker's fault.
pub open spec fn workers_of(items: Seq<Tree>, depth: u64) -> Result<Seq<WorkerView>, Fault>
    decreases items.len(),
{
    if items.len() == 0 {
        Ok(Seq::empty())
    } else {
        match workers_of(items.drop_last(), depth) {
            Err(f) => Err(f),
            Ok(ws) => match worker_of(items.last(), (items.len() - 1) as nat, depth) {
                Err(f) => Err(f),
                Ok(w) => Ok(ws.push(w)),
            },
        }
    }
}

/// The sum of the workers' minimum counts.
pub open spec fn minimum_total(ws: Seq<WorkerView>) -> int
    decreases ws.len(),
{
    if ws.len() == 0 {
        0
    } else {
        minimum_total(ws.drop_last()) + ws.last().minimum_count
    }
}

/// A `pipeline` table.
pub open spec fn pipeline_of(v: Tree) -> Result<StrategyPipeline, Fault> {
    if !(v is Table) {
        Err(fault("invalid_strategy"@, "pipeline must be a TOML table"@, "coordination.pipeline"@))
    } else {
        match (
            positive(v, "maximum_active_tickets"@),
            flag(v, "look_ahead_read_only"@),
            flag(v, "require_dependency_independence"@),
            flag(v, "require_disjoint_write_paths"@),
            flag(v, "immutable_review_commits"@),
            flag(v, "corrections_preempt_forward_work"@),
        ) {
            (Err(f), _, _, _, _, _) => Err(f),
            (_, Err(f), _, _, _, _) => Err(f),
            (_, _, Err(f), _, _, _) => Err(f),
            (_, _, _, Err(f), _, _) => Err(f),
            (_, _, _, _, Err(f), _) => Err(f),
            (_, _, _, _, _, Err(f)) => Err(f),
            (Ok(a), Ok(b), Ok(c), Ok(d), Ok(e), Ok(g)) => Ok(
                StrategyPipeline {
                    maximum_active_tickets: a,
                    look_ahead_read_only: b,
                    require_dependency_independence: c,
                    require_disjoint_write_paths: d,
                    immutable_review_commits: e,
                    corrections_preempt_forward_work: g,
                },
            ),
        }
    }
}

/// The non-empty strings of a `capabilities` array.
pub open spec fn capabilities_of(requirements: Tree) -> Result<Seq<Seq<char>>, Fault> {
    match get(requirements, "capabilities"@) {
        Some(Tree::Array(items)) => if forall|i: int|
            0 <= i < items@.len() ==> (#[trigger] items@[i] matches Tree::Str(s) && s@.len() > 0) {
            Ok(items@.map_values(|v: Tree| v->Str_0@))
        } else {
            Err(fault("invalid_strategy"@, "capabilities must be a string array"@, "requirements.capabilities"@))
        },
        _ => Err(fault("invalid_strategy"@, "capabilities must be a string array"@, "requirements.capabilities"@)),
    }
}

/// The workers of the strategy's `workers` key: none when absent.
pub open spec fn root_workers(root: Tree, depth: u64) -> Result<Seq<WorkerView>, Fault> {
    match get(root, "workers"@) {
        None => Ok(Seq::empty()),
        Some(Tree::Array(items)) => workers_of(items@, depth),
        Some(_) => Err(fault("invalid_strategy"@, "workers must be an array"@, "workers"@)),
    }
}

/// The optional pipeline of the coordination table.
pub open spec fn coordination_pipeline(coordination: Tree) -> Result<Option<StrategyPipeline>, Fault> {
    match get(coordination, "pipeline"@) {
        None => Ok(None),
        Some(v) => match pipeline_of(v) {
            Err(f) => Err(f),
            Ok(p) => Ok(Some(p)),
        },
    }
}

/// The coordination flags and pipeline.
pub open spec fn coordination_of(coordination: Tree) -> Result<StrategyCoordination, Fault> {
    match coordination_pipeline(coordination) {
        Err(f) => Err(f),
        Ok(pipeline) => match (
            flag(coordination, "batch_when_capacity_exceeded"@),
            flag(coordination, "candidate_review_before_ticket"@),
            flag(coordination, "shared_ticket_storage_required"@),
        ) {
            (Err(f), _, _) => Err(f),
            (_, Err(f), _) => Err(f),
            (_, _, Err(f)) => Err(f),
            (Ok(a), Ok(b), Ok(c)) => Ok(
                StrategyCoordination {
                    batch_when_capacity_exceeded: a,
                    candidate_review_before_ticket: b,
                    shared_ticket_storage_required: c,
                    pipeline,
                },
            ),
        },
    }
}

/// The projection of a strategy table whose matrix is complete, or its first fault.
pub open spec fn projection_of(root: Tree) -> Result<ProjectionView, Fault> {
    match (
        sub_table(root, "orchestrator"@),
        sub_table(root, "limits"@),
        sub_table(root, "requirements"@),
        sub_table(root, "coordination"@),
    ) {
        (Err(f), _, _, _) => Err(f),
        (_, Err(f), _, _) => Err(f),
        (_, _, Err(f), _) => Err(f),
        (_, _, _, Err(f)) => Err(f),
        (Ok(orchestrator), Ok(limits), Ok(requirements), Ok(coordination)) => match (
            positive(limits, "max_concurrent_subagents"@),
            count(limits, "max_depth"@),
        ) {
            (Err(f), _) => Err(f),
            (_, Err(f)) => Err(f),
            (Ok(max_concurrent), Ok(max_depth)) => match capabilities_of(requirements) {
                Err(f) => Err(f),
                Ok(capabilities) => match root_workers(root, max_depth) {
                    Err(f) => Err(f),
                    Ok(workers) => if minimum_total(workers) > max_concurrent {
                        Err(plain_fault("strategy_capacity"@, "worker minima exceed max_concurrent_subagents"@))
                    } else {
                        match req_text(orchestrator, "binding"@, "invalid_strategy"@) {
                            Err(f) => Err(f),
                            Ok(root_binding) => if root_binding != "root"@ {
                                Err(fault("strategy_root"@, "orchestrator binding must be root"@, "orchestrator.binding"@))
                            } else {
                                match coordination_of(coordination) {
                                    Err(f) => Err(f),
                                    Ok(coordination) => Ok(
                                        ProjectionView {
                                            root_binding,
                                            limits: StrategyLimits { max_concurrent_subagents: max_concurrent, max_depth },
                                            capabilities,
                                            workers,
                                            coordination,
                                        },
                                    ),
                                }
                            },
                        }
                    },
                },
            },
        },
    }
}

/// The table of a strategy document named `name`, when it parses, is a table, and
/// has schema version 1.
pub open spec fn strategy_root(text: Seq<char>, name: Seq<char>) -> Result<Tree, Fault> {
    match toml_document(text) {
        Err(e) => Err(plain_fault("invalid_toml"@, e)),
        Ok(t) => if !(t is Table) {
            Err(plain_fault("invalid_strategy"@, name + " must be a TOML table"@))
        } else if get(t, "schema_version"@) != Some(Tree::Int(1)) {
            Err(plain_fault("invalid_schema_version"@, "schema_version must be 1"@))
        } else {
            Ok(t)
        },
    }
}

/// The table holds any key of a complete matrix.
pub open spec fn has_projection_keys(t: Tree) -> bool {
    has_key(t, "orchestrator"@) || has_key(t, "limits"@) || has_key(t, "requirements"@) || has_key(
        t,
        "workers"@,
    ) || has_key(t, "coordination"@)
}

/// The phase a strategy's file name gives: its last segment without `.toml`.
pub open spec fn phase_of_path(path: Seq<char>) -> Seq<char> {
    match strip_suffix_seq(last_segment_seq(path, '/'), ".toml"@) {
        Some(p) => p,
        None => Seq::empty(),
    }
}

/// What a strategy record yields: its identity, phase and adapter.
pub open spec fn strategy_result(path: Seq<char>, text: Seq<char>) -> Result<(Seq<char>, Seq<char>, Seq<char>), Fault> {
    match strategy_root(text, "strategy"@) {
        Err(f) => Err(f),
        Ok(t) => match req_text(t, "phase"@, "invalid_strategy"@) {
            Err(f) => Err(f),
            Ok(phase) => if phase != phase_of_path(path) {
                Err(fault("strategy_phase"@, "phase must match filename"@, "phase"@))
            } else if has_projection_keys(t) && projection_of(t) is Err {
                Err(projection_of(t)->Err_0)
            } else {
                match req_text(t, "strategy_id"@, "invalid_strategy"@) {
                    Err(f) => Err(f),
                    Ok(id) => match req_text(t, "adapter"@, "invalid_strategy"@) {
                        Err(f) => Err(f),
                        Ok(adapter) => Ok((id, phase, adapter)),
                    },
                }
            },
        },
    }
}

/// What a strategy's projection yields: the projection when the matrix keys are present.
pub open spec fn projection_result(text: Seq<char>) -> Result<Option<ProjectionView>, Fault> {
    match strategy_root(text, "strategy"@) {
        Err(f) => Err(f),
        Ok(t) => if has_projection_keys(t) {
            match projection_of(t) {
                Err(f) => Err(f),
                Ok(p) => Ok(Some(p)),
            }
        } else {
            Ok(None)
        },
    }
}

/// What a writer binding record yields.
pub open spec fn binding_result(text: Seq<char>) -> Result<BindingView, Fault> {
    match strategy_root(text, "strategy binding"@) {
        Err(f) => Err(f),
        Ok(t) => match req_text(t, "role"@, "invalid_strategy_binding"@) {
            Err(f) => Err(f),
            Ok(role) => if role != "implementation-writer"@ {
                Err(fault("binding_role"@, "role must be implementation-writer"@, "role"@))
            } else {
                match get(t, "resolution"@) {
                    Some(Tree::Table(entries)) => {
                        let resolution = Tree::Table(entries);
                        match (
                            req_text(t, "adapter"@, "invalid_strategy_binding"@),
                            req_text(t, "model"@, "invalid_strategy_binding"@),
                            req_text(t, "reasoning_effort"@, "invalid_strategy_binding"@),
                            req_text(resolution, "mode"@, "invalid_strategy_binding"@),
                            req_text(resolution, "value"@, "invalid_strategy_binding"@),
                        ) {
                            (Err(f), _, _, _, _) => Err(f),
                            (_, Err(f), _, _, _) => Err(f),
                            (_, _, Err(f), _, _) => Err(f),
                            (_, _, _, Err(f), _) => Err(f),
                            (_, _, _, _, Err(f)) => Err(f),
                            (Ok(adapter), Ok(model), Ok(reasoning_effort), Ok(mode), Ok(value)) => Ok(
                                BindingView { adapter, role, model, reasoning_effort, mode, value },
                            ),
                        }
                    },
                    _ => Err(
                        fault("invalid_strategy_binding"@, "resolution must be a TOML table"@, "resolution"@),
                    ),
                }
            },
        },
    }
}

/// The phases a selectable matrix may name.
pub open spec fn supported_phase(p: Seq<char>) -> bool {
    p == "planning"@ || p == "investigation"@ || p == "review"@ || p == "implementation"@ || p
        == "closeout"@
}

/// Whether a selectable matrix is complete and well formed.
pub open spec fn matrix_result(text: Seq<char>) -> Result<(), Fault> {
    match strategy_root(text, "strategy"@) {
        Err(f) => Err(f),
        Ok(t) => match req_text(t, "strategy_id"@, "invalid_strategy"@) {
            Err(f) => Err(f),
            Ok(id) => if !slug_syntax(id) {
                Err(fault("invalid_strategy"@, "strategy_id is invalid"@, "strategy_id"@))
            } else {
                match req_text(t, "phase"@, "invalid_strategy"@) {
                    Err(f) => Err(f),
                    Ok(phase) => if !supported_phase(phase) {
                        Err(fault("strategy_phase"@, "phase is not supported"@, "phase"@))
                    } else {
                        match req_text(t, "adapter"@, "invalid_strategy"@) {
                            Err(f) => Err(f),
                            Ok(_) => match projection_of(t) {
                                Err(f) => Err(f),
                                Ok(_) => Ok(()),
                            },
                        }
                    },
                }
            },
        },
    }
}

/// Why a strategy record is refused, as values.
struct Problem {
    code: String,
    message: String,
    field: Option<String>,
}

impl View for Problem {
    type V = Fault;

    closed spec fn view(&self) -> Fault {
        Fault { code: self.code@, message: self.message@, field: opt_text_view(self.field) }
    }
}

fn problem(code: &str, message: &str, field: &str) -> (p: Problem)
    ensures
        p@ == fault(code@, message@, field@),
{
    Problem { code: code.to_owned(), message: message.to_owned(), field: Some(field.to_owned()) }
}

fn plain_problem(code: &str, message: &str) -> (p: Problem)
    ensures
        p@ == plain_fault(code@, message@),
{
    Problem { code: code.to_owned(), message: message.to_owned(), field: None }
}

/// The one diagnostic a fault stands for.
fn diagnostics_of(path: &str, p: Problem) -> (ds: Vec<Diagnostic>)
    ensures
        refused_with(ds@, path@, refusal::<()>(p@)),
        refused_with(ds@, path@, refusal::<(Seq<char>, Seq<char>, Seq<char>)>(p@)),
        refused_with(ds@, path@, refusal::<Option<ProjectionView>>(p@)),
        refused_with(ds@, path@, refusal::<BindingView>(p@)),
{
    let d = Diagnostic {
        schema_version: SCHEMA_VERSION,
        code: p.code,
        path: path.to_owned(),
        field: p.field,
        section: None,
        message: p.message,
    };
    vec![d]
}

fn read_req_text(t: &Tree, name: &str, code: &str) -> (r: Result<String, Problem>)
    ensures
        match r {
            Ok(s) => req_text(*t, name@, code@) == Ok::<Seq<char>, Fault>(s@),
            Err(p) => req_text(*t, name@, code@) == Err::<Seq<char>, Fault>(p@),
        },
{
    match lookup(t, name) {
        Some(Tree::Str(s)) => {
            if !s.as_str().is_empty() {
                Ok(s.clone())
            } else {
                Err(problem(code, "field must be a non-empty string", name))
            }
        }
        _ => Err(problem(code, "field must be a non-empty string", name)),
    }
}

fn read_opt_text(t: &Tree, name: &str, code: &str) -> (r: Result<Option<String>, Problem>)
    ensures
        match r {
            Ok(s) => opt_text(*t, name@, code@) == Ok::<Option<Seq<char>>, Fault>(opt_text_view(s)),
            Err(p) => opt_text(*t, name@, code@) == Err::<Option<Seq<char>>, Fault>(p@),
        },
{
    match lookup(t, name) {
        None => Ok(None),
        Some(Tree::Str(s)) => {
            if !s.as_str().is_empty() {
                Ok(Some(s.clone()))
            } else {
                Err(problem(code, "field must be a non-empty string", name))
            }
        }
        Some(_) => Err(problem(code, "field must be a non-empty string", name)),
    }
}

fn read_count(t: &Tree, name: &str) -> (r: Result<u64, Problem>)
    ensures
        match r {
            Ok(v) => count(*t, name@) == Ok::<u64, Fault>(v),
            Err(p) => count(*t, name@) == Err::<u64, Fault>(p@),
        },
{
    match lookup(t, name) {
        Some(Tree::Int(n)) => {
            if 0 <= *n && *n <= 0xffff_ffff_ffff_ffff {
                Ok(*n as u64)
            } else {
                Err(problem("invalid_strategy", "field must be a non-negative integer", name))
            }
        }
        _ => Err(problem("invalid_strategy", "field must be a non-negative integer", name)),
    }
}

fn read_positive(t: &Tree, name: &str) -> (r: Result<u64, Problem>)
    ensures
        match r {
            Ok(v) => positive(*t, name@) == Ok::<u64, Fault>(v),
            Err(p) => positive(*t, name@) == Err::<u64, Fault>(p@),
        },
{
    match read_count(t, name) {
        Err(p) => Err(p),
        Ok(v) => {
            if v > 0 {
                Ok(v)
            } else {
                Err(problem("invalid_strategy", "field must be a positive integer", name))
            }
        }
    }
}

fn read_flag(t: &Tree, name: &str) -> (r: Result<bool, Problem>)
    ensures
        match r {
            Ok(v) => flag(*t, name@) == Ok::<bool, Fault>(v),
            Err(p) => flag(*t, name@) == Err::<bool, Fault>(p@),
        },
{
    match lookup(t, name) {
        Some(Tree::Bool(b)) => Ok(*b),
        _ => Err(problem("invalid_strategy", "field must be a boolean", name)),
    }
}

fn table_message(name: &str) -> (r: String)
    ensures
        r@ == name@ + " must be a TOML table"@,
{
    let mut m = name.to_owned();
    push_str(&mut m, " must be a TOML table");
    m
}

fn read_sub_table<'a>(t: &'a Tree, name: &str) -> (r: Result<&'a Tree, Problem>)
    ensures
        match r {
            Ok(v) => sub_table(*t, name@) == Ok::<Tree, Fault>(*v),
            Err(p) => sub_table(*t, name@) == Err::<Tree, Fault>(p@),
        },
{
    match lookup(t, name) {
        Some(v) => {
            if matches!(v, Tree::Table(_)) {
                Ok(v)
            } else {
                let m = table_message(name);
                Err(Problem { code: "invalid_strategy".to_owned(), message: m, field: Some(name.to_owned()) })
            }
        }
        None => {
            let m = table_message(name);
            Err(Problem { code: "invalid_strategy".to_owned(), message: m, field: Some(name.to_owned()) })
        }
    }
}

fn worker_position(index: usize) -> (r: String)
    ensures
        r@ == worker_at(index as nat),
{
    let mut at = "workers.".to_owned();
    let n = decimal_string(index as u64);
    push_str(&mut at, n.as_str());
    at
}

fn read_worker(item: &Tree, index: usize, depth: u64) -> (r: Result<StrategyWorker, Problem>)
    ensures
        match r {
            Ok(w) => worker_of(*item, index as nat, depth) == Ok::<WorkerView, Fault>(w@),
            Err(p) => worker_of(*item, index as nat, depth) == Err::<WorkerView, Fault>(p@),
        },
{
    let at = worker_position(index);
    if !matches!(item, Tree::Table(_)) {
        return Err(Problem { code: "invalid_strategy".to_owned(), message: "worker must be a TOML table".to_owned(), field: Some(at) });
    }
    let minimum_count = match read_positive(item, "minimum_count") {
        Ok(v) => v,
        Err(p) => {
            return Err(p);
        }
    };
    let maximum_count = match read_positive(item, "maximum_count") {
        Ok(v) => v,
        Err(p) => {
            return Err(p);
        }
    };
    if minimum_count > maximum_count {
        return Err(Problem {
            code: "invalid_strategy".to_owned(),
            message: "worker minimum_count must not exceed maximum_count".to_owned(),
            field: Some(at),
        });
    }
    let can_spawn_subagents = match read_flag(item, "can_spawn_subagents") {
        Ok(v) => v,
        Err(p) => {
            return Err(p);
        }
    };
    if can_spawn_subagents && depth < 2 {
        let mut field = at;
        push_str(&mut field, ".can_spawn_subagents");
        return Err(Problem {
            code: "strategy_depth".to_owned(),
            message: "spawning worker requires max_depth of at least 2".to_owned(),
            field: Some(field),
        });
    }
    let model = match read_opt_text(item, "model", "invalid_strategy") {
        Ok(v) => v,
        Err(p) => {
            return Err(p);
        }
    };
    let reasoning_effort = match read_opt_text(item, "reasoning", "invalid_strategy") {
        Ok(v) => v,
        Err(p) => {
            return Err(p);
        }
    };
    if model.is_some() != reasoning_effort.is_some() {
        return Err(Problem {
            code: "invalid_strategy".to_owned(),
            message: "worker model and reasoning must be supplied together".to_owned(),
            field: Some(at),
        });
    }
    let role = match read_req_text(item, "role", "invalid_strategy") {
        Ok(v) => v,
        Err(p) => {
            return Err(p);
        }
    };
    let platform_profile = match read_req_text(item, "platform_profile", "invalid_strategy") {
        Ok(v) => v,
        Err(p) => {
            return Err(p);
        }
    };
    Ok(StrategyWorker { role, platform_profile, model, reasoning_effort, minimum_count, maximum_count, can_spawn_subagents })
}

proof fn lemma_workers_prefix(items: Seq<Tree>, depth: u64, n: int)
    requires
        0 <= n <= items.len(),
        workers_of(items.take(n), depth) is Err,
    ensures
        workers_of(items, depth) == workers_of(items.take(n), depth),
    decreases items.len() - n,
{
    if n == items.len() {
        assert(items.take(n) =~= items);
    } else {
        assert(items.drop_last().take(n) =~= items.take(n));
        lemma_workers_prefix(items.drop_last(), depth, n);
    }
}

fn read_workers(root: &Tree, depth: u64) -> (r: Result<Vec<StrategyWorker>, Problem>)
    ensures
        match r {
            Ok(ws) => root_workers(*root, depth) == Ok::<Seq<WorkerView>, Fault>(ws@.map_values(|w: StrategyWorker| w@)),
            Err(p) => root_workers(*root, depth) == Err::<Seq<WorkerView>, Fault>(p@),
        },
{
    let items = match lookup(root, "workers") {
        None => {
            let ws: Vec<StrategyWorker> = Vec::new();
            assert(ws@.map_values(|w: StrategyWorker| w@) =~= Seq::<WorkerView>::empty());
            return Ok(ws);
        }
        Some(Tree::Array(items)) => items,
        Some(_) => {
            return Err(problem("invalid_strategy", "workers must be an array", "workers"));
        }
    };
    let mut ws: Vec<StrategyWorker> = Vec::new();
    let mut i: usize = 0;
    assert(items@.take(0) =~= Seq::<Tree>::empty());
    assert(ws@.map_values(|w: StrategyWorker| w@) =~= Seq::<WorkerView>::empty());
    while i < items.len()
        invariant
            i <= items@.len(),
            root_workers(*root, depth) == workers_of(items@, depth),
            workers_of(items@.take(i as int), depth) == Ok::<Seq<WorkerView>, Fault>(ws@.map_values(|w: StrategyWorker| w@)),
        decreases items.len() - i,
    {
        proof {
            assert(items@.take(i + 1).drop_last() =~= items@.take(i as int));
            assert(items@.take(i + 1).last() == items@[i as int]);
        }
        match read_worker(&items[i], i, depth) {
            Ok(w) => {
                let ghost prior = ws@.map_values(|w: StrategyWorker| w@);
                ws.push(w);
                assert(ws@.map_values(|w: StrategyWorker| w@) =~= prior.push(ws@.last()@));
            }
            Err(p) => {
                proof {
                    lemma_workers_prefix(items@, depth, i + 1);
                }
                return Err(p);
            }
        }
        i = i + 1;
    }
    assert(items@.take(i as int) =~= items@);
    Ok(ws)
}

proof fn lemma_minimum_total_prefix(ws: Seq<WorkerView>, n: int)
    requires
        0 <= n <= ws.len(),
    ensures
        minimum_total(ws.take(n)) <= minimum_total(ws),
    decreases ws.len() - n,
{
    if n == ws.len() {
        assert(ws.take(n) =~= ws);
    } else {
        assert(ws.drop_last().take(n) =~= ws.take(n));
        lemma_minimum_total_prefix(ws.drop_last(), n);
    }
}

/// Whether the workers' minimum counts add up to more than `limit`.
fn minima_exceed(workers: &Vec<StrategyWorker>, limit: u64) -> (r: bool)
    ensures
        r == (minimum_total(workers@.map_values(|w: StrategyWorker| w@)) > limit),
{
    let ghost ws = workers@.map_values(|w: StrategyWorker| w@);
    let mut total: u64 = 0;
    let mut i: usize = 0;
    assert(ws.take(0) =~= Seq::<WorkerView>::empty());
    while i < workers.len()
        invariant
            ws == workers@.map_values(|w: StrategyWorker| w@),
            i <= workers@.len(),
            total <= limit,
            total == minimum_total(ws.take(i as int)),
        decreases workers.len() - i,
    {
        proof {
            assert(ws.take(i + 1).drop_last() =~= ws.take(i as int));
            assert(ws.take(i + 1).last() == workers@[i as int]@);
        }
        let m = workers[i].minimum_count;
        if m > limit - total {
            proof {
                lemma_minimum_total_prefix(ws, i + 1);
            }
            return true;
        }
        total = total + m;
        i = i + 1;
    }
    assert(ws.take(i as int) =~= ws);
    false
}

fn read_pipeline(v: &Tree) -> (r: Result<StrategyPipeline, Problem>)
    ensures
        match r {
            Ok(p) => pipeline_of(*v) == Ok::<StrategyPipeline, Fault>(p),
            Err(p) => pipeline_of(*v) == Err::<StrategyPipeline, Fault>(p@),
        },
{
    if !matches!(v, Tree::Table(_)) {
        return Err(problem("invalid_strategy", "pipeline must be a TOML table", "coordination.pipeline"));
    }
    let a = match read_positive(v, "maximum_active_tickets") {
        Ok(x) => x,
        Err(p) => {
            return Err(p);
        }
    };
    let b = match read_flag(v, "look_ahead_read_only") {
        Ok(x) => x,
        Err(p) => {
            return Err(p);
        }
    };
    let c = match read_flag(v, "require_dependency_independence") {
        Ok(x) => x,
        Err(p) => {
            return Err(p);
        }
    };
    let d = match read_flag(v, "require_disjoint_write_paths") {
        Ok(x) => x,
        Err(p) => {
            return Err(p);
        }
    };
    let e = match read_flag(v, "immutable_review_commits") {
        Ok(x) => x,
        Err(p) => {
            return Err(p);
        }
    };
    let g = match read_flag(v, "corrections_preempt_forward_work") {
        Ok(x) => x,
        Err(p) => {
            return Err(p);
        }
    };
    Ok(StrategyPipeline {
        maximum_active_tickets: a,
        look_ahead_read_only: b,
        require_dependency_independence: c,
        require_disjoint_write_paths: d,
        immutable_review_commits: e,
        corrections_preempt_forward_work: g,
    })
}

fn read_capabilities(requirements: &Tree) -> (r: Result<Vec<String>, Problem>)
    ensures
        match r {
            Ok(c) => capabilities_of(*requirements) == Ok::<Seq<Seq<char>>, Fault>(c@.map_values(|s: String| s@)),
            Err(p) => capabilities_of(*requirements) == Err::<Seq<Seq<char>>, Fault>(p@),
        },
{
    let items = match lookup(requirements, "capabilities") {
        Some(Tree::Array(items)) => items,
        _ => {
            return Err(problem("invalid_strategy", "capabilities must be a string array", "requirements.capabilities"));
        }
    };
    let mut out: Vec<String> = Vec::new();
    let mut i: usize = 0;
    while i < items.len()
        invariant
            get(*requirements, "capabilities"@) == Some(Tree::Array(*items)),
            i <= items@.len(),
            forall|j: int| 0 <= j < i ==> (#[trigger] items@[j] matches Tree::Str(s) && s@.len() > 0),
            out@.map_values(|s: String| s@) == items@.take(i as int).map_values(|v: Tree| v->Str_0@),
        decreases items.len() - i,
    {
        match &items[i] {
            Tree::Str(s) => {
                if s.as_str().is_empty() {
                    return Err(problem("invalid_strategy", "capabilities must be a string array", "requirements.capabilities"));
                }
                let ghost prior = out@.map_values(|s: String| s@);
                out.push(s.clone());
                assert(out@.map_values(|s: String| s@) =~= prior.push(s@));
                assert(items@.take(i + 1).map_values(|v: Tree| v->Str_0@) =~= items@.take(i as int).map_values(
                    |v: Tree| v->Str_0@,
                ).push(s@));
            }
            _ => {
                return Err(problem("invalid_strategy", "capabilities must be a string array", "requirements.capabilities"));
            }
        }
        i = i + 1;
    }
    assert(items@.take(i as int) =~= items@);
    Ok(out)
}

fn read_coordination(coordination: &Tree) -> (r: Result<StrategyCoordination, Problem>)
    ensures
        match r {
            Ok(c) => coordination_of(*coordination) == Ok::<StrategyCoordination, Fault>(c),
            Err(p) => coordination_of(*coordination) == Err::<StrategyCoordination, Fault>(p@),
        },
{
    let pipeline = match lookup(coordination, "pipeline") {
        None => None,
        Some(v) => match read_pipeline(v) {
            Ok(p) => Some(p),
            Err(p) => {
                return Err(p);
            }
        },
    };
    let a = match read_flag(coordination, "batch_when_capacity_exceeded") {
        Ok(x) => x,
        Err(p) => {
            return Err(p);
        }
    };
    let b = match read_flag(coordination, "candidate_review_before_ticket") {
        Ok(x) => x,
        Err(p) => {
            return Err(p);
        }
    };
    let c = match read_flag(coordination, "shared_ticket_storage_required") {
        Ok(x) => x,
        Err(p) => {
            return Err(p);
        }
    };
    Ok(StrategyCoordination {
        batch_when_capacity_exceeded: a,
        candidate_review_before_ticket: b,
        shared_ticket_storage_required: c,
        pipeline,
    })
}

fn read_projection(root: &Tree) -> (r: Result<StrategyProjection, Problem>)
    ensures
        match r {
            Ok(p) => projection_of(*root) == Ok::<ProjectionView, Fault>(p@),
            Err(p) => projection_of(*root) == Err::<ProjectionView, Fault>(p@),
        },
{
    let orchestrator = match read_sub_table(root, "orchestrator") {
        Ok(x) => x,
        Err(p) => {
            return Err(p);
        }
    };
    let limits = match read_sub_table(root, "limits") {
        Ok(x) => x,
        Err(p) => {
            return Err(p);
        }
    };
    let requirements = match read_sub_table(root, "requirements") {
        Ok(x) => x,
        Err(p) => {
            return Err(p);
        }
    };
    let coordination = match read_sub_table(root, "coordination") {
        Ok(x) => x,
        Err(p) => {
            return Err(p);
        }
    };
    let max_concurrent_subagents = match read_positive(limits, "max_concurrent_subagents") {
        Ok(x) => x,
        Err(p) => {
            return Err(p);
        }
    };
    let max_depth = match read_count(limits, "max_depth") {
        Ok(x) => x,
        Err(p) => {
            return Err(p);
        }
    };
    let capabilities = match read_capabilities(requirements) {
        Ok(x) => x,
        Err(p) => {
            return Err(p);
        }
    };
    let workers = match read_workers(root, max_depth) {
        Ok(x) => x,
        Err(p) => {
            return Err(p);
        }
    };
    if minima_exceed(&workers, max_concurrent_subagents) {
        return Err(plain_problem("strategy_capacity", "worker minima exceed max_concurrent_subagents"));
    }
    let root_binding = match read_req_text(orchestrator, "binding", "invalid_strategy") {
        Ok(x) => x,
        Err(p) => {
            return Err(p);
        }
    };
    if !str_eq(root_binding.as_str(), "root") {
        return Err(problem("strategy_root", "orchestrator binding must be root", "orchestrator.binding"));
    }
    let coordination = match read_coordination(coordination) {
        Ok(x) => x,
        Err(p) => {
            return Err(p);
        }
    };
    Ok(StrategyProjection {
        root_binding,
        limits: StrategyLimits { max_concurrent_subagents, max_depth },
        requirements: StrategyRequirements { capabilities },
        workers,
        coordination,
    })
}

fn read_root(text: &str, name: &str) -> (r: Result<Tree, Problem>)
    ensures
        match r {
            Ok(t) => strategy_root(text@, name@) == Ok::<Tree, Fault>(t),
            Err(p) => strategy_root(text@, name@) == Err::<Tree, Fault>(p@),
        },
{
    let t = match parse_toml(text) {
        Ok(t) => t,
        Err(e) => {
            return Err(Problem { code: "invalid_toml".to_owned(), message: e, field: None });
        }
    };
    if !matches!(t, Tree::Table(_)) {
        let m = table_message(name);
        return Err(Problem { code: "invalid_strategy".to_owned(), message: m, field: None });
    }
    let schema_ok = match lookup(&t, "schema_version") {
        Some(Tree::Int(n)) => *n == 1,
        _ => false,
    };
    if !schema_ok {
        return Err(plain_problem("invalid_schema_version", "schema_version must be 1"));
    }
    Ok(t)
}

fn projection_keys(t: &Tree) -> (r: bool)
    ensures
        r == has_projection_keys(*t),
{
    lookup(t, "orchestrator").is_some() || lookup(t, "limits").is_some() || lookup(t, "requirements").is_some()
        || lookup(t, "workers").is_some() || lookup(t, "coordination").is_some()
}

/// Reads a strategy record: its phase must match its file name, and a complete
/// matrix, when present, must be well formed.
pub fn parse(path: &str, text: &str) -> (r: Result<RecordSummary, Vec<Diagnostic>>)
    ensures
        match r {
            Ok(RecordSummary::Strategy { strategy_id, phase, adapter }) => strategy_result(path@, text@)
                == Ok::<(Seq<char>, Seq<char>, Seq<char>), Fault>((strategy_id@, phase@, adapter@)),
            Ok(_) => false,
            Err(ds) => strategy_result(path@, text@) is Err && refused_with(
                ds@,
                path@,
                refusal::<(Seq<char>, Seq<char>, Seq<char>)>(strategy_result(path@, text@)->Err_0),
            ),
        },
{
    let t = match read_root(text, "strategy") {
        Ok(t) => t,
        Err(p) => {
            return Err(diagnostics_of(path, p));
        }
    };
    let phase = match read_req_text(&t, "phase", "invalid_strategy") {
        Ok(x) => x,
        Err(p) => {
            return Err(diagnostics_of(path, p));
        }
    };
    let name = last_segment(path, '/');
    let expected = match strip_suffix(name.as_str(), ".toml") {
        Some(p) => p,
        None => String::new(),
    };
    if phase != expected {
        return Err(diagnostics_of(path, problem("strategy_phase", "phase must match filename", "phase")));
    }
    if projection_keys(&t) {
        match read_projection(&t) {
            Ok(_) => {}
            Err(p) => {
                return Err(diagnostics_of(path, p));
            }
        }
    }
    let strategy_id = match read_req_text(&t, "strategy_id", "invalid_strategy") {
        Ok(x) => x,
        Err(p) => {
            return Err(diagnostics_of(path, p));
        }
    };
    let adapter = match read_req_text(&t, "adapter", "invalid_strategy") {
        Ok(x) => x,
        Err(p) => {
            return Err(diagnostics_of(path, p));
        }
    };
    Ok(RecordSummary::Strategy { strategy_id, phase, adapter })
}

/// The complete matrix of a strategy record, or none for a record without one.
pub fn parse_projection(path: &str, text: &str) -> (r: Result<Option<StrategyProjection>, Vec<Diagnostic>>)
    ensures
        match r {
            Ok(Some(p)) => projection_result(text@) == Ok::<Option<ProjectionView>, Fault>(Some(p@)),
            Ok(None) => projection_result(text@) == Ok::<Option<ProjectionView>, Fault>(None),
            Err(ds) => projection_result(text@) is Err && refused_with(
                ds@,
                path@,
                refusal::<Option<ProjectionView>>(projection_result(text@)->Err_0),
            ),
        },
{
    let t = match read_root(text, "strategy") {
        Ok(t) => t,
        Err(p) => {
            return Err(diagnostics_of(path, p));
        }
    };
    if projection_keys(&t) {
        match read_projection(&t) {
            Ok(p) => Ok(Some(p)),
            Err(p) => Err(diagnostics_of(path, p)),
        }
    } else {
        Ok(None)
    }
}

/// The complete matrix held by a strategy's parsed TOML table.
pub fn projection_from_tree(path: &str, t: &Tree) -> (r: Result<StrategyProjection, Vec<Diagnostic>>)
    ensures
        match r {
            Ok(p) => projection_of(*t) == Ok::<ProjectionView, Fault>(p@),
            Err(ds) => projection_of(*t) is Err && refused_with(ds@, path@, refusal::<ProjectionView>(projection_of(*t)->Err_0)),
        },
{
    match read_projection(t) {
        Ok(p) => Ok(p),
        Err(p) => Err(diagnostics_of(path, p)),
    }
}

/// Reads the implementation-writer binding record.
pub fn parse_binding(path: &str, text: &str) -> (r: Result<RecordSummary, Vec<Diagnostic>>)
    ensures
        match r {
            Ok(RecordSummary::StrategyBinding { binding }) => binding_result(text@) == Ok::<BindingView, Fault>(
                binding@,
            ),
            Ok(_) => false,
            Err(ds) => binding_result(text@) is Err && refused_with(
                ds@,
                path@,
                refusal::<BindingView>(binding_result(text@)->Err_0),
            ),
        },
{
    let t = match read_root(text, "strategy binding") {
        Ok(t) => t,
        Err(p) => {
            return Err(diagnostics_of(path, p));
        }
    };
    let role = match read_req_text(&t, "role", "invalid_strategy_binding") {
        Ok(x) => x,
        Err(p) => {
            return Err(diagnostics_of(path, p));
        }
    };
    if !str_eq(role.as_str(), "implementation-writer") {
        return Err(diagnostics_of(path, problem("binding_role", "role must be implementation-writer", "role")));
    }
    let resolution = match lookup(&t, "resolution") {
        Some(v) => {
            if matches!(v, Tree::Table(_)) {
                v
            } else {
                return Err(diagnostics_of(path, problem("invalid_strategy_binding", "resolution must be a TOML table", "resolution")));
            }
        }
        None => {
            return Err(diagnostics_of(path, problem("invalid_strategy_binding", "resolution must be a TOML table", "resolution")));
        }
    };
    let adapter = match read_req_text(&t, "adapter", "invalid_strategy_binding") {
        Ok(x) => x,
        Err(p) => {
            return Err(diagnostics_of(path, p));
        }
    };
    let model = match read_req_text(&t, "model", "invalid_strategy_binding") {
        Ok(x) => x,
        Err(p) => {
            return Err(diagnostics_of(path, p));
        }
    };
    let reasoning_effort = match read_req_text(&t, "reasoning_effort", "invalid_strategy_binding") {
        Ok(x) => x,
        Err(p) => {
            return Err(diagnostics_of(path, p));
        }
    };
    let mode = match read_req_text(resolution, "mode", "invalid_strategy_binding") {
        Ok(x) => x,
        Err(p) => {
            return Err(diagnostics_of(path, p));
        }
    };
    let value = match read_req_text(resolution, "value", "invalid_strategy_binding") {
        Ok(x) => x,
        Err(p) => {
            return Err(diagnostics_of(path, p));
        }
    };
    Ok(RecordSummary::StrategyBinding {
        binding: StrategyBinding { adapter, role, model, reasoning_effort, resolution: BindingResolution { mode, value } },
    })
}

fn is_supported_phase(p: &str) -> (r: bool)
    ensures
        r == supported_phase(p@),
{
    str_eq(p, "planning") || str_eq(p, "investigation") || str_eq(p, "review") || str_eq(p, "implementation")
        || str_eq(p, "closeout")
}

/// Checks a complete, selectable strategy matrix without regard to its file name;
/// its diagnostics point at `strategy matrix`.
pub fn validate_matrix(text: &str) -> (r: Result<(), Vec<Diagnostic>>)
    ensures
        match r {
            Ok(()) => matrix_result(text@) == Ok::<(), Fault>(()),
            Err(ds) => matrix_result(text@) is Err && refused_with(
                ds@,
                "strategy matrix"@,
                refusal::<()>(matrix_result(text@)->Err_0),
            ),
        },
{
    let path = "strategy matrix";
    let t = match read_root(text, "strategy") {
        Ok(t) => t,
        Err(p) => {
            return Err(diagnostics_of(path, p));
        }
    };
    let strategy_id = match read_req_text(&t, "strategy_id", "invalid_strategy") {
        Ok(x) => x,
        Err(p) => {
            return Err(diagnostics_of(path, p));
        }
    };
    if !pattern_matches("^[a-z0-9][a-z0-9-]*$", strategy_id.as_str()) {
        return Err(diagnostics_of(path, problem("invalid_strategy", "strategy_id is invalid", "strategy_id")));
    }
    let phase = match read_req_text(&t, "phase", "invalid_strategy") {
        Ok(x) => x,
        Err(p) => {
            return Err(diagnostics_of(path, p));
        }
    };
    if !is_supported_phase(phase.as_str()) {
        return Err(diagnostics_of(path, problem("strategy_phase", "phase is not supported", "phase")));
    }
    match read_req_text(&t, "adapter", "invalid_strategy") {
        Ok(_) => {}
        Err(p) => {
            return Err(diagnostics_of(path, p));
        }
    }
    match read_projection(&t) {
        Ok(_) => Ok(()),
        Err(p) => Err(diagnostics_of(path, p)),
    }
}

/// The workers that a list of worker tables yields are one per table, each read from its table.
proof fn lemma_workers_one_per_table(items: Seq<Tree>, depth: u64, ws: Seq<WorkerView>)
    requires
        workers_of(items, depth) == Ok::<Seq<WorkerView>, Fault>(ws),
    ensures
        ws.len() == items.len(),
        forall|i: int| 0 <= i < items.len() ==> worker_of(#[trigger] items[i], i as nat, depth) == Ok::<WorkerView, Fault>(ws[i]),
    decreases items.len(),
{
    if items.len() > 0 {
        let front = workers_of(items.drop_last(), depth)->Ok_0;
        lemma_workers_one_per_table(items.drop_last(), depth, front);
        assert(ws == front.push(worker_of(items.last(), (items.len() - 1) as nat, depth)->Ok_0));
        assert forall|i: int| 0 <= i < items.len() implies worker_of(#[trigger] items[i], i as nat, depth) == Ok::<
            WorkerView,
            Fault,
        >(ws[i]) by {
            if i < items.len() - 1 {
                assert(items.drop_last()[i] == items[i]);
            }
        }
    }
}

/// Every worker of an accepted strategy matrix takes its fields from its own table in
/// the document's `workers` array: its minimum from `minimum_count`, its maximum from
/// `maximum_count` (both positive, the minimum no larger than the maximum), its role,
/// platform profile, spawning flag, model and reasoning effort from the keys `role`,
/// `platform_profile`, `can_spawn_subagents`, `model` and `reasoning`; and the
/// matrix has one worker per table (none when the document lists no workers).
pub proof fn law_workers_read_their_own_tables(root: Tree, p: ProjectionView)
    requires
        projection_of(root) == Ok::<ProjectionView, Fault>(p),
    ensures
        match get(root, "workers"@) {
            Some(Tree::Array(items)) => {
                &&& p.workers.len() == items@.len()
                &&& forall|i: int|
                    0 <= i < items@.len() ==> {
                        &&& get(#[trigger] items@[i], "minimum_count"@) matches Some(Tree::Int(n)) && n == p.workers[i].minimum_count
                        &&& get(items@[i], "maximum_count"@) matches Some(Tree::Int(m)) && m == p.workers[i].maximum_count
                        &&& 1 <= p.workers[i].minimum_count <= p.workers[i].maximum_count
                        &&& get(items@[i], "role"@) matches Some(Tree::Str(r)) && r@ == p.workers[i].role
                        &&& get(items@[i], "platform_profile"@) matches Some(Tree::Str(f)) && f@ == p.workers[i].platform_profile
                        &&& get(items@[i], "can_spawn_subagents"@) == Some(Tree::Bool(p.workers[i].can_spawn_subagents))
                        &&& match get(items@[i], "model"@) {
                            None => p.workers[i].model is None,
                            Some(Tree::Str(m)) => p.workers[i].model == Some(m@),
                            _ => false,
                        }
                        &&& match get(items@[i], "reasoning"@) {
                            None => p.workers[i].reasoning_effort is None,
                            Some(Tree::Str(m)) => p.workers[i].reasoning_effort == Some(m@),
                            _ => false,
                        }
                    }
            },
            _ => p.workers.len() == 0,
        },
{
    let limits = sub_table(root, "limits"@)->Ok_0;
    let depth = count(limits, "max_depth"@)->Ok_0;
    match get(root, "workers"@) {
        Some(Tree::Array(items)) => {
            lemma_workers_one_per_table(items@, depth, p.workers);
            assert forall|i: int| 0 <= i < items@.len() implies {
                &&& get(#[trigger] items@[i], "minimum_count"@) matches Some(Tree::Int(n)) && n == p.workers[i].minimum_count
                &&& get(items@[i], "maximum_count"@) matches Some(Tree::Int(m)) && m == p.workers[i].maximum_count
                &&& 1 <= p.workers[i].minimum_count <= p.workers[i].maximum_count
                &&& get(items@[i], "role"@) matches Some(Tree::Str(r)) && r@ == p.workers[i].role
                &&& get(items@[i], "platform_profile"@) matches Some(Tree::Str(f)) && f@ == p.workers[i].platform_profile
                &&& get(items@[i], "can_spawn_subagents"@) == Some(Tree::Bool(p.workers[i].can_spawn_subagents))
                &&& match get(items@[i], "model"@) {
                    None => p.workers[i].model is None,
                    Some(Tree::Str(m)) => p.workers[i].model == Some(m@),
                    _ => false,
                }
                &&& match get(items@[i], "reasoning"@) {
                    None => p.workers[i].reasoning_effort is None,
                    Some(Tree::Str(m)) => p.workers[i].reasoning_effort == Some(m@),
                    _ => false,
                }
            } by {
                assert(worker_of(items@[i], i as nat, depth) == Ok::<WorkerView, Fault>(p.workers[i]));
            }
        },
        _ => {},
    }
}

} // verus!
