//! Agents, the tasks they take and the artifacts they produce, and the
//! lifecycle every worker goes through: idle, processing, awaiting review,
//! done, or failed.
use vstd::prelude::*;
use crate::text::owned;
use crate::vox::{AgentStatus, AgentType, ArtifactType, Team, fresh_uuid, now_millis, team_of, toolbox_of};

verus! {

/// A task assigned to an agent.
#[derive(Clone, Debug)]
pub struct Task {
    pub id: String,
    pub description: String,
    pub context: Option<String>,
    pub constraints: Vec<String>,
    pub created_at: i64,
}

impl Task {
    /// A task with a fresh id, created now.
    pub fn new(description: String) -> (r: Self)
        ensures
            r.description == description,
            r.context is None,
            r.constraints@.len() == 0,
    {
        Task { id: fresh_uuid(), description, context: None, constraints: Vec::new(), created_at: now_millis() }
    }

    /// The same task with `context`.
    pub fn with_context(self, context: String) -> (r: Self)
        ensures
            r == (Task { context: Some(context), ..self }),
    {
        Task { context: Some(context), ..self }
    }

    /// The same task with one more constraint.
    pub fn with_constraint(self, constraint: String) -> (r: Self)
        ensures
            r.constraints@ == self.constraints@.push(constraint),
            r.id == self.id,
            r.description == self.description,
            r.context == self.context,
            r.created_at == self.created_at,
    {
        let mut t = self;
        t.constraints.push(constraint);
        t
    }
}

/// Something an agent produced for a task.
#[derive(Clone, Debug)]
pub struct Artifact {
    pub id: String,
    pub task_id: String,
    pub artifact_type: ArtifactType,
    pub content: String,
    pub file_path: Option<String>,
    pub created_at: i64,
}

impl Artifact {
    /// A code artifact with a fresh id, created now.
    pub fn code(task_id: String, content: String, file_path: Option<String>) -> (r: Self)
        ensures
            r.task_id == task_id,
            r.content == content,
            r.file_path == file_path,
            r.artifact_type == ArtifactType::Code,
    {
        Artifact { id: fresh_uuid(), task_id, artifact_type: ArtifactType::Code, content, file_path, created_at: now_millis() }
    }
}

/// A worker agent.
#[derive(Clone, Debug)]
pub struct Agent {
    pub id: String,
    pub agent_type: AgentType,
    pub status: AgentStatus,
    pub toolbox: Vec<String>,
    pub spawned_by: Option<String>,
    pub created_at: i64,
}

impl Agent {
    /// An idle agent of `agent_type` with a fresh id and its role's toolbox.
    pub fn new(agent_type: AgentType, spawned_by: Option<String>) -> (r: Self)
        ensures
            r.agent_type == agent_type,
            r.status == AgentStatus::Idle,
            r.toolbox@.map_values(|s: String| s@) == toolbox_of(agent_type),
            r.spawned_by == spawned_by,
    {
        let toolbox = agent_type.default_toolbox();
        proof {
            assert(toolbox@.map_values(|s: String| s@) =~= toolbox_of(agent_type));
        }
        Agent { id: fresh_uuid(), agent_type, status: AgentStatus::Idle, toolbox, spawned_by, created_at: now_millis() }
    }

    /// The team of this agent's role.
    pub fn team(&self) -> (r: Team)
        ensures
            r == team_of(self.agent_type),
    {
        self.agent_type.team()
    }
}

/// Where a worker stands in its lifecycle.
#[derive(Clone, Debug)]
pub enum AgentState {
    Idle,
    Processing(Task),
    AwaitingReview(Artifact),
    Done(Artifact),
    Failed(String),
}

impl AgentState {
    /// Whether a new task can be taken: only when idle.
    pub fn can_accept_task(&self) -> (r: bool)
        ensures
            r == (*self is Idle),
    {
        match self {
            AgentState::Idle => true,
            _ => false,
        }
    }

    /// Idle to processing `task`; refused from any other state.
    pub fn start_processing(self, task: Task) -> (r: Result<Self, String>)
        ensures
            self is Idle ==> r == Ok::<AgentState, String>(AgentState::Processing(task)),
            !(self is Idle) ==> r is Err,
    {
        match self {
            AgentState::Idle => Ok(AgentState::Processing(task)),
            _ => Err(owned("Can only start processing from Idle state")),
        }
    }

    /// Processing to awaiting review of `artifact`; refused from any other state.
    pub fn submit_for_review(self, artifact: Artifact) -> (r: Result<Self, String>)
        ensures
            self is Processing ==> r == Ok::<AgentState, String>(AgentState::AwaitingReview(artifact)),
            !(self is Processing) ==> r is Err,
    {
        match self {
            AgentState::Processing(_) => Ok(AgentState::AwaitingReview(artifact)),
            _ => Err(owned("Can only submit for review from Processing state")),
        }
    }

    /// Awaiting review to done with the same artifact; refused from any other state.
    pub fn approve(self) -> (r: Result<Self, String>)
        ensures
            match self {
                AgentState::AwaitingReview(a) => r == Ok::<AgentState, String>(AgentState::Done(a)),
                _ => r is Err,
            },
    {
        match self {
            AgentState::AwaitingReview(artifact) => Ok(AgentState::Done(artifact)),
            _ => Err(owned("Can only approve from AwaitingReview state")),
        }
    }
}

/// Whether two tasks hold the same fields.
pub open spec fn same_task(a: Task, b: Task) -> bool {
    a.id == b.id && a.description == b.description && a.context == b.context && a.constraints@ == b.constraints@
        && a.created_at == b.created_at
}

/// A copy of a task with the same fields.
pub fn clone_task(t: &Task) -> (r: Task)
    ensures
        same_task(r, *t),
{
    let mut constraints: Vec<String> = Vec::new();
    let mut i: usize = 0;
    while i < t.constraints.len()
        invariant
            i <= t.constraints@.len(),
            constraints@ == t.constraints@.subrange(0, i as int),
        decreases t.constraints@.len() - i,
    {
        constraints.push(t.constraints[i].clone());
        proof {
            assert(t.constraints@.subrange(0, i as int + 1) =~= t.constraints@.subrange(0, i as int).push(t.constraints@[i as int]));
        }
        i = i + 1;
    }
    proof {
        assert(t.constraints@.subrange(0, i as int) =~= t.constraints@);
    }
    Task {
        id: t.id.clone(),
        description: t.description.clone(),
        context: crate::vox::clone_opt(&t.context),
        constraints,
        created_at: t.created_at,
    }
}

/// A copy of an artifact with the same fields.
pub fn clone_artifact(a: &Artifact) -> (r: Artifact)
    ensures
        r == *a,
{
    Artifact {
        id: a.id.clone(),
        task_id: a.task_id.clone(),
        artifact_type: a.artifact_type,
        content: a.content.clone(),
        file_path: crate::vox::clone_opt(&a.file_path),
        created_at: a.created_at,
    }
}

/// A copy of a lifecycle state in the same phase with the same fields.
pub fn clone_state(s: &AgentState) -> (r: AgentState)
    ensures
        match *s {
            AgentState::Processing(t) => r matches AgentState::Processing(t2) && same_task(t2, t),
            _ => r == *s,
        },
{
    match s {
        AgentState::Idle => AgentState::Idle,
        AgentState::Processing(t) => AgentState::Processing(clone_task(t)),
        AgentState::AwaitingReview(a) => AgentState::AwaitingReview(clone_artifact(a)),
        AgentState::Done(a) => AgentState::Done(clone_artifact(a)),
        AgentState::Failed(m) => AgentState::Failed(m.clone()),
    }
}

} // verus!
