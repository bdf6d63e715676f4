//! The typed message protocol, teams and agent kinds.
//!
//! Identifiers (agents, threads) are carried as their hyphenated text and
//! instants as milliseconds since the Unix epoch.
use vstd::prelude::*;
use crate::text::{owned, str_eq};

verus! {

/// Priority of system-critical messages.
pub const CRITICAL_PRIORITY: u8 = 255;

/// A team of agents.
#[derive(Clone, Copy, Debug, PartialEq, Eq, Structural)]
pub enum Team {
    Red,
    Blue,
    Green,
}

/// Lifecycle status of an agent.
#[derive(Clone, Copy, Debug, PartialEq, Eq, Structural)]
pub enum AgentStatus {
    Idle,
    Working,
    Paused,
    Failed,
    Terminated,
    Laggard,
    Ghosted,
}

/// Kind of an artifact produced by an agent.
#[derive(Clone, Copy, Debug, PartialEq, Eq, Structural)]
pub enum ArtifactType {
    Code,
    Test,
    Documentation,
    Diagram,
    Config,
    Other,
}

/// The roles an agent can take, each on one team.
#[derive(Clone, Copy, Debug, PartialEq, Eq, Structural)]
pub enum AgentType {
    PenetrationTester,
    ChaosEngineer,
    PerformanceAnalyst,
    EdgeCaseMiner,
    TechnicalDebtor,
    FeatureImplementer,
    Refactorer,
    TestEngineer,
    DocumentationWriter,
    MigrationSpecialist,
    Architect,
    StandardsEnforcer,
    SecurityReviewer,
}

/// The team of a role.
pub open spec fn team_of(t: AgentType) -> Team {
    match t {
        AgentType::PenetrationTester | AgentType::ChaosEngineer | AgentType::PerformanceAnalyst
        | AgentType::EdgeCaseMiner | AgentType::TechnicalDebtor => Team::Red,
        AgentType::FeatureImplementer | AgentType::Refactorer | AgentType::TestEngineer
        | AgentType::DocumentationWriter | AgentType::MigrationSpecialist => Team::Blue,
        AgentType::Architect | AgentType::StandardsEnforcer | AgentType::SecurityReviewer => Team::Green,
    }
}

/// The toolbox names a role starts with.
pub open spec fn toolbox_of(t: AgentType) -> Seq<Seq<char>> {
    match t {
        AgentType::PenetrationTester => seq!["StaticAnalysis"@, "DependencyScanning"@, "Fuzzing"@, "GraphQuery"@],
        AgentType::ChaosEngineer => seq!["Sandboxing"@, "ProcessManagement"@, "PerformanceProfiling"@],
        AgentType::PerformanceAnalyst => seq!["PerformanceProfiling"@, "MetricsAnalysis"@, "GraphQuery"@, "VisualizationGeneration"@],
        AgentType::EdgeCaseMiner => seq!["Fuzzing"@, "Testing"@, "StaticAnalysis"@],
        AgentType::TechnicalDebtor => seq!["MetricsAnalysis"@, "StaticAnalysis"@, "GraphQuery"@, "DiagramGeneration"@],
        AgentType::FeatureImplementer => seq!["CodeGeneration"@, "FileManipulation"@, "Testing"@, "GitOperations"@, "BuildSystem"@],
        AgentType::Refactorer => seq!["Refactoring"@, "StaticAnalysis"@, "Testing"@, "GitOperations"@],
        AgentType::TestEngineer => seq!["Testing"@, "Fuzzing"@, "CodeGeneration"@, "PerformanceProfiling"@],
        AgentType::DocumentationWriter => seq!["FileManipulation"@, "GitOperations"@, "DiagramGeneration"@],
        AgentType::MigrationSpecialist => seq!["CodeGeneration"@, "Sandboxing"@, "GitOperations"@, "BuildSystem"@, "Testing"@],
        AgentType::Architect => seq!["GraphQuery"@, "MetricsAnalysis"@, "DiagramGeneration"@, "VisualizationGeneration"@, "GitHistory"@],
        AgentType::StandardsEnforcer => seq!["StaticAnalysis"@, "MetricsAnalysis"@],
        AgentType::SecurityReviewer => seq!["StaticAnalysis"@, "DependencyScanning"@, "GraphQuery"@, "GitHistory"@],
    }
}

fn names(items: &[&str]) -> (r: Vec<String>)
    ensures
        r@.len() == items@.len(),
        forall|i: int| 0 <= i < items@.len() ==> (#[trigger] r@[i])@ == items@[i]@,
{
    let mut out: Vec<String> = Vec::new();
    let mut i: usize = 0;
    while i < items.len()
        invariant
            i <= items@.len(),
            out@.len() == i,
            forall|k: int| 0 <= k < i ==> (#[trigger] out@[k])@ == items@[k]@,
        decreases items@.len() - i,
    {
        out.push(owned(items[i]));
        i = i + 1;
    }
    out
}

impl AgentType {
    /// The team this role belongs to.
    pub fn team(&self) -> (r: Team)
        ensures
            r == team_of(*self),
    {
        match self {
            AgentType::PenetrationTester | AgentType::ChaosEngineer | AgentType::PerformanceAnalyst
            | AgentType::EdgeCaseMiner | AgentType::TechnicalDebtor => Team::Red,
            AgentType::FeatureImplementer | AgentType::Refactorer | AgentType::TestEngineer
            | AgentType::DocumentationWriter | AgentType::MigrationSpecialist => Team::Blue,
            AgentType::Architect | AgentType::StandardsEnforcer | AgentType::SecurityReviewer => Team::Green,
        }
    }

    /// The toolbox names this role starts with.
    pub fn default_toolbox(&self) -> (r: Vec<String>)
        ensures
            r@.len() == toolbox_of(*self).len(),
            forall|i: int| 0 <= i < r@.len() ==> (#[trigger] r@[i])@ == toolbox_of(*self)[i],
    {
        let items: &[&str] = match self {
            AgentType::PenetrationTester => &["StaticAnalysis", "DependencyScanning", "Fuzzing", "GraphQuery"],
            AgentType::ChaosEngineer => &["Sandboxing", "ProcessManagement", "PerformanceProfiling"],
            AgentType::PerformanceAnalyst => &["PerformanceProfiling", "MetricsAnalysis", "GraphQuery", "VisualizationGeneration"],
            AgentType::EdgeCaseMiner => &["Fuzzing", "Testing", "StaticAnalysis"],
            AgentType::TechnicalDebtor => &["MetricsAnalysis", "StaticAnalysis", "GraphQuery", "DiagramGeneration"],
            AgentType::FeatureImplementer => &["CodeGeneration", "FileManipulation", "Testing", "GitOperations", "BuildSystem"],
            AgentType::Refactorer => &["Refactoring", "StaticAnalysis", "Testing", "GitOperations"],
            AgentType::TestEngineer => &["Testing", "Fuzzing", "CodeGeneration", "PerformanceProfiling"],
            AgentType::DocumentationWriter => &["FileManipulation", "GitOperations", "DiagramGeneration"],
            AgentType::MigrationSpecialist => &["CodeGeneration", "Sandboxing", "GitOperations", "BuildSystem", "Testing"],
            AgentType::Architect => &["GraphQuery", "MetricsAnalysis", "DiagramGeneration", "VisualizationGeneration", "GitHistory"],
            AgentType::StandardsEnforcer => &["StaticAnalysis", "MetricsAnalysis"],
            AgentType::SecurityReviewer => &["StaticAnalysis", "DependencyScanning", "GraphQuery", "GitHistory"],
        };
        names(items)
    }
}

/// The typed payload of a message.
#[derive(Clone, Debug)]
pub enum VoxPayload {
    TaskAssignment { task_id: String, description: String },
    Proposal { content: String },
    ConsensusUpdate { thread_id: String, state: String },
    Observation { content: String },
    SystemAlert { action: String, agent_id: Option<String>, reason: String },
    Ack { result: String },
}

/// A message on the blackboard; immutable once posted.
#[derive(Clone, Debug)]
pub struct VoxMessage {
    /// The message's 128-bit identifier.
    pub id: u128,
    pub sender: String,
    /// "red", "blue", "green" or "all".
    pub target_team: String,
    pub priority: u8,
    /// The thread the message belongs to.
    pub correlation_id: String,
    pub payload: VoxPayload,
    pub created_at: i64,
}

/// Relies on `uuid::Uuid::new_v4`: a random identifier, in its hyphenated
/// text form. Nothing is promised of its value.
#[verifier::external_body]
pub(crate) fn fresh_uuid() -> (r: String) {
    uuid::Uuid::new_v4().to_string()
}

/// Relies on `uuid::Uuid::new_v4` and `Uuid::as_u128`: a random 128-bit
/// identifier. Nothing is promised of its value.
#[verifier::external_body]
pub(crate) fn fresh_message_id() -> (r: u128) {
    uuid::Uuid::new_v4().as_u128()
}

/// A copy of an optional string.
pub fn clone_opt(s: &Option<String>) -> (r: Option<String>)
    ensures
        r == *s,
{
    match s {
        Some(v) => Some(v.clone()),
        None => None,
    }
}

/// A copy of a payload with the same fields.
pub fn clone_payload(p: &VoxPayload) -> (r: VoxPayload)
    ensures
        r == *p,
{
    match p {
        VoxPayload::TaskAssignment { task_id, description } => VoxPayload::TaskAssignment {
            task_id: task_id.clone(),
            description: description.clone(),
        },
        VoxPayload::Proposal { content } => VoxPayload::Proposal { content: content.clone() },
        VoxPayload::ConsensusUpdate { thread_id, state } => VoxPayload::ConsensusUpdate {
            thread_id: thread_id.clone(),
            state: state.clone(),
        },
        VoxPayload::Observation { content } => VoxPayload::Observation { content: content.clone() },
        VoxPayload::SystemAlert { action, agent_id, reason } => VoxPayload::SystemAlert {
            action: action.clone(),
            agent_id: clone_opt(agent_id),
            reason: reason.clone(),
        },
        VoxPayload::Ack { result } => VoxPayload::Ack { result: result.clone() },
    }
}

/// A copy of a message with the same fields.
pub fn clone_message(m: &VoxMessage) -> (r: VoxMessage)
    ensures
        r == *m,
{
    VoxMessage {
        id: m.id,
        sender: m.sender.clone(),
        target_team: m.target_team.clone(),
        priority: m.priority,
        correlation_id: m.correlation_id.clone(),
        payload: clone_payload(&m.payload),
        created_at: m.created_at,
    }
}

/// Whether a message addressed to `target` reaches a subscriber of team
/// channel `channel`: its own team's, or any team's when sent to "all".
pub open spec fn reaches(target: Seq<char>, channel: Seq<char>) -> bool {
    target == channel || target == "all"@ || channel == "all"@
}

/// Whether a message for `target` is delivered on channel `channel`.
pub fn delivered_on(target: &str, channel: &str) -> (r: bool)
    ensures
        r == reaches(target@, channel@),
{
    str_eq(target, channel) || str_eq(target, "all") || str_eq(channel, "all")
}

/// Kind and content of a message of the coordination protocol.
#[derive(Clone, Debug)]
pub enum MessageType {
    ExecuteTask { task_description: String },
    SpawnAgent { agent_type: String, toolbox: Vec<String> },
    DissolveAgent { agent_id: String },
    RequestContext { query: String },
    QueryKnowledgeGraph { query: String },
    GetConstraints { scope: String },
    ProposeSolution { solution: String },
    SuggestRefactor { refactor_plan: String },
    IdentifyRisk { risk_description: String },
    ApproveChange { change_id: String, rationale: String },
    RejectProposal { proposal_id: String, reason: String },
    RequestRevision { target_id: String, requested_changes: String },
    TaskComplete { task_id: String, result: String },
    ErrorOccurred { error: String, context: String },
    MilestoneReached { milestone: String },
}

/// Who a protocol message is for.
#[derive(Clone, Debug)]
pub enum MessageTarget {
    Team(Team),
    All,
    Agent(String),
}

/// A message of the coordination protocol.
#[derive(Clone, Debug)]
pub struct Message {
    pub id: String,
    /// Milliseconds since the Unix epoch.
    pub timestamp: i64,
    pub from_agent: String,
    pub to_team: MessageTarget,
    pub message_type: MessageType,
    pub thread_id: String,
    pub priority: u8,
    pub requires_response: bool,
}

/// Relies on `chrono::Utc::now`: the current instant in milliseconds since
/// the Unix epoch. Nothing is promised of its value.
#[verifier::external_body]
pub(crate) fn now_millis() -> (r: i64) {
    chrono::Utc::now().timestamp_millis()
}

impl Message {
    /// A message with a fresh id on a fresh thread, stamped now, needing no
    /// response.
    pub fn new(from_agent: String, to_team: MessageTarget, message_type: MessageType, priority: u8) -> (r: Self)
        ensures
            r.from_agent == from_agent,
            r.to_team == to_team,
            r.message_type == message_type,
            r.priority == priority,
            !r.requires_response,
    {
        Message {
            id: fresh_uuid(),
            timestamp: now_millis(),
            from_agent,
            to_team,
            message_type,
            thread_id: fresh_uuid(),
            priority,
            requires_response: false,
        }
    }

    /// The same message on thread `thread_id`.
    pub fn with_thread(self, thread_id: String) -> (r: Self)
        ensures
            r == (Message { thread_id, ..self }),
    {
        Message { thread_id, ..self }
    }

    /// The same message, now needing a response.
    pub fn requires_response(self) -> (r: Self)
        ensures
            r == (Message { requires_response: true, ..self }),
    {
        Message { requires_response: true, ..self }
    }
}

/// Severity of a constraint on the shared state.
#[derive(Clone, Copy, Debug, PartialEq, Eq, Structural)]
pub enum ConstraintSeverity {
    /// Must be satisfied.
    Error,
    /// Should be satisfied.
    Warning,
    /// Nice to have.
    Info,
}

/// A rule the agents' shared state is held to.
#[derive(Clone, Debug)]
pub struct Constraint {
    pub name: String,
    pub description: String,
    pub rule: String,
    pub applies_to: Vec<String>,
    pub severity: ConstraintSeverity,
}

/// A live subscription on the blackboard.
#[derive(Clone, Debug)]
pub struct SubscriptionHandle {
    pub id: String,
    pub query: String,
}

/// Figures of the blackboard.
#[derive(Clone, Debug)]
pub struct BlackboardStats {
    pub total_messages: usize,
    pub total_state_entries: usize,
    pub total_decisions: usize,
    pub db_path: String,
}

/// What a model returns when asked for code.
#[derive(Clone, Debug)]
pub struct CodeGenerationResponse {
    pub code: String,
    pub tests: Option<String>,
    pub explanation: String,
}

/// What a model returns when asked to critique code.
#[derive(Clone, Debug)]
pub struct CritiqueResponse {
    pub issues: Vec<String>,
    pub pass: bool,
    pub suggestions: Vec<String>,
}

} // verus!
