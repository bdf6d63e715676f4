use zed42::vox::{AgentType, Team};

#[test]
fn test_agent_team_assignment() {
    assert_eq!(AgentType::PenetrationTester.team(), Team::Red);
    assert_eq!(AgentType::FeatureImplementer.team(), Team::Blue);
    assert_eq!(AgentType::Architect.team(), Team::Green);
}

use zed42::agent::{Agent, AgentState, Artifact, Task};
use zed42::cortex::{decide, is_milestone, memory_query_text, pulse_jitter_secs};
use zed42::vox::{AgentStatus, VoxMessage, VoxPayload};

#[test]
fn test_agent_creation() {
    let agent = Agent::new(AgentType::FeatureImplementer, None);
    assert_eq!(agent.team(), Team::Blue);
    assert!(!agent.toolbox.is_empty());
    assert_eq!(agent.status, AgentStatus::Idle);
}

#[test]
fn test_agent_state_transitions() {
    let state = AgentState::Idle;
    assert!(state.can_accept_task());
    let task = Task::new("Test task".to_string());
    let state = state.start_processing(task).unwrap();
    assert!(!state.can_accept_task());
    let artifact = Artifact::code("task-1".to_string(), "fn foo() {}".to_string(), None);
    let state = state.submit_for_review(artifact).unwrap();
    assert!(!state.can_accept_task());
    let state = state.approve().unwrap();
    assert!(matches!(state, AgentState::Done(_)));
}

#[test]
fn test_invalid_state_transition() {
    let state = AgentState::Idle;
    let artifact = Artifact::code("task-1".to_string(), "fn foo() {}".to_string(), None);
    let result = state.submit_for_review(artifact);
    assert!(result.is_err());
}

#[test]
fn toolboxes_by_role() {
    assert_eq!(AgentType::StandardsEnforcer.default_toolbox(), vec!["StaticAnalysis", "MetricsAnalysis"]);
    assert_eq!(AgentType::ChaosEngineer.team(), Team::Red);
    assert_eq!(AgentType::SecurityReviewer.team(), Team::Green);
}

fn vox(payload: VoxPayload) -> VoxMessage {
    VoxMessage {
        id: 0,
        sender: "boss".to_string(),
        target_team: "blue".to_string(),
        priority: 5,
        correlation_id: "th".to_string(),
        payload,
        created_at: 0,
    }
}

#[test]
fn cognitive_decisions() {
    let task = vox(VoxPayload::TaskAssignment { task_id: "t9".to_string(), description: "do it".to_string() });
    let ack = decide(&task).unwrap();
    assert_eq!(ack.to_agent, "boss");
    assert_eq!(ack.thread_id, "th");
    assert_eq!(ack.task_id, "t9");
    assert_eq!(ack.priority, 2);
    assert_eq!(memory_query_text(&task), "do it");
    let alert = vox(VoxPayload::SystemAlert { action: "x".to_string(), agent_id: None, reason: "y".to_string() });
    assert!(decide(&alert).is_none());
    assert_eq!(memory_query_text(&alert), "general coordination");
    assert!(is_milestone(&vox(VoxPayload::Ack { result: "done".to_string() })));
    assert!(!is_milestone(&task));
    assert_eq!(pulse_jitter_secs(7), 3);
    assert_eq!(pulse_jitter_secs(u64::MAX), u64::MAX % 5 + 1);
}

use zed42::vox::{Message, MessageTarget, MessageType};

#[test]
fn test_message_creation() {
    let agent_id = "0b5f3c1e-8d2a-4e7b-9c61-2f4a8e9d7b30".to_string();
    let msg = Message::new(
        agent_id.clone(),
        MessageTarget::Team(Team::Red),
        MessageType::ExecuteTask { task_description: "Test task".to_string() },
        5,
    );
    assert_eq!(msg.from_agent, agent_id);
    assert_eq!(msg.priority, 5);
    assert!(!msg.requires_response);
    let msg = msg.with_thread("t-1".to_string()).requires_response();
    assert_eq!(msg.thread_id, "t-1");
    assert!(msg.requires_response);
}
