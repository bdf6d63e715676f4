use zed42::agent::{AgentState, Task};
use zed42::reflexion::{build_prompt, critique_prompt, ConstrainedSession, FeatureImplementer, ReflexionStep};
use zed42::router::RetryCause;
use zed42::vox::CodeGenerationResponse;

fn code(c: &str) -> CodeGenerationResponse {
    CodeGenerationResponse { code: c.to_string(), tests: None, explanation: "e".to_string() }
}

#[test]
fn prompt_text() {
    let t = Task::new("Add".to_string()).with_context("math".to_string()).with_constraint("no unwrap".to_string()).with_constraint("pure".to_string());
    assert_eq!(
        build_prompt(&t),
        "Task: Add\n\nContext: math\n\nConstraints:\n- no unwrap\n- pure\n\nImplement the task as described."
    );
    assert_eq!(build_prompt(&Task::new("X".to_string())), "Task: X\n\nImplement the task as described.");
    assert!(critique_prompt(&t, "fn a() {}").contains("```rust\nfn a() {}\n```"));
}

#[test]
fn reflexion_passes_on_first_critique() {
    let mut agent = FeatureImplementer::new("ag".to_string());
    let step = agent.start(Task::new("Create a function that adds two numbers".to_string()));
    assert!(matches!(step, ReflexionStep::Generate(_)));
    let step = agent.on_generated(code("fn add(a: i32, b: i32) -> i32 { a + b }"));
    assert!(matches!(step, ReflexionStep::Critique(_)));
    match agent.on_critique(true, &Vec::new()) {
        ReflexionStep::Submitted(a) => assert_eq!(a.content, "fn add(a: i32, b: i32) -> i32 { a + b }"),
        other => panic!("unexpected {:?}", other),
    }
    assert!(matches!(agent.state, AgentState::AwaitingReview(_)));
    assert!(matches!(agent.start(Task::new("again".to_string())), ReflexionStep::Failed(_)));
}

#[test]
fn reflexion_feeds_issues_back_and_stops_after_the_last_round() {
    let mut agent = FeatureImplementer::new("ag".to_string()).with_max_iterations(2);
    agent.start(Task::new("T".to_string()));
    agent.on_generated(code("v1"));
    match agent.on_critique(false, &vec!["too long".to_string(), "no docs".to_string()]) {
        ReflexionStep::Generate(p) => assert!(p.ends_with("issues:\ntoo long\nno docs\nPlease fix these and provide a new implementation.")),
        other => panic!("unexpected {:?}", other),
    }
    agent.on_generated(code("v2"));
    match agent.on_critique(false, &vec!["still bad".to_string()]) {
        ReflexionStep::Submitted(a) => assert_eq!(a.content, "v2"),
        other => panic!("unexpected {:?}", other),
    }
}

#[test]
fn constrained_retries_carry_the_error() {
    let mut s = ConstrainedSession::new(1, true);
    assert_eq!(s.user_prompt("P", "I"), "P\n\nI");
    assert!(s.retry_cause().is_none());
    assert!(s.on_parse_failure("expected value"));
    assert_eq!(s.user_prompt("P", "I"), "P\n\nI\n\nPrevious attempt failed with: JSON parse error: expected value. Please fix and try again.");
    assert!(matches!(s.retry_cause(), Some(RetryCause::ValidationFailure)));
    assert!(!s.on_parse_failure("again"));
    let standard = ConstrainedSession::standard();
    assert_eq!(standard.max_retries, 3);
    let mut quiet = ConstrainedSession::new(0, false);
    assert!(!quiet.on_parse_failure("x"));
    assert_eq!(quiet.user_prompt("P", "I"), "P\n\nI");
}
