use zed42::toolbox::{Toolbox, ToolboxRegistry};

#[test]
fn test_toolbox_registry() {
    let registry = ToolboxRegistry::new();
    let toolbox = registry.get("CodeGeneration");
    assert!(toolbox.is_some());
    assert!(!toolbox.unwrap().tools.is_empty());
}

#[test]
fn test_agent_toolbox_retrieval() {
    let registry = ToolboxRegistry::new();
    let toolbox_names = vec!["CodeGeneration".to_string(), "Testing".to_string()];
    let tools = registry.get_tools_for_agent(&toolbox_names);
    assert!(!tools.is_empty());
}

#[test]
fn tools_come_in_order_and_unknown_names_are_skipped() {
    let mut registry = ToolboxRegistry::new();
    let names = vec!["Shell".to_string(), "Nope".to_string(), "BuildSystem".to_string()];
    assert_eq!(registry.get_tools_for_agent(&names), vec!["execute_command", "compile", "link", "package"]);
    registry.register(Toolbox { name: "Shell".to_string(), tools: vec!["sh".to_string()] });
    assert_eq!(registry.get("Shell").unwrap().tools, vec!["sh".to_string()]);
    assert!(registry.get("Nope").is_none());
}
