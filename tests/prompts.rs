use zed42::prompts::{replace_str, CommonPrompts, PromptTemplate};

#[test]
fn test_prompt_template_extraction() {
    let template = PromptTemplate::new("Hello {{name}}, you are {{age}} years old.".to_string());
    let vars = template.variables();
    assert_eq!(vars.len(), 2);
    assert!(vars.contains(&"name".to_string()));
    assert!(vars.contains(&"age".to_string()));
}

#[test]
fn test_prompt_template_render() {
    let template = PromptTemplate::new("Hello {{name}}!".to_string());
    let values = vec![("name".to_string(), "World".to_string())];
    let result = template.render(&values).unwrap();
    assert_eq!(result, "Hello World!");
}

#[test]
fn test_prompt_template_missing_variable() {
    let template = PromptTemplate::new("Hello {{name}}!".to_string());
    let values = Vec::new();
    let result = template.render(&values);
    assert!(result.is_err());
    assert!(result.unwrap_err().contains("Missing required variable"));
}

#[test]
fn test_common_prompts() {
    let code_review = CommonPrompts::code_review();
    assert!(code_review.variables().contains(&"language".to_string()));
    assert!(code_review.variables().contains(&"code".to_string()));
    let decision = CommonPrompts::decision();
    assert!(decision.variables().contains(&"decision_topic".to_string()));
    let decompose = CommonPrompts::decompose_task();
    assert!(decompose.variables().contains(&"task".to_string()));
    let risk = CommonPrompts::risk_analysis();
    assert!(risk.variables().contains(&"proposal".to_string()));
}

#[test]
fn variables_are_listed_once_in_order() {
    let t = PromptTemplate::new("{{b}} {{a}} {{b}} {{}} {{open".to_string());
    assert_eq!(t.variables(), &vec!["b".to_string(), "a".to_string()]);
    let t = PromptTemplate::new("{{x}y}}".to_string());
    assert_eq!(t.variables(), &vec!["xy".to_string()]);
    let t = PromptTemplate::new("{ {a}} {{".to_string());
    assert!(t.variables().is_empty());
}

#[test]
fn render_fills_every_occurrence_and_names_the_first_missing() {
    let t = PromptTemplate::new("{{a}}+{{a}}={{b}}".to_string());
    let ok = t.render(&vec![("a".to_string(), "1".to_string()), ("b".to_string(), "2".to_string())]).unwrap();
    assert_eq!(ok, "1+1=2");
    let err = t.render(&vec![("b".to_string(), "2".to_string())]).unwrap_err();
    assert_eq!(err, "Missing required variable: a");
}

#[test]
fn replacement() {
    assert_eq!(replace_str("aaa", "aa", "b"), "ba");
    assert_eq!(replace_str("abc", "", "x"), "abc");
    assert_eq!(replace_str("héllo wörld", "ö", "o"), "héllo world");
}
