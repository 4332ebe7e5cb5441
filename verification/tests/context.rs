use bit_core::context::{extract_for_agent, extract_for_group};
use bit_core::index::{DocIndex, RefEntry, TaskEntry};

fn make_index() -> DocIndex {
    let mut idx = DocIndex::default();
    idx.tasks.push(TaskEntry {
        text: "Build API for @agent".to_string(),
        label: Some("A".to_string()),
        kind: "Required".to_string(),
        group_path: vec!["Backend".to_string()],
        assignee: Some("@agent".to_string()),
        gates: vec!["review".to_string()],
    });
    idx.tasks.push(TaskEntry {
        text: "Write frontend".to_string(),
        label: None,
        kind: "Open".to_string(),
        group_path: vec!["Frontend".to_string()],
        assignee: Some("@human".to_string()),
        gates: vec![],
    });
    idx.refs.push(RefEntry {
        path: vec!["Task".to_string(), "t1".to_string()],
        context: "mentions @agent in context".to_string(),
    });
    idx.variables
        .push(("budget".to_string(), "50000".to_string()));
    idx
}

#[test]
fn extract_for_agent_finds_assigned_tasks() {
    let idx = make_index();
    let ctx = extract_for_agent(&idx, "agent");
    assert_eq!(ctx.tasks.len(), 1);
    assert_eq!(ctx.tasks[0].text, "Build API for @agent");
}

#[test]
fn extract_for_agent_finds_refs() {
    let idx = make_index();
    let ctx = extract_for_agent(&idx, "agent");
    assert_eq!(ctx.related_refs.len(), 1);
    assert!(ctx.related_refs[0].contains("Task"));
}

#[test]
fn extract_for_agent_collects_gates() {
    let idx = make_index();
    let ctx = extract_for_agent(&idx, "agent");
    assert_eq!(ctx.active_gates, vec!["review"]);
}

#[test]
fn extract_for_agent_collects_variables() {
    let idx = make_index();
    let ctx = extract_for_agent(&idx, "agent");
    assert!(!ctx.variables.is_empty());
}

#[test]
fn extract_for_agent_no_match() {
    let idx = make_index();
    let ctx = extract_for_agent(&idx, "nobody");
    assert!(ctx.tasks.is_empty());
    assert!(ctx.related_refs.is_empty());
}

#[test]
fn extract_for_group_finds_tasks() {
    let idx = make_index();
    let ctx = extract_for_group(&idx, "Backend");
    assert_eq!(ctx.tasks.len(), 1);
    assert_eq!(ctx.tasks[0].text, "Build API for @agent");
}

#[test]
fn extract_for_group_no_match() {
    let idx = make_index();
    let ctx = extract_for_group(&idx, "Nonexistent");
    assert!(ctx.tasks.is_empty());
}

#[test]
fn context_window_target_is_set() {
    let idx = make_index();
    let ctx = extract_for_agent(&idx, "agent");
    assert_eq!(ctx.target, "agent");
}

#[test]
fn context_variables_keep_last_value_once() {
    let mut idx = make_index();
    idx.variables.push(("budget".to_string(), "60000".to_string()));
    idx.variables.push(("team".to_string(), "core".to_string()));
    let ctx = extract_for_agent(&idx, "agent");
    assert_eq!(
        ctx.variables,
        vec![
            ("budget".to_string(), "60000".to_string()),
            ("team".to_string(), "core".to_string())
        ]
    );
    assert_eq!(ctx.related_refs, vec!["@Task:t1".to_string()]);
}

#[test]
fn agent_context_carries_the_index_variables() {
    let doc = bit_core::parse::parse("x = 1\n# G\n    y = 2\n    x = 3").unwrap();
    let idx = DocIndex::build(&doc);
    let ctx = extract_for_agent(&idx, "nobody");
    assert_eq!(ctx.variables, idx.variables);
}
