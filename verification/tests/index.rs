use bit_core::index::{extract_assignee, extract_group_assignee, DocIndex};
use bit_core::parse;
use bit_core::types::{Atom, Inline, Ref};

fn build_from_src(src: &str) -> DocIndex {
    let doc = parse::parse(src).expect("parse failed");
    DocIndex::build(&doc)
}

#[test]
fn index_groups() {
    let idx = build_from_src("# Alpha\n\n## Beta");
    assert_eq!(idx.groups.len(), 2);
    assert_eq!(idx.groups[0].name, "Alpha");
    assert_eq!(idx.groups[0].depth, 1);
    assert_eq!(idx.groups[1].name, "Beta");
    assert_eq!(idx.groups[1].depth, 2);
}

#[test]
fn index_tasks() {
    let idx = build_from_src("# Project\n\n    [!] Ship it\n    [o] Nice to have");
    assert_eq!(idx.tasks.len(), 2);
    assert_eq!(idx.tasks[0].text, "Ship it");
    assert_eq!(idx.tasks[0].kind, "Required");
    assert_eq!(idx.tasks[1].kind, "Optional");
}

#[test]
fn index_task_in_group_path() {
    let idx = build_from_src("# Alpha\n\n    [!] Do thing");
    assert_eq!(idx.tasks[0].group_path, vec!["Alpha"]);
}

#[test]
fn index_mod_def() {
    let idx = build_from_src("mod:$Summarizer\n    kind: :guide");
    assert_eq!(idx.mods.len(), 1);
    assert_eq!(idx.mods[0].name, "Summarizer");
}

#[test]
fn index_flow() {
    let idx = build_from_src("flow:\n    A --> B --> C");
    assert_eq!(idx.flows.len(), 1);
    assert!(!idx.flows[0].edges.is_empty());
}

#[test]
fn index_validators() {
    let idx = build_from_src("validate code-review:\n    [!] Check");
    assert_eq!(idx.validators, vec!["code-review"]);
}

#[test]
fn index_forms() {
    let idx = build_from_src("form:intake\n    company: \"\"\n    budget: 0");
    assert_eq!(idx.forms, vec!["intake"]);
}

#[test]
fn index_variables() {
    let idx = build_from_src("target = 500000");
    assert!(idx.variable("target").is_some());
    assert_eq!(idx.variable("target").unwrap(), "500000");
}

#[test]
fn index_remembers() {
    let idx = build_from_src("remember: \"important fact\"");
    assert_eq!(idx.remembers, vec!["important fact"]);
}

#[test]
fn index_recalls() {
    let idx = build_from_src("recall: \"find something\"");
    assert_eq!(idx.recalls, vec!["find something"]);
}

#[test]
fn index_embed_markers() {
    let idx = build_from_src("^my_tag");
    assert_eq!(idx.embed_markers, vec!["my_tag"]);
}

#[test]
fn index_escalations() {
    let idx = build_from_src("escalate: manager");
    assert_eq!(idx.escalations, vec!["manager"]);
}

#[test]
fn index_empty_doc() {
    let idx = build_from_src("");
    assert!(idx.groups.is_empty());
    assert!(idx.tasks.is_empty());
}

#[test]
fn extract_assignee_from_ref() {
    let inlines = vec![Inline::Ref(Ref {
        path: vec!["agent".to_string()],
        plural: false,
        mod_scope: None,
        workspace_scope: None,
    })];
    assert_eq!(extract_assignee(&inlines), Some("@agent".to_string()));
}

#[test]
fn extract_assignee_from_multi_part_ref() {
    let inlines = vec![Inline::Ref(Ref {
        path: vec!["team".to_string(), "alice".to_string()],
        plural: false,
        mod_scope: None,
        workspace_scope: None,
    })];
    assert_eq!(extract_assignee(&inlines), Some("@team:alice".to_string()));
}

#[test]
fn extract_assignee_none() {
    let inlines = vec![Inline::Text {
        value: "just text".to_string(),
    }];
    assert!(extract_assignee(&inlines).is_none());
}

#[test]
fn group_assignee_from_atom_name() {
    let atoms = vec![Atom {
        name: "@alice".to_string(),
        value: None,
    }];
    assert_eq!(extract_group_assignee(&atoms), Some("@alice".to_string()));
}

#[test]
fn group_assignee_from_atom_value() {
    let atoms = vec![Atom {
        name: "assigned".to_string(),
        value: Some("@bob".to_string()),
    }];
    assert_eq!(extract_group_assignee(&atoms), Some("@bob".to_string()));
}

#[test]
fn group_assignee_none() {
    let atoms = vec![Atom {
        name: "status".to_string(),
        value: None,
    }];
    assert!(extract_group_assignee(&atoms).is_none());
}

#[test]
fn assignment_inheritance() {
    let src = "# Team :@alice\n\n    [!] Unassigned task";
    let idx = build_from_src(src);
    assert_eq!(idx.tasks[0].assignee, Some("@alice".to_string()));
}

#[test]
fn index_scoped_variable_in_group() {
    let idx = build_from_src("# Budget\n    cap = 10");
    assert_eq!(idx.variable("Budget:cap"), Some("10".to_string()));
    assert_eq!(idx.variable("cap"), Some("10".to_string()));
    assert_eq!(idx.variable("missing"), None);
}

#[test]
fn index_task_assignee_from_ref_in_text() {
    let idx = build_from_src("# Ops\n    [!] Review @team:bob");
    assert_eq!(idx.tasks[0].assignee, Some("@team:bob".to_string()));
}

#[test]
fn index_file_scopes_and_policies() {
    let idx = build_from_src("# Core\n    files:\n        @src/core/\n    policy:\n        @./src/core/: {review}");
    assert_eq!(idx.file_scopes.len(), 1);
    assert_eq!(idx.file_scopes[0].paths, vec!["src/core/".to_string()]);
    assert_eq!(idx.file_scopes[0].group_path, vec!["Core".to_string()]);
    assert_eq!(idx.policies.len(), 1);
    assert_eq!(idx.policies[0].rules, vec![("./src/core/".to_string(), vec!["review".to_string()])]);
    assert_eq!(idx.policies[0].group_path, vec!["Core".to_string()]);
}

#[test]
fn index_variables_hold_each_name_once() {
    let idx = build_from_src("x = 1\nx = 2\n# G\n    y = 3");
    assert_eq!(
        idx.variables,
        vec![
            ("x".to_string(), "2".to_string()),
            ("G:y".to_string(), "3".to_string()),
            ("y".to_string(), "3".to_string()),
        ]
    );
}
