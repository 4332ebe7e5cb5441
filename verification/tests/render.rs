use bit_core::parse;
use bit_core::render::{render, render_field_def};
use bit_core::types::{
    Bold, CodeBlock, Comment, Define, Delete, Document, FieldDef, FieldDefault, Group, Mutate, Node,
    Priority, Prose, RecallOp, Remember, Spawn, Task, TaskKind, TaskMarker, TaskPrefix, VarValue,
    Variable,
};

fn roundtrip(src: &str) -> String {
    let doc = parse::parse(src).expect("parse failed");
    render(&doc)
}

#[test]
fn render_group() {
    let doc = Document {
        nodes: vec![Node::Group(Group {
            depth: 1,
            name: "My Project".to_string(),
            atoms: vec![],
            gates: vec![],
            children: vec![],
        })], ..Default::default()
    };
    let result = render(&doc);
    assert!(result.contains("# My Project"));
}

#[test]
fn render_task() {
    let doc = Document {
        nodes: vec![Node::Task(Task {
            marker: TaskMarker {
                kind: TaskKind::Required,
                priority: Priority::Required,
                prefix: TaskPrefix::Unset,
                seq: None,
            },
            label: None,
            text: "Build API".to_string(),
            inline: vec![],
            gates: vec![],
            children: vec![],
            on_pass: None,
            on_fail: None,
            match_arms: None,
            closes: None,
            depends: None,
            validate: None,
            status: None,
        })], ..Default::default()
    };
    let result = render(&doc);
    assert!(result.contains("[!] Build API"));
}

#[test]
fn render_optional_task() {
    let doc = Document {
        nodes: vec![Node::Task(Task {
            marker: TaskMarker {
                kind: TaskKind::Optional,
                priority: Priority::Optional,
                prefix: TaskPrefix::Unset,
                seq: None,
            },
            label: None,
            text: "Nice to have".to_string(),
            inline: vec![],
            gates: vec![],
            children: vec![],
            on_pass: None,
            on_fail: None,
            match_arms: None,
            closes: None,
            depends: None,
            validate: None,
            status: None,
        })], ..Default::default()
    };
    let result = render(&doc);
    assert!(result.contains("[o] Nice to have"));
}

#[test]
fn render_completed_task() {
    let doc = Document {
        nodes: vec![Node::Task(Task {
            marker: TaskMarker {
                kind: TaskKind::Completed,
                priority: Priority::Unset,
                prefix: TaskPrefix::Unset,
                seq: None,
            },
            label: None,
            text: "Done thing".to_string(),
            inline: vec![],
            gates: vec![],
            children: vec![],
            on_pass: None,
            on_fail: None,
            match_arms: None,
            closes: None,
            depends: None,
            validate: None,
            status: None,
        })], ..Default::default()
    };
    let result = render(&doc);
    assert!(result.contains("[x] Done thing"));
}

#[test]
fn render_prose() {
    let doc = Document {
        nodes: vec![Node::Prose(Prose {
            text: "Hello world".to_string(),
            inline: vec![],
        })], ..Default::default()
    };
    let result = render(&doc);
    assert!(result.contains("Hello world"));
}

#[test]
fn render_comment() {
    let doc = Document {
        nodes: vec![Node::Comment(Comment {
            text: "A note".to_string(),
        })], ..Default::default()
    };
    let result = render(&doc);
    assert!(result.contains("// A note"));
}

#[test]
fn render_divider() {
    let doc = Document {
        nodes: vec![Node::Divider], ..Default::default()
    };
    let result = render(&doc);
    assert!(result.contains("---"));
}

#[test]
fn render_define() {
    let doc = Document {
        nodes: vec![Node::Define(Define {
            entity: "Task".to_string(),
            atoms: vec![],
            fields: vec![FieldDef {
                name: "title".to_string(),
                plural: false,
                default: FieldDefault::Str("".to_string()),
            }],
            from_scope: None,
            mod_scope: None,
            workspace_scope: None,
        })], ..Default::default()
    };
    let result = render(&doc);
    assert!(result.contains("define:@Task"));
    assert!(result.contains("title: \"\""));
}

#[test]
fn render_mutate() {
    let doc = Document {
        nodes: vec![Node::Mutate(Mutate {
            entity: "Task".to_string(),
            id: Some("t1".to_string()),
            gate: None,
            fields: vec![("title".to_string(), "Ship it".to_string())],
            batch: None,
            mod_scope: None,
            workspace_scope: None,
        })], ..Default::default()
    };
    let result = render(&doc);
    assert!(result.contains("mutate:@Task:t1"));
    assert!(result.contains("title: Ship it"));
}

#[test]
fn render_delete() {
    let doc = Document {
        nodes: vec![Node::Delete(Delete {
            entity: "Task".to_string(),
            id: "old".to_string(),
            mod_scope: None,
            workspace_scope: None,
        })], ..Default::default()
    };
    let result = render(&doc);
    assert!(result.contains("delete:@Task:old"));
}

#[test]
fn render_variable_literal() {
    let doc = Document {
        nodes: vec![Node::Variable(Variable {
            name: "target".to_string(),
            value: VarValue::Literal("100".to_string()),
        })], ..Default::default()
    };
    let result = render(&doc);
    assert!(result.contains("target = 100"));
}

#[test]
fn render_remember() {
    let doc = Document {
        nodes: vec![Node::Remember(Remember {
            content: "important fact".to_string(),
        })], ..Default::default()
    };
    let result = render(&doc);
    assert!(result.contains("remember: \"important fact\""));
}

#[test]
fn render_recall() {
    let doc = Document {
        nodes: vec![Node::Recall(RecallOp {
            query: "find that fact".to_string(),
        })], ..Default::default()
    };
    let result = render(&doc);
    assert!(result.contains("recall: \"find that fact\""));
}

#[test]
fn render_spawn_parallel() {
    let doc = Document {
        nodes: vec![Node::Spawn(Spawn::Parallel)], ..Default::default()
    };
    let result = render(&doc);
    assert!(result.contains("+"));
}

#[test]
fn render_bold() {
    let doc = Document {
        nodes: vec![Node::Bold(Bold {
            text: "Important".to_string(),
        })], ..Default::default()
    };
    let result = render(&doc);
    assert!(result.contains("**Important**"));
}

#[test]
fn render_code_block() {
    let doc = Document {
        nodes: vec![Node::CodeBlock(CodeBlock {
            lang: Some("python".to_string()),
            content: "print('hello')".to_string(),
        })], ..Default::default()
    };
    let result = render(&doc);
    assert!(result.contains("```python"));
    assert!(result.contains("print('hello')"));
    assert!(result.contains("```"));
}

#[test]
fn render_field_def_plural() {
    let mut out = String::new();
    render_field_def(
        &FieldDef {
            name: "tag".to_string(),
            plural: true,
            default: FieldDefault::List,
        },
        &mut out,
    );
    assert!(out.contains("tag(s): []"));
}

#[test]
fn render_field_def_enum() {
    let mut out = String::new();
    render_field_def(
        &FieldDef {
            name: "state".to_string(),
            plural: false,
            default: FieldDefault::Enum(vec!["todo".to_string(), "done".to_string()]),
        },
        &mut out,
    );
    assert!(out.contains(":todo/:done"));
}

#[test]
fn roundtrip_group() {
    let result = roundtrip("# My Group");
    assert!(result.contains("# My Group"));
}

#[test]
fn roundtrip_define() {
    let src = "define:@Task\n    title: \"\"";
    let result = roundtrip(src);
    assert!(result.contains("define:@Task"));
    assert!(result.contains("title: \"\""));
}

#[test]
fn roundtrip_mutate() {
    let src = "mutate:@Task:t1\n    title: Ship it";
    let result = roundtrip(src);
    assert!(result.contains("mutate:@Task:t1"));
    assert!(result.contains("title: Ship it"));
}

#[test]
fn roundtrip_issue() {
    let src = "issue: Fix auth bug\n    status: :open\n    priority: :high";
    let result = roundtrip(src);
    assert!(result.contains("issue: Fix auth bug"));
    assert!(result.contains("status: :open"));
    assert!(result.contains("priority: :high"));
}

#[test]
fn roundtrip_thread_comment() {
    let src = "comment:\n    author: @User:alice\n    body: \"Hello world\"";
    let result = roundtrip(src);
    assert!(result.contains("comment:"));
    assert!(result.contains("author: @User:alice"));
    assert!(result.contains("body: \"Hello world\""));
}

#[test]
fn render_nested_group_indents_children() {
    let result = roundtrip("# A\n    [!] Child task\n    note here");
    assert_eq!(result, "# A\n\n    [!] Child task\n    note here");
}

#[test]
fn render_field_def_int_and_bool() {
    let mut out = String::new();
    render_field_def(
        &FieldDef { name: "n".to_string(), plural: false, default: FieldDefault::Int(-42) },
        &mut out,
    );
    assert_eq!(out, "n: -42");
    let mut out2 = String::new();
    render_field_def(
        &FieldDef { name: "ok".to_string(), plural: false, default: FieldDefault::Bool(true) },
        &mut out2,
    );
    assert_eq!(out2, "ok: true");
}

#[test]
fn render_task_with_label_and_gate() {
    let result = roundtrip("[A!] Review {approval}");
    assert_eq!(result, "[A!] Review {approval}");
}
