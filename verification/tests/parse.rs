use bit_core::line::{extract_gates, parse_field_default};
use bit_core::parse::parse;
use bit_core::render::render;
use bit_core::types::{
    CodeBlock, Document, FieldDefault, Group, Inline, Node, Priority, Spawn, Task, TaskKind,
    TaskPrefix, VarValue,
};

fn chars(s: &str) -> Vec<char> {
    s.chars().collect()
}

fn parse_ok(s: &str) -> Document {
    parse(s).expect("parse failed")
}

fn first_node(doc: &Document) -> &Node {
    &doc.nodes[0]
}

/// Parse, render, re-parse: the second render must match the first.
fn assert_round_trip_stable(src: &str, label: &str) {
    let doc1 = parse(src).unwrap_or_else(|e| panic!("{}: parse failed: {:?}", label, e));
    let r1 = render(&doc1);
    let doc2 = parse(&r1).unwrap_or_else(|e| panic!("{}: re-parse failed: {:?}", label, e));
    let r2 = render(&doc2);
    assert_eq!(r1, r2, "{}: round-trip unstable", label);
}

/// The parser returns on any input.
fn must_not_panic(input: &str) {
    let _ = parse(input);
}

#[test]
fn parse_simple_group() {
    let doc = parse_ok("# My Group");
    match first_node(&doc) {
        Node::Group(g) => {
            assert_eq!(g.name, "My Group");
            assert_eq!(g.depth, 1);
        }
        _ => panic!("expected Group"),
    }
}

#[test]
fn parse_group_with_child_task() {
    let doc = parse_ok("# Parent\n\n    [!] Child task");
    if let Node::Group(g) = first_node(&doc) {
        assert_eq!(g.name, "Parent");
        assert!(g.children.iter().any(|c| matches!(c, Node::Task(_))));
    } else {
        panic!("expected Group");
    }
}

#[test]
fn parse_group_with_atoms() {
    let doc = parse_ok("# Project :status :assignee");
    if let Node::Group(g) = first_node(&doc) {
        assert_eq!(g.name, "Project");
        let atom_names: Vec<&str> = g.atoms.iter().map(|a| a.name.as_str()).collect();
        assert!(atom_names.contains(&"status"));
        assert!(atom_names.contains(&"assignee"));
    } else {
        panic!("expected Group");
    }
}

#[test]
fn parse_group_with_gates() {
    let doc = parse_ok("# Releases :status {release-gate}");
    if let Node::Group(g) = first_node(&doc) {
        assert_eq!(g.gates.len(), 1);
        assert_eq!(g.gates[0].name, "release-gate");
    } else {
        panic!("expected Group");
    }
}

#[test]
fn parse_required_task() {
    let doc = parse_ok("[!] Do the thing");
    if let Node::Task(t) = first_node(&doc) {
        assert_eq!(t.marker.kind, TaskKind::Required);
        assert_eq!(t.text, "Do the thing");
    } else {
        panic!("expected Task");
    }
}

#[test]
fn parse_optional_task() {
    let doc = parse_ok("[o] Maybe do this");
    if let Node::Task(t) = first_node(&doc) {
        assert_eq!(t.marker.kind, TaskKind::Optional);
    } else {
        panic!("expected Task");
    }
}

#[test]
fn parse_completed_task() {
    let doc = parse_ok("[x] Already done");
    if let Node::Task(t) = first_node(&doc) {
        assert_eq!(t.marker.kind, TaskKind::Completed);
    } else {
        panic!("expected Task");
    }
}

#[test]
fn parse_sequential_task() {
    let doc = parse_ok("[1] First thing");
    if let Node::Task(t) = first_node(&doc) {
        assert_eq!(t.marker.seq, Some(1));
    } else {
        panic!("expected Task");
    }
}

#[test]
fn parse_decision_task() {
    let doc = parse_ok("[?] Is this right?");
    if let Node::Task(t) = first_node(&doc) {
        assert_eq!(t.marker.priority, Priority::Decision);
    } else {
        panic!("expected Task");
    }
}

#[test]
fn parse_parallel_task() {
    let doc = parse_ok("+[!] Parallel task");
    if let Node::Task(t) = first_node(&doc) {
        assert_eq!(t.marker.prefix, TaskPrefix::Parallel);
    } else {
        panic!("expected Task");
    }
}

#[test]
fn parse_labeled_task() {
    let doc = parse_ok("[A!] Named task");
    if let Node::Task(t) = first_node(&doc) {
        assert_eq!(t.label, Some("A".to_string()));
        assert_eq!(t.marker.kind, TaskKind::Required);
    } else {
        panic!("expected Task");
    }
}

#[test]
fn parse_task_with_gates() {
    let doc = parse_ok("[!] Ship it {code-review} {security-scan}");
    if let Node::Task(t) = first_node(&doc) {
        assert_eq!(t.gates.len(), 2);
    } else {
        panic!("expected Task");
    }
}

#[test]
fn parse_task_with_closes() {
    let doc = parse_ok("[!] Fix the bug git:closes #42");
    if let Node::Task(t) = first_node(&doc) {
        assert_eq!(t.closes, Some(42));
    } else {
        panic!("expected Task");
    }
}

#[test]
fn parse_task_on_pass_on_fail() {
    let src = "[!] Check {review}\n    on_pass:\n        [!] Continue\n    on_fail:\n        [!] Retry";
    let doc = parse_ok(src);
    if let Node::Task(t) = first_node(&doc) {
        assert!(t.on_pass.is_some());
        assert!(t.on_fail.is_some());
        assert_eq!(t.on_pass.as_ref().unwrap().len(), 1);
        assert_eq!(t.on_fail.as_ref().unwrap().len(), 1);
    } else {
        panic!("expected Task");
    }
}

#[test]
fn parse_define() {
    let src = "define:@Task\n    title: \"Untitled\"\n    state: :todo/:done";
    let doc = parse_ok(src);
    if let Node::Define(d) = first_node(&doc) {
        assert_eq!(d.entity, "Task");
        assert_eq!(d.fields.len(), 2);
        assert_eq!(d.fields[0].name, "title");
    } else {
        panic!("expected Define");
    }
}

#[test]
fn parse_define_with_inheritance() {
    let src = "define:@Task from @~/canon.bit\n    custom: nil";
    let doc = parse_ok(src);
    if let Node::Define(d) = first_node(&doc) {
        assert!(d.from_scope.is_some());
    } else {
        panic!("expected Define");
    }
}

#[test]
fn parse_mutate() {
    let src = "mutate:@Task:ship-api\n    title: \"Ship the API\"\n    state: :todo";
    let doc = parse_ok(src);
    if let Node::Mutate(m) = first_node(&doc) {
        assert_eq!(m.entity, "Task");
        assert_eq!(m.id, Some("ship-api".to_string()));
        assert_eq!(m.fields.len(), 2);
    } else {
        panic!("expected Mutate");
    }
}

#[test]
fn parse_delete() {
    let doc = parse_ok("delete:@Task:old-one");
    if let Node::Delete(d) = first_node(&doc) {
        assert_eq!(d.entity, "Task");
        assert_eq!(d.id, "old-one");
    } else {
        panic!("expected Delete");
    }
}

#[test]
fn parse_inline_query() {
    let doc = parse_ok("? Task(s) where state = :done");
    if let Node::Query(q) = first_node(&doc) {
        assert_eq!(q.entity, "Task");
        assert!(q.plural);
        assert!(q.filter.is_some());
    } else {
        panic!("expected Query");
    }
}

#[test]
fn parse_flow() {
    let src = "flow:\n    A --> B --> C";
    let doc = parse_ok(src);
    if let Node::Flow(f) = first_node(&doc) {
        assert!(!f.edges.is_empty());
    } else {
        panic!("expected Flow");
    }
}

#[test]
fn parse_states() {
    let src = "states:\n    :draft --> :review --> :approved";
    let doc = parse_ok(src);
    if let Node::States(s) = first_node(&doc) {
        assert!(!s.transitions.is_empty());
    } else {
        panic!("expected States");
    }
}

#[test]
fn parse_mod_def() {
    let src = "mod:$Summarizer\n    kind: :guide\n    description: \"Summarize\"";
    let doc = parse_ok(src);
    if let Node::ModDef(m) = first_node(&doc) {
        assert_eq!(m.name, "Summarizer");
    } else {
        panic!("expected ModDef");
    }
}

#[test]
fn parse_mod_install() {
    let doc = parse_ok("mod:install $ArXiv");
    if let Node::ModInvoke(m) = first_node(&doc) {
        assert_eq!(m.method, Some("install".to_string()));
    } else {
        panic!("expected ModInvoke");
    }
}

#[test]
fn parse_validate() {
    let src = "validate code-review:\n    [!] Check correctness";
    let doc = parse_ok(src);
    if let Node::Validate(v) = first_node(&doc) {
        assert_eq!(v.name, "code-review");
        assert!(!v.children.is_empty());
    } else {
        panic!("expected Validate");
    }
}

#[test]
fn parse_validate_with_id() {
    let src = "validate task-contract:\n    id: task-contract\n\n    [!] Check correctness";
    let doc = parse(src).expect("validate with id");
    if let Node::Validate(v) = &doc.nodes[0] {
        assert_eq!(v.meta.id, Some("task-contract".to_string()));
        assert!(!v
            .children
            .iter()
            .any(|n| matches!(n, Node::Prose(p) if p.text.contains("id:"))));
    } else {
        panic!("expected Validate");
    }
}

#[test]
fn parse_form() {
    let src = "form:intake\n    schema_version: 2\n    ui_layout: \"wizard\"\n    ui_page: \"company\"\n    ui_page: \"goals\"\n    storage_canonical: \"gix\"\n    storage_entity: \"@Brief\"\n    storage_duckdb: \"brief_submissions\"\n    projection_entity: \"company=company,budget=budget\"\n    projection_duckdb: \"company=company,budget=budget\"\n    company: \"\"\n    budget: 0";
    let doc = parse_ok(src);
    if let Node::Form(f) = first_node(&doc) {
        assert_eq!(f.name, "intake");
        assert_eq!(f.fields.len(), 2);
        assert_eq!(f.schema_version, Some(2));
        assert_eq!(f.ui_layout.as_deref(), Some("wizard"));
        assert_eq!(f.ui_pages, vec!["company", "goals"]);
        assert_eq!(f.storage.canonical.as_deref(), Some("gix"));
        assert_eq!(f.storage.entity.as_deref(), Some("@Brief"));
        assert_eq!(f.storage.duckdb.as_deref(), Some("brief_submissions"));
        assert_eq!(f.projections.len(), 2);
    } else {
        panic!("expected Form");
    }
}

#[test]
fn parse_gate_def() {
    let src = "gate:production-ready\n    {when: |count Task where state = :blocked| = 0}";
    let doc = parse_ok(src);
    if let Node::GateDef(g) = first_node(&doc) {
        assert_eq!(g.name, "production-ready");
    } else {
        panic!("expected GateDef");
    }
}

#[test]
fn parse_conditional() {
    let src = "if |budget > 0|:\n    [!] Proceed";
    let doc = parse_ok(src);
    if let Node::Conditional(c) = first_node(&doc) {
        assert!(!c.children.is_empty());
    } else {
        panic!("expected Conditional");
    }
}

#[test]
fn parse_variable() {
    let doc = parse_ok("target = 500000");
    if let Node::Variable(v) = first_node(&doc) {
        assert_eq!(v.name, "target");
    } else {
        panic!("expected Variable");
    }
}

#[test]
fn parse_divider() {
    let doc = parse_ok("---");
    assert!(matches!(first_node(&doc), Node::Divider));
}

#[test]
fn parse_spawn_parallel() {
    let doc = parse_ok("+");
    assert!(matches!(first_node(&doc), Node::Spawn(Spawn::Parallel)));
}

#[test]
fn parse_spawn_sequential() {
    let doc = parse_ok("++");
    assert!(matches!(first_node(&doc), Node::Spawn(Spawn::Sequential)));
}

#[test]
fn parse_bold() {
    let doc = parse_ok("**This is important**");
    if let Node::Bold(b) = first_node(&doc) {
        assert_eq!(b.text, "This is important");
    } else {
        panic!("expected Bold");
    }
}

#[test]
fn parse_comment_stripped() {
    let doc = parse_ok("[!] Do something // this is a comment");
    if let Node::Task(t) = first_node(&doc) {
        assert!(!t.text.contains("//"));
    } else {
        panic!("expected Task");
    }
}

#[test]
fn parse_snap() {
    let doc = parse_ok("snap: \"before refactor\"");
    if let Node::Snap(s) = first_node(&doc) {
        assert_eq!(s.name, "before refactor");
    } else {
        panic!("expected Snap");
    }
}

#[test]
fn parse_remember() {
    let doc = parse_ok("remember: \"decided REST over GraphQL\"");
    if let Node::Remember(r) = first_node(&doc) {
        assert!(r.content.contains("REST"));
    } else {
        panic!("expected Remember");
    }
}

#[test]
fn parse_prose() {
    let doc = parse_ok("This is some free text");
    assert!(matches!(first_node(&doc), Node::Prose(_)));
}

#[test]
fn parse_status_def() {
    let doc = parse_ok("status: \"Working\"/\"Done\"/\"Blocked\"");
    if let Node::StatusDef(s) = first_node(&doc) {
        assert_eq!(s.options.len(), 3);
    } else {
        panic!("expected StatusDef");
    }
}

#[test]
fn parse_embed_marker() {
    let doc = parse_ok("^customer_feedback");
    assert!(matches!(first_node(&doc), Node::EmbedMarker(_)));
}

#[test]
fn comment_inside_quoted_string_preserved() {
    let doc = parse_ok("[!] Visit url: \"https://example.com/path\"");
    if let Node::Task(t) = first_node(&doc) {
        assert!(
            t.text.contains("https://example.com/path"),
            "URL was truncated: {}",
            t.text
        );
    } else {
        panic!("expected Task");
    }
}

#[test]
fn comment_inside_field_value_preserved() {
    let src = "define:@Config\n    url: \"https://api.example.com/v1\"";
    let doc = parse_ok(src);
    if let Node::Define(d) = first_node(&doc) {
        let url_field = d
            .fields
            .iter()
            .find(|f| f.name == "url")
            .expect("url field missing");
        match &url_field.default {
            FieldDefault::Str(s) => assert_eq!(s, "https://api.example.com/v1"),
            other => panic!("expected Str, got {:?}", other),
        }
    } else {
        panic!("expected Define");
    }
}

#[test]
fn comment_after_quoted_string_stripped() {
    let doc = parse_ok("[!] Use \"this library\" // but check license first");
    if let Node::Task(t) = first_node(&doc) {
        assert!(t.text.contains("this library"), "quoted text lost");
        assert!(
            !t.text.contains("check license"),
            "comment should be stripped"
        );
    } else {
        panic!("expected Task");
    }
}

#[test]
fn tab_indent_treated_as_spaces() {
    let doc = parse_ok("# Parent\n\t[!] Child task");
    if let Node::Group(g) = first_node(&doc) {
        assert!(
            !g.children.is_empty(),
            "tab-indented child not parsed as child"
        );
    } else {
        panic!("expected Group");
    }
}

#[test]
fn mixed_tabs_and_spaces_consistent() {
    let src = "# Parent\n\t[!] Tab child\n    [o] Space child";
    let doc = parse_ok(src);
    if let Node::Group(g) = first_node(&doc) {
        let task_count = g
            .children
            .iter()
            .filter(|c| matches!(c, Node::Task(_)))
            .count();
        assert_eq!(
            task_count, 2,
            "both tab and space children should be parsed"
        );
    } else {
        panic!("expected Group");
    }
}

#[test]
fn ref_with_simple_path() {
    let doc = parse_ok("[!] Contact @user:alice for info");
    if let Node::Task(t) = first_node(&doc) {
        let refs: Vec<&Inline> = t
            .inline
            .iter()
            .filter(|i| matches!(i, Inline::Ref(_)))
            .collect();
        assert_eq!(refs.len(), 1);
        if let Inline::Ref(r) = refs[0] {
            assert_eq!(r.path, vec!["user", "alice"]);
        }
    } else {
        panic!("expected Task");
    }
}

#[test]
fn at_sign_mid_word_not_ref() {
    let doc = parse_ok("[!] Email alice@domain.com for details");
    if let Node::Task(t) = first_node(&doc) {
        let refs: Vec<&Inline> = t
            .inline
            .iter()
            .filter(|i| matches!(i, Inline::Ref(_)))
            .collect();
        // alice@domain.com — the @ is mid-word, should NOT start a ref
        assert_eq!(
            refs.len(),
            0,
            "@ mid-word should not start a ref, got {} refs",
            refs.len()
        );
    } else {
        panic!("expected Task");
    }
}

#[test]
fn spawn_with_leading_whitespace_standalone() {
    // Standalone indented spawn parses correctly
    let doc = parse_ok("  +");
    assert!(
        matches!(first_node(&doc), Node::Spawn(Spawn::Parallel)),
        "indented + should parse as Spawn::Parallel"
    );
}

#[test]
fn sequential_spawn_with_whitespace_standalone() {
    // Standalone indented sequential spawn parses correctly
    let doc = parse_ok("  ++");
    assert!(
        matches!(first_node(&doc), Node::Spawn(Spawn::Sequential)),
        "indented ++ should parse as Spawn::Sequential"
    );
}

#[test]
fn spawn_between_groups_at_same_level() {
    // Spawn at group level (no indent) separates groups correctly
    let doc = parse_ok("# Group A\n\n+\n\n# Group B");
    let spawn_count = doc
        .nodes
        .iter()
        .filter(|n| matches!(n, Node::Spawn(_)))
        .count();
    assert_eq!(
        spawn_count, 1,
        "top-level + between groups should be a Spawn"
    );
}

#[test]
fn indented_spawn_consumed_as_group_child() {
    // Indented spawn inside a group becomes a child, not a top-level node
    let doc = parse_ok("# Group A\n\n  +\n\n# Group B");
    // The indented + is consumed as a child of Group A
    let top_spawns = doc
        .nodes
        .iter()
        .filter(|n| matches!(n, Node::Spawn(_)))
        .count();
    assert_eq!(
        top_spawns, 0,
        "indented + should be consumed by Group A, not top-level"
    );
}

#[test]
fn status_with_slash_is_status_def() {
    let doc = parse_ok("status: \"Done\"/\"In Progress\"/\"Not Started\"");
    assert!(
        matches!(first_node(&doc), Node::StatusDef(_)),
        "slash-separated should be StatusDef"
    );
}

#[test]
fn status_without_slash_is_not_status_def() {
    let doc = parse_ok("status = \"Done\"");
    assert!(
        matches!(first_node(&doc), Node::Variable(_)),
        "single value with = should be Variable"
    );
}

#[test]
fn status_colon_no_slash_is_not_status_def() {
    let doc = parse_ok("status: Done");
    assert!(
        !matches!(first_node(&doc), Node::StatusDef(_)),
        "no slash means not a StatusDef"
    );
}

#[test]
fn field_default_scientific_notation_integer_style() {
    let d = parse_field_default(&chars("1e10"));
    assert!(
        matches!(d, FieldDefault::Float(_)),
        "1e10 should parse as Float, got {:?}",
        d
    );
    if let FieldDefault::Float(f) = d {
        let f: f64 = f.parse().unwrap();
        assert!((f - 1e10).abs() < 1.0, "1e10 value wrong: {}", f);
    }
}

#[test]
fn field_default_scientific_notation_negative_exponent() {
    let d = parse_field_default(&chars("1.5e-3"));
    assert!(
        matches!(d, FieldDefault::Float(_)),
        "1.5e-3 should parse as Float, got {:?}",
        d
    );
    if let FieldDefault::Float(f) = d {
        let f: f64 = f.parse().unwrap();
        assert!((f - 1.5e-3).abs() < 1e-10, "1.5e-3 value wrong: {}", f);
    }
}

#[test]
fn field_default_scientific_notation_positive_exponent() {
    let d = parse_field_default(&chars("2.5E+6"));
    if let FieldDefault::Float(f) = d {
        let f: f64 = f.parse().unwrap();
        assert!((f - 2.5e6).abs() < 1.0);
    } else {
        panic!("2.5E+6 should parse as Float, got {:?}", d);
    }
}

#[test]
fn nested_gates_compound() {
    let gates = extract_gates(&chars("{all: {lint} {tests}}"));
    assert_eq!(
        gates.len(),
        1,
        "compound gate should be one gate, got {}",
        gates.len()
    );
    assert_eq!(gates[0].name, "all:");
    let body = gates[0].body.as_ref().expect("should have body");
    assert!(
        body.contains("{lint}"),
        "body should contain nested {{lint}}, got: {}",
        body
    );
    assert!(
        body.contains("{tests}"),
        "body should contain nested {{tests}}, got: {}",
        body
    );
}

#[test]
fn nested_gates_deeply_nested() {
    let gates = extract_gates(&chars("{outer: {mid: {inner}}}"));
    assert_eq!(gates.len(), 1, "deeply nested should be one gate");
    let body = gates[0].body.as_ref().unwrap();
    assert!(body.contains("{mid:"), "body should contain mid gate");
}

#[test]
fn sequential_gates_not_nested() {
    let gates = extract_gates(&chars("{lint} {tests} {security}"));
    assert_eq!(
        gates.len(),
        3,
        "three sequential gates expected, got {}",
        gates.len()
    );
}

#[test]
fn code_block_with_language() {
    let src = "```rust\nfn main() {\n    println!(\"hello\");\n}\n```";
    let doc = parse_ok(src);
    if let Node::CodeBlock(cb) = first_node(&doc) {
        assert_eq!(cb.lang, Some("rust".to_string()));
        assert!(cb.content.contains("fn main()"));
        assert!(cb.content.contains("println!"));
    } else {
        panic!("expected CodeBlock, got {:?}", first_node(&doc));
    }
}

#[test]
fn code_block_without_language() {
    let src = "```\nsome raw text\n```";
    let doc = parse_ok(src);
    if let Node::CodeBlock(cb) = first_node(&doc) {
        assert_eq!(cb.lang, None);
        assert_eq!(cb.content, "some raw text");
    } else {
        panic!("expected CodeBlock, got {:?}", first_node(&doc));
    }
}

#[test]
fn code_block_content_not_parsed() {
    let src = "```\n[!] This is NOT a task\n# Not a group\ndefine:@NotReal\n```";
    let doc = parse_ok(src);
    assert_eq!(doc.nodes.len(), 1, "code block should be single node");
    if let Node::CodeBlock(cb) = first_node(&doc) {
        assert!(cb.content.contains("[!] This is NOT a task"));
        assert!(cb.content.contains("# Not a group"));
    } else {
        panic!("expected CodeBlock");
    }
}

#[test]
fn triple_quote_string_in_mod_def() {
    let src = "mod:$Summarizer\n    kind: :guide\n    prompt: \"\"\"\n    You are a summarizer.\n    Be concise.\n    \"\"\"";
    let doc = parse_ok(src);
    if let Node::ModDef(m) = first_node(&doc) {
        let prompt = m.body.iter().find(|(k, _)| k == "prompt");
        assert!(prompt.is_some(), "should have prompt field");
        let val = &prompt.unwrap().1;
        assert!(
            val.contains("You are a summarizer"),
            "prompt content missing: {}",
            val
        );
        assert!(
            val.contains("Be concise"),
            "prompt second line missing: {}",
            val
        );
    } else {
        panic!("expected ModDef");
    }
}

#[test]
fn triple_quote_empty() {
    let src = "mod:$Empty\n    prompt: \"\"\"\n    \"\"\"";
    let doc = parse_ok(src);
    if let Node::ModDef(m) = first_node(&doc) {
        let prompt = m.body.iter().find(|(k, _)| k == "prompt");
        assert!(prompt.is_some());
        assert_eq!(prompt.unwrap().1, "");
    } else {
        panic!("expected ModDef");
    }
}

#[test]
fn task_without_pressure_fields_still_parses() {
    let doc = parse_ok("[!] Simple task");
    if let Node::Task(t) = first_node(&doc) {
        assert_eq!(t.text, "Simple task");
        assert_eq!(t.depends, None);
        assert_eq!(t.validate, None);
        assert_eq!(t.status, None);
    } else {
        panic!("expected Task");
    }
}

#[test]
fn corpus_mod_manifest() {
    let src = "\
# Linear [ACTIVE]
  id: linear
  kind: TOOL
  version: 0.2.0
  summary: Manage Linear issues, projects, cycles, labels, and users
  scope: agent
  trigger: intent=use_linear

## Tags
  integration, project-management

## Sources
  repo: https://github.com/linear/linear
  docs: https://linear.app/developers

## Runtime
  type: node
  entry: tools/index.js";
    let doc = parse(src).expect("mod manifest should parse");
    let groups: Vec<&Group> = doc
        .nodes
        .iter()
        .filter_map(|n| {
            if let Node::Group(g) = n {
                Some(g)
            } else {
                None
            }
        })
        .collect();
    assert!(!groups.is_empty(), "should have at least one group");
    assert!(
        groups[0].name.contains("Linear"),
        "first group should be Linear"
    );
}

#[test]
fn corpus_define_mutate_query() {
    let src = "\
define:@Task
title: \"Untitled\"
state: :todo/:in_progress/:done
priority: 0
tags: []

mutate:@Task:ship-api
title: \"Ship the API\"
state: :todo

? Task(s) where state = :done";
    let doc = parse(src).expect("define/mutate/query should parse");
    assert!(doc.nodes.iter().any(|n| matches!(n, Node::Define(_))));
    assert!(doc.nodes.iter().any(|n| matches!(n, Node::Mutate(_))));
    assert!(doc.nodes.iter().any(|n| matches!(n, Node::Query(_))));
}

#[test]
fn corpus_flow_and_states() {
    let src = "\
flow:
design --> implement --> test --> deploy

states:
:draft --> :review --> :approved --> :published";
    let doc = parse(src).expect("flow/states should parse");
    assert!(doc.nodes.iter().any(|n| matches!(n, Node::Flow(_))));
    assert!(doc.nodes.iter().any(|n| matches!(n, Node::States(_))));
}

#[test]
fn corpus_code_block_in_context() {
    let src = "\
# Setup Guide

[!] Configure environment

```bash
export API_KEY=xyz
echo \"done\"
```

[!] Run tests";
    let doc = parse(src).expect("code block in context should parse");
    let has_code = doc.nodes.iter().any(|n| {
        if let Node::Group(g) = n {
            g.children.iter().any(|c| matches!(c, Node::CodeBlock(_)))
        } else {
            matches!(n, Node::CodeBlock(_))
        }
    });
    assert!(has_code, "should contain a code block");
}

#[test]
fn corpus_mixed_document_round_trip() {
    let src = "\
# Project Alpha

[!] Design API
[o] Write docs

---

# Project Beta

target = 500000
[x] Launch MVP";
    assert_round_trip_stable(src, "mixed document");
}

#[test]
fn corpus_validate_and_form() {
    let src = "\
validate code-review:
[!] Check correctness
[!] Check style

form:intake
schema_version: 2
ui_layout: \"wizard\"
ui_page: \"company\"
company: \"\"
budget: 0";
    let doc = parse(src).expect("validate/form should parse");
    assert!(doc.nodes.iter().any(|n| matches!(n, Node::Validate(_))));
    assert!(doc.nodes.iter().any(|n| matches!(n, Node::Form(_))));
}

#[test]
fn parse_mod_scoped_define() {
    let src = "define:$GoogleWorkspace.@Spreadsheet\n    title: \"\"";
    let doc = parse(src).expect("mod-scoped define should parse");
    if let Node::Define(d) = &doc.nodes[0] {
        assert_eq!(d.entity, "Spreadsheet");
        assert_eq!(d.mod_scope.as_deref(), Some("GoogleWorkspace"));
        assert!(d.workspace_scope.is_none());
    } else {
        panic!("expected Define node");
    }
}

#[test]
fn parse_workspace_scoped_mutate() {
    let src = "mutate:@workspace:sales-crm.@Client:acme\n    tier: \"enterprise\"";
    let doc = parse(src).expect("workspace-scoped mutate should parse");
    if let Node::Mutate(m) = &doc.nodes[0] {
        assert_eq!(m.entity, "Client");
        assert_eq!(m.id.as_deref(), Some("acme"));
        assert_eq!(m.workspace_scope.as_deref(), Some("sales-crm"));
        assert!(m.mod_scope.is_none());
    } else {
        panic!("expected Mutate node");
    }
}

#[test]
fn parse_mod_scoped_delete() {
    let src = "delete:$Excel.@Spreadsheet:old-report";
    let doc = parse(src).expect("mod-scoped delete should parse");
    if let Node::Delete(d) = &doc.nodes[0] {
        assert_eq!(d.entity, "Spreadsheet");
        assert_eq!(d.id, "old-report");
        assert_eq!(d.mod_scope.as_deref(), Some("Excel"));
    } else {
        panic!("expected Delete node");
    }
}

#[test]
fn parse_temporal_query() {
    let src = "? @Client from snap:v2.1.0 where tier = \"premium\"";
    let doc = parse(src).expect("temporal query should parse");
    if let Node::Query(q) = &doc.nodes[0] {
        assert_eq!(q.from_snapshot.as_deref(), Some("v2.1.0"));
        assert!(q.filter.is_some());
    } else {
        panic!("expected Query node");
    }
}

#[test]
fn parse_temporal_diff() {
    let src = "diff:@Client:acme-corp from snap:v2.1.0";
    let doc = parse(src).expect("temporal diff should parse");
    if let Node::Diff(d) = &doc.nodes[0] {
        assert_eq!(d.target, "@Client:acme-corp");
        assert_eq!(d.from_snapshot.as_deref(), Some("v2.1.0"));
    } else {
        panic!("expected Diff node");
    }
}

#[test]
fn parse_inline_mod_scoped_ref() {
    let src = "[ ] Update $GoogleWorkspace.@Spreadsheet:budget";
    let doc = parse(src).expect("inline mod-scoped ref should parse");
    if let Node::Task(t) = &doc.nodes[0] {
        let has_mod_ref = t.inline.iter().any(|span| {
            if let Inline::Ref(r) = span {
                r.mod_scope.as_deref() == Some("GoogleWorkspace")
                    && r.path.first().map(|s| s.as_str()) == Some("Spreadsheet")
            } else {
                false
            }
        });
        assert!(has_mod_ref, "should contain mod-scoped ref");
    } else {
        panic!("expected Task node");
    }
}

#[test]
fn parse_inline_workspace_scoped_ref() {
    let src = "[ ] Check @workspace:sales-crm.@Client:acme status";
    let doc = parse(src).expect("inline workspace-scoped ref should parse");
    if let Node::Task(t) = &doc.nodes[0] {
        let has_ws_ref = t.inline.iter().any(|span| {
            if let Inline::Ref(r) = span {
                r.workspace_scope.as_deref() == Some("sales-crm")
                    && r.path.first().map(|s| s.as_str()) == Some("Client")
            } else {
                false
            }
        });
        assert!(has_ws_ref, "should contain workspace-scoped ref");
    } else {
        panic!("expected Task node");
    }
}

#[test]
fn local_entity_unchanged() {
    let src = "define:@Task\n    title: \"\"";
    let doc = parse(src).expect("local define should still work");
    if let Node::Define(d) = &doc.nodes[0] {
        assert_eq!(d.entity, "Task");
        assert!(d.mod_scope.is_none());
        assert!(d.workspace_scope.is_none());
    } else {
        panic!("expected Define node");
    }
}

#[test]
fn empty_input() {
    must_not_panic("");
}

#[test]
fn only_whitespace() {
    must_not_panic("   \n\n  \t  \n");
}

#[test]
fn only_newlines() {
    must_not_panic("\n\n\n\n\n\n\n\n\n\n");
}

#[test]
fn deeply_nested_groups() {
    let src = (1..=50)
        .map(|i| format!("{} Group{}", "#".repeat(i), i))
        .collect::<Vec<_>>()
        .join("\n");
    must_not_panic(&src);
}

#[test]
fn unclosed_code_block() {
    must_not_panic("```rust\nfn main() {\n// never closed");
}

#[test]
fn unclosed_braces() {
    must_not_panic("[!] Task {gate_that_never_closes");
    must_not_panic("{{{{{");
    must_not_panic("[!] Task }}}}}");
}

#[test]
fn unclosed_quotes() {
    must_not_panic("[!] Task with \"unclosed quote");
    must_not_panic("title: \"never ends");
}

#[test]
fn null_bytes() {
    must_not_panic("# Group\0with null\n[!] Task\0too");
}

#[test]
fn unicode_extremes() {
    must_not_panic("# 🎉 Unicode Group 日本語\n[!] Задача с кириллицей\n[o] عربي");
    must_not_panic("# \u{FEFF}BOM at start");
    must_not_panic("# \u{200B}Zero-width space");
}

#[test]
fn very_long_line() {
    let long = "a".repeat(100_000);
    must_not_panic(&format!("[!] {}", long));
}

#[test]
fn all_special_chars_in_task() {
    must_not_panic("[!] @#$%^&*(){}[]|\\<>?/~`!+=-_");
}

#[test]
fn repeated_keywords() {
    must_not_panic("define:define:define:@Task\ndefine:@define:@define:");
    must_not_panic("mutate:mutate:\ndelete:delete:");
}

#[test]
fn pipe_without_close() {
    must_not_panic("[!] Compute |never closed");
    must_not_panic("[!] Double ||also not closed");
}

#[test]
fn malformed_markers() {
    must_not_panic("[");
    must_not_panic("[]");
    must_not_panic("[!!");
    must_not_panic("[!!!!!]");
    must_not_panic("[999999]");
}

#[test]
fn line_with_only_special_chars() {
    must_not_panic("@");
    must_not_panic("$");
    must_not_panic("#");
    must_not_panic("{");
    must_not_panic("}");
    must_not_panic("|");
    must_not_panic("```");
}

#[test]
fn crlf_line_endings() {
    must_not_panic("# Group\r\n[!] Task\r\n[x] Done\r\n");
}

#[test]
fn mixed_line_endings() {
    must_not_panic("# A\n[!] B\r\n[o] C\r[x] D");
}

#[test]
fn parse_webhook() {
    let src = "webhook: on:|mutate:@Task| url: \"https://example.com\"";
    let doc = parse_ok(src);
    assert!(matches!(first_node(&doc), Node::Webhook(_)));
}

#[test]
fn parse_policy() {
    let src = "policy:\n    @./src/: {code-review} {lint}";
    let doc = parse_ok(src);
    assert!(matches!(first_node(&doc), Node::PolicyDef(_)));
}

#[test]
fn corpus_conditional_and_webhook() {
    let src = "\
if |budget > 0|:
    [!] Proceed with purchase

webhook: on:|mutate:@Task| url: \"https://example.com/hook\"";
    let doc = parse(src).expect("conditional/webhook should parse");
    assert!(doc.nodes.iter().any(|n| matches!(n, Node::Conditional(_))));
    assert!(doc.nodes.iter().any(|n| matches!(n, Node::Webhook(_))));
}

#[test]
fn webhook_fields_and_render() {
    let doc = parse_ok("webhook: on:|mutate:@Task| url: \"https://example.com/hook\"");
    match first_node(&doc) {
        Node::Webhook(w) => {
            assert_eq!(w.trigger, "mutate:@Task");
            assert_eq!(w.url, "https://example.com/hook");
            assert_eq!(w.payload, None);
        }
        other => panic!("expected a webhook, got {:?}", other),
    }
    assert_eq!(render(&doc), "webhook: on:|mutate:@Task| url: \"https://example.com/hook\"");
    let with_payload = parse_ok("webhook: on:|deploy| url: hooks.example payload: \"done\"");
    match first_node(&with_payload) {
        Node::Webhook(w) => {
            assert_eq!(w.url, "hooks.example");
            assert_eq!(w.payload.as_deref(), Some("done"));
        }
        other => panic!("expected a webhook, got {:?}", other),
    }
}

#[test]
fn files_and_policy_bodies() {
    let doc = parse_ok("files:\n    @src/lib.rs\n    docs/\npolicy:\n    @./src/: {code-review} {lint}\n    note\n    @./docs/");
    match &doc.nodes[0] {
        Node::FilesDef(f) => assert_eq!(f.paths, vec!["src/lib.rs".to_string(), "docs/".to_string()]),
        other => panic!("expected files, got {:?}", other),
    }
    match &doc.nodes[1] {
        Node::PolicyDef(p) => {
            assert_eq!(p.rules.len(), 2);
            assert_eq!(p.rules[0].path, "./src/");
            let names: Vec<&str> = p.rules[0].gates.iter().map(|g| g.name.as_str()).collect();
            assert_eq!(names, vec!["code-review", "lint"]);
            assert_eq!(p.rules[1].path, "./docs/");
            assert!(p.rules[1].gates.is_empty());
        }
        other => panic!("expected a policy, got {:?}", other),
    }
    assert_eq!(
        render(&doc),
        "files:\n    @src/lib.rs\n    @docs/\npolicy:\n    @./src/: {code-review}{lint}\n    @./docs/"
    );
}

#[test]
fn parse_sync_keyword() {
    let src = "sync:customers\n    class: canon\n    source: @project:crm\n    identity: email";
    let doc = parse_ok(src);
    if let Node::SyncDef(s) = first_node(&doc) {
        assert_eq!(s.name, "customers");
        assert_eq!(s.class, "canon");
        assert_eq!(s.source, "@project:crm");
        assert_eq!(s.identity, "email");
    } else {
        panic!("expected SyncDef");
    }
}

#[test]
fn parse_error_has_line_number() {
    // sync: with no name should fail with a ParseError that has line > 0
    let src = "sync:\n    schedule: \"0 * * * *\"";
    let result = parse(src);
    assert!(result.is_err());
    let err = result.unwrap_err();
    assert!(err.line > 0, "expected line > 0, got {}", err.line);
    assert!(!err.code.is_empty(), "expected non-empty code");
}

#[test]
fn sync_without_name_reports_first_line() {
    let src = "# Ops\n    sync:   // no name\n\nsync:\n";
    let err = parse(src).unwrap_err();
    assert_eq!(err.code, "E_SYNC_MISSING_NAME");
    assert_eq!(err.kind, "parse_error");
    assert_eq!(err.line, 2);
    assert_eq!(err.col, 0);
    assert_eq!(err.context, None);
    assert_eq!(err.message, "sync: declaration on line 2 has no name");
    // Inside a code block the line is not a declaration.
    assert!(parse("```\nsync:\n```").is_ok());
}

#[test]
fn sync_render_and_defaults() {
    let doc = parse_ok("sync:orders\n    target: warehouse\n    class: ops\n    class: data");
    if let Node::SyncDef(s) = first_node(&doc) {
        assert_eq!(s.class, "ops");
        assert_eq!(s.target, "warehouse");
        assert_eq!(s.source, "");
        assert_eq!(s.schedule, "");
    } else {
        panic!("expected SyncDef");
    }
    assert_eq!(render(&doc), "sync:orders\n    class: ops");
}

#[test]
fn parse_git_sync() {
    let doc = parse_ok("git:sync");
    assert!(matches!(first_node(&doc), Node::Git(_)));
}

#[test]
fn git_verb_args_and_body() {
    let doc = parse_ok("git:push origin main\n    force: true");
    if let Node::Git(g) = first_node(&doc) {
        assert_eq!(g.verb, "push");
        assert_eq!(g.args, "origin main");
        assert_eq!(g.body, vec![("force".to_string(), "true".to_string())]);
    } else {
        panic!("expected Git");
    }
}

#[test]
fn sync_group_children_become_declarations() {
    let src = "# Sync\n    ## Users\n        class: canon\n        source: db\n    ## Orders\n        schedule: hourly";
    let doc = parse_ok(src);
    if let Node::Group(g) = first_node(&doc) {
        assert_eq!(g.name, "Sync");
        assert_eq!(g.children.len(), 2);
        match &g.children[0] {
            Node::SyncDef(s) => {
                assert_eq!(s.name, "Users");
                assert_eq!(s.class, "canon");
                assert_eq!(s.source, "db");
                assert_eq!(s.schedule, "");
            }
            other => panic!("expected SyncDef, got {:?}", other),
        }
        match &g.children[1] {
            Node::SyncDef(s) => {
                assert_eq!(s.name, "Orders");
                assert_eq!(s.class, "");
                assert_eq!(s.schedule, "hourly");
            }
            other => panic!("expected SyncDef, got {:?}", other),
        }
    } else {
        panic!("expected Group");
    }
}

#[test]
fn sync_group_refuses_unknown_class() {
    let src = "# Sync\n    ## Users\n        class: bogus";
    let err = parse(src).unwrap_err();
    assert_eq!(err.code, "E_SYNC_INVALID_CLASS");
    assert_eq!(err.kind, "parse_error");
    assert_eq!(
        err.message,
        "Invalid sync class 'bogus' in sync declaration 'Users'; expected canon, ops, or data"
    );
    assert_eq!(err.context, Some("Users".to_string()));
    assert_eq!(err.line, 0);
}

#[test]
fn groups_not_named_sync_keep_their_sub_groups() {
    let doc = parse_ok("# Plan\n    ## Users\n        class: bogus");
    if let Node::Group(g) = first_node(&doc) {
        assert!(matches!(&g.children[0], Node::Group(_)));
    } else {
        panic!("expected Group");
    }
}

#[test]
fn parse_check_block() {
    let src = "check: my-check\n    kind: query\n    entity: Task\n    expect_count: 1";
    let doc = parse(src).expect("check block should parse");
    if let Node::Check(c) = &doc.nodes[0] {
        assert_eq!(c.name, "my-check");
        assert_eq!(c.body.len(), 3);
        assert_eq!(c.body[0], ("kind".to_string(), "query".to_string()));
        assert_eq!(c.body[1], ("entity".to_string(), "Task".to_string()));
        assert_eq!(c.body[2], ("expect_count".to_string(), "1".to_string()));
    } else {
        panic!("expected Check, got {:?}", doc.nodes[0]);
    }
}

#[test]
fn parse_check_with_id() {
    let src = "check: my-check\n    id: my-check\n    kind: query\n    entity: Task";
    let doc = parse(src).expect("check with id");
    if let Node::Check(c) = &doc.nodes[0] {
        assert_eq!(c.name, "my-check");
        assert_eq!(c.meta.id, Some("my-check".to_string()));
        assert!(!c.body.iter().any(|(k, _)| k == "id"));
    } else {
        panic!("expected Check");
    }
}

#[test]
fn parse_check_with_depends_on() {
    let src = "check: second\n    id: second\n    depends_on: @Check:first\n    kind: query\n    entity: Task";
    let doc = parse(src).expect("check with depends_on");
    if let Node::Check(c) = &doc.nodes[0] {
        assert_eq!(c.meta.depends_on, vec!["@Check:first"]);
        assert!(!c.body.iter().any(|(k, _)| k == "depends_on"));
    } else {
        panic!("expected Check");
    }
}

#[test]
fn parse_check_inside_validate() {
    let src = "validate task-contract:\n    check: task-count\n        kind: query\n        entity: Task\n        expect_count: 1";
    let doc = parse(src).expect("validate with check child");
    if let Node::Validate(v) = &doc.nodes[0] {
        assert_eq!(v.name, "task-contract");
        assert_eq!(v.children.len(), 1);
        if let Node::Check(c) = &v.children[0] {
            assert_eq!(c.name, "task-count");
        } else {
            panic!("expected Check child, got {:?}", v.children[0]);
        }
    } else {
        panic!("expected Validate");
    }
}

#[test]
fn check_renders_name_and_settings() {
    let doc = parse_ok("check: smoke\n    kind: query\n    entity: Task");
    assert_eq!(render(&doc), "check: smoke\n    kind: query\n    entity: Task");
}

#[test]
fn check_targets_split_on_commas() {
    let doc = parse_ok("check: c\n    targets: a, , b\n    blocks: x");
    if let Node::Check(c) = first_node(&doc) {
        assert_eq!(c.meta.targets, vec!["a", "b"]);
        assert_eq!(c.meta.blocks, vec!["x"]);
        assert!(c.body.is_empty());
    } else {
        panic!("expected Check");
    }
}

#[test]
fn parse_entity_def() {
    let src = "## Entity: Charge\n  source: stripe.charges\n  namespace: stripe\n  identity: id\n  fields:\n    - amount: integer\n    - currency: string\n    - status: enum(succeeded, pending, failed)";
    let doc = parse_ok(src);
    if let Node::EntityDef(e) = first_node(&doc) {
        assert_eq!(e.name, "Charge");
        assert_eq!(e.source, "stripe.charges");
        assert_eq!(e.namespace, "stripe");
        assert_eq!(e.identity, "id");
        assert_eq!(e.fields.len(), 3);
        assert_eq!(e.fields[0].name, "amount");
        assert_eq!(e.fields[0].field_type, "integer");
        assert_eq!(e.fields[1].name, "currency");
        assert_eq!(e.fields[1].field_type, "string");
        assert_eq!(e.fields[2].name, "status");
        assert_eq!(e.fields[2].field_type, "enum(succeeded, pending, failed)");
    } else {
        panic!("expected EntityDef, got {:?}", first_node(&doc));
    }
}

#[test]
fn parse_entity_with_five_fields() {
    let src = "## Entity: Charge\n  source: stripe.charges\n  namespace: stripe\n  identity: id\n  fields:\n    - amount: integer\n    - currency: string\n    - status: enum(succeeded, pending, failed)\n    - customer_id: string\n    - created_at: timestamp";
    let doc = parse_ok(src);
    if let Node::EntityDef(e) = first_node(&doc) {
        assert_eq!(e.fields.len(), 5);
        assert_eq!(e.fields[3].name, "customer_id");
        assert_eq!(e.fields[4].name, "created_at");
        assert_eq!(e.fields[4].field_type, "timestamp");
    } else {
        panic!("expected EntityDef");
    }
}

#[test]
fn entity_header_with_space_and_render() {
    let doc = parse_ok("## Entity : User\n  identity: email\n  fields:\n    - email: string");
    if let Node::EntityDef(e) = first_node(&doc) {
        assert_eq!(e.name, "User");
        assert_eq!(e.source, "");
    } else {
        panic!("expected EntityDef");
    }
    assert_eq!(
        render(&doc),
        "## Entity: User\n  source: \n  namespace: \n  identity: email\n  fields:\n    - email: string"
    );
}

#[test]
fn parse_use_entity_from_mod() {
    let src = "use @Spreadsheet from $GoogleWorkspace";
    let doc = parse(src).expect("use entity from mod should parse");
    if let Node::UseBlock(u) = &doc.nodes[0] {
        assert_eq!(u.entity.as_deref(), Some("Spreadsheet"));
        assert_eq!(u.from_mod.as_deref(), Some("GoogleWorkspace"));
        assert!(u.alias.is_none());
    } else {
        panic!("expected UseBlock node");
    }
}

#[test]
fn parse_use_entity_from_mod_with_alias() {
    let src = "use @Spreadsheet from $Excel as @ExcelSheet";
    let doc = parse(src).expect("use with alias should parse");
    if let Node::UseBlock(u) = &doc.nodes[0] {
        assert_eq!(u.entity.as_deref(), Some("Spreadsheet"));
        assert_eq!(u.from_mod.as_deref(), Some("Excel"));
        assert_eq!(u.alias.as_deref(), Some("ExcelSheet"));
    } else {
        panic!("expected UseBlock node");
    }
}

#[test]
fn parse_use_entity_from_workspace() {
    let src = "use @Client from @workspace:sales-crm as @CRMClient";
    let doc = parse(src).expect("use from workspace with alias should parse");
    if let Node::UseBlock(u) = &doc.nodes[0] {
        assert_eq!(u.entity.as_deref(), Some("Client"));
        assert_eq!(u.from_workspace.as_deref(), Some("sales-crm"));
        assert_eq!(u.alias.as_deref(), Some("CRMClient"));
    } else {
        panic!("expected UseBlock node");
    }
}

#[test]
fn use_module_with_config_renders() {
    let doc = parse_ok("use $Slack extra words\n    channel: #ops\n    token: abc");
    if let Node::UseBlock(u) = first_node(&doc) {
        assert_eq!(u.mod_name, "$Slack");
        assert!(u.entity.is_none());
        assert_eq!(
            u.config,
            vec![("channel".to_string(), "#ops".to_string()), ("token".to_string(), "abc".to_string())]
        );
    } else {
        panic!("expected UseBlock node");
    }
    assert_eq!(render(&doc), "use $Slack config:\n    channel: #ops\n    token: abc");
}

#[test]
fn serve_target_command_and_settings() {
    let doc = parse_ok("serve:web|npm run dev|\n    port: 3000\n    open: true\n    port: 4000");
    if let Node::Serve(sv) = first_node(&doc) {
        assert_eq!(sv.target, "web");
        assert_eq!(sv.command, "npm run dev");
        assert_eq!(sv.port.as_deref(), Some("4000"));
        assert_eq!(sv.open.as_deref(), Some("true"));
    } else {
        panic!("expected Serve");
    }
    assert_eq!(render(&doc), "serve:web|npm run dev|\n  port: 4000\n  open: true");
}

#[test]
fn serve_without_bars_is_all_target() {
    let doc = parse_ok("serve: docs");
    if let Node::Serve(sv) = first_node(&doc) {
        assert_eq!(sv.target, "docs");
        assert_eq!(sv.command, "");
        assert!(sv.port.is_none());
    } else {
        panic!("expected Serve");
    }
}

#[test]
fn parse_metric_def() {
    let src = "## Metric: MRR\n  source: stripe\n  grain: monthly\n  dimensions: [plan, currency]\n  formula: |\n    SELECT SUM(amount) / 100.0 AS mrr\n    FROM stripe.subscriptions\n    WHERE status = 'active'";
    let doc = parse_ok(src);
    if let Node::MetricDef(m) = first_node(&doc) {
        assert_eq!(m.name, "MRR");
        assert_eq!(m.source, Some("stripe".to_string()));
        assert_eq!(m.grain, Some("monthly".to_string()));
        assert_eq!(m.dimensions, vec!["plan", "currency"]);
        assert!(m.formula.contains("SELECT SUM(amount)"));
        assert!(m.formula.contains("WHERE status"));
        assert!(!m.cross_source);
    } else {
        panic!("expected MetricDef, got {:?}", first_node(&doc));
    }
}

#[test]
fn parse_cross_source_metric() {
    let src = "## Metric: CAC\n  cross_source: true\n  grain: monthly\n  formula: |\n    SELECT m.month, m.total_spend / NULLIF(s.new_customers, 0) AS cac\n    FROM ($Meta.monthly_spend) m\n    JOIN ($Stripe.new_customers_by_month) s ON m.month = s.month";
    let doc = parse_ok(src);
    if let Node::MetricDef(m) = first_node(&doc) {
        assert_eq!(m.name, "CAC");
        assert!(m.cross_source);
        assert!(m.source.is_none());
        assert_eq!(m.grain, Some("monthly".to_string()));
        assert!(m.formula.contains("NULLIF"));
        assert!(m.formula.contains("$Meta.monthly_spend"));
    } else {
        panic!("expected MetricDef, got {:?}", first_node(&doc));
    }
}

#[test]
fn parse_metric_inline_formula() {
    let src = "## Metric: Simple\n  source: test\n  formula: SELECT COUNT(*) FROM users";
    let doc = parse_ok(src);
    if let Node::MetricDef(m) = first_node(&doc) {
        assert_eq!(m.name, "Simple");
        assert_eq!(m.formula, "SELECT COUNT(*) FROM users");
    } else {
        panic!("expected MetricDef");
    }
}

#[test]
fn metric_formula_keeps_inner_blank_line_and_renders_block() {
    let doc = parse_ok("## Metric: M\n  formula: |\n    SELECT 1\n\n    FROM t\n\nnext line");
    if let Node::MetricDef(m) = first_node(&doc) {
        assert_eq!(m.formula, "SELECT 1\n\nFROM t");
    } else {
        panic!("expected MetricDef");
    }
    assert!(matches!(&doc.nodes[1], Node::Prose(_)));
    let r = render(&doc);
    assert!(r.starts_with("## Metric: M\n  formula: |\n    SELECT 1\n    \n    FROM t\n"));
}

#[test]
fn decision_task_survives_render_round_trip() {
    let d1 = parse_ok("[?] Q");
    let r1 = render(&d1);
    let d2 = parse_ok(&r1);
    match (&d1.nodes[0], &d2.nodes[0]) {
        (Node::Task(a), Node::Task(b)) => {
            assert_eq!(a.marker.priority, Priority::Decision);
            assert_eq!(b.marker.priority, Priority::Decision);
            assert_eq!(b.text, "Q");
        }
        _ => panic!("expected tasks"),
    }
    assert_eq!(render(&d2), r1);
    assert_eq!(r1, "[?] Q");
}

#[test]
fn canonicalize_validates_section_header() {
    let doc = parse_ok("## Validates\n    artifact: contract\n");
    assert!(
        matches!(&doc.nodes[0], Node::LatticeValidates(_)),
        "## Validates should canonicalize to LatticeValidates, got {:?}",
        &doc.nodes[0]
    );
}

#[test]
fn canonicalize_constraint_section_header() {
    let doc = parse_ok("## Constraint\n    rule: Narrative only\n");
    assert!(
        matches!(&doc.nodes[0], Node::LatticeConstraint(_)),
        "## Constraint should canonicalize to LatticeConstraint, got {:?}",
        &doc.nodes[0]
    );
}

#[test]
fn validates_section_reads_artifacts_and_schemas() {
    let doc = parse_ok("## Validates\n    artifact: contract\n    schema: v2\n    - artifact: memo\n    other line");
    match &doc.nodes[0] {
        Node::LatticeValidates(l) => {
            assert_eq!(l.artifacts.len(), 2);
            assert_eq!(l.artifacts[0].artifact, "contract");
            assert_eq!(l.artifacts[0].schema.as_deref(), Some("v2"));
            assert!(l.artifacts[0].checks.is_empty());
            assert_eq!(l.artifacts[1].artifact, "memo");
            assert_eq!(l.artifacts[1].schema, None);
            assert_eq!(l.children.len(), 1);
        }
        other => panic!("expected LatticeValidates, got {:?}", other),
    }
    assert_eq!(
        render(&doc),
        "lattice_validates:\n    artifact: contract\n    schema: v2\n    artifact: memo\n    other line"
    );
}

#[test]
fn lattice_sections_of_each_kind() {
    let doc = parse_ok(
        "## Constraint\n    rule: at most 3\n    applies_to: a, b\n## Schema\n    name: id\n    type: string\n    required: true\n    name: note\n## Frontier\n    expected_schema: s1\n    missing_field: x\n    strategy: ask\n## Pressure Effect\n    dynamic: decay\n    target: upstream\n## Unit Cell\n    cell text\n## Symmetry\n    sym text\n# Validates\n    artifact: kept",
    );
    match &doc.nodes[0] {
        Node::LatticeConstraint(c) => {
            assert_eq!(c.rule, "at most 3");
            assert_eq!(c.applies_to, vec!["a", "b"]);
            assert!(c.children.is_empty());
            assert_eq!(c.constraint_type, None);
        }
        other => panic!("expected LatticeConstraint, got {:?}", other),
    }
    match &doc.nodes[1] {
        Node::LatticeSchema(s) => {
            assert_eq!(s.fields.len(), 2);
            assert_eq!(s.fields[0].name, "id");
            assert_eq!(s.fields[0].field_type, "string");
            assert!(s.fields[0].required);
            assert_eq!(s.fields[1].name, "note");
            assert_eq!(s.fields[1].field_type, "");
            assert!(!s.fields[1].required);
        }
        other => panic!("expected LatticeSchema, got {:?}", other),
    }
    match &doc.nodes[2] {
        Node::LatticeFrontier(f) => {
            assert_eq!(f.expected_schema.as_deref(), Some("s1"));
            assert_eq!(f.missing_fields, vec!["x"]);
            assert_eq!(f.exploration_strategy, vec!["ask"]);
        }
        other => panic!("expected LatticeFrontier, got {:?}", other),
    }
    match &doc.nodes[3] {
        Node::PressureEffect(p) => {
            assert_eq!(p.dynamic, "decay");
            assert_eq!(p.target.as_deref(), Some("upstream"));
        }
        other => panic!("expected PressureEffect, got {:?}", other),
    }
    assert!(matches!(&doc.nodes[4], Node::UnitCell(u) if u.children.len() == 1));
    assert!(matches!(&doc.nodes[5], Node::Symmetry(u) if u.children.len() == 1));
    // depth one: stays a group
    assert!(matches!(&doc.nodes[6], Node::Group(_)));
}

#[test]
fn parse_lattice_validates_colon() {
    let doc = parse_ok(
        "lattice_validates:schema_check\n    artifact: contract\n    schema: contract-v1\n",
    );
    assert!(
        matches!(&doc.nodes[0], Node::LatticeValidates(_)),
        "Expected LatticeValidates, got {:?}",
        &doc.nodes[0]
    );
}

#[test]
fn parse_lattice_constraint_colon() {
    let doc = parse_ok(
        "lattice_constraint:budget_cap\n    rule: max 100000\n    applies_to: project\n",
    );
    assert!(
        matches!(&doc.nodes[0], Node::LatticeConstraint(_)),
        "Expected LatticeConstraint, got {:?}",
        &doc.nodes[0]
    );
}

#[test]
fn parse_lattice_schema_colon() {
    let doc = parse_ok(
        "lattice_schema:workflow_v2\n    name: title\n    type: string\n    required: true\n",
    );
    assert!(
        matches!(&doc.nodes[0], Node::LatticeSchema(_)),
        "Expected LatticeSchema, got {:?}",
        &doc.nodes[0]
    );
}

#[test]
fn parse_lattice_frontier_colon() {
    let doc = parse_ok("lattice_frontier:exploration\n    expected_schema: contract-v1\n");
    assert!(
        matches!(&doc.nodes[0], Node::LatticeFrontier(_)),
        "Expected LatticeFrontier, got {:?}",
        &doc.nodes[0]
    );
}

#[test]
fn parse_pressure_effect_colon() {
    let doc = parse_ok("pressure_effect:deadline\n    dynamic: decay\n    target: upstream\n");
    match &doc.nodes[0] {
        Node::PressureEffect(pe) => {
            assert_eq!(pe.dynamic, "decay");
            assert_eq!(pe.target.as_deref(), Some("upstream"));
        }
        other => panic!("Expected PressureEffect, got {:?}", other),
    }
}

#[test]
fn parse_unit_cell_colon() {
    let doc = parse_ok("unit_cell:sprint\n    duration: 14d\n    capacity: 40\n");
    assert!(
        matches!(&doc.nodes[0], Node::UnitCell(_)),
        "Expected UnitCell, got {:?}",
        &doc.nodes[0]
    );
}

#[test]
fn parse_symmetry_colon() {
    let doc = parse_ok("symmetry:role_parity\n    repeat: indefinite\n    measure: effort\n");
    assert!(
        matches!(&doc.nodes[0], Node::Symmetry(_)),
        "Expected Symmetry, got {:?}",
        &doc.nodes[0]
    );
}

#[test]
fn roundtrip_lattice_validates() {
    let doc = parse_ok("lattice_validates:\n    artifact: contract\n");
    let rendered = render(&doc);
    let doc2 = parse_ok(&rendered);
    assert!(
        matches!(&doc2.nodes[0], Node::LatticeValidates(_)),
        "Round-trip failed. Rendered: {}",
        rendered
    );
}

#[test]
fn roundtrip_lattice_constraint() {
    let doc = parse_ok("lattice_constraint:\n    rule: max 100000\n");
    let rendered = render(&doc);
    let doc2 = parse_ok(&rendered);
    assert!(
        matches!(&doc2.nodes[0], Node::LatticeConstraint(_)),
        "Round-trip failed. Rendered: {}",
        rendered
    );
}

#[test]
fn roundtrip_pressure_effect() {
    let doc = parse_ok("pressure_effect:\n    dynamic: decay\n    target: upstream\n");
    let rendered = render(&doc);
    let doc2 = parse_ok(&rendered);
    match &doc2.nodes[0] {
        Node::PressureEffect(pe) => {
            assert_eq!(pe.dynamic, "decay");
            assert_eq!(pe.target.as_deref(), Some("upstream"));
        }
        other => panic!("Round-trip failed, got {:?}. Rendered: {}", other, rendered),
    }
}

#[test]
fn roundtrip_unit_cell() {
    let doc = parse_ok("unit_cell:\n    duration: 14d\n");
    let rendered = render(&doc);
    let doc2 = parse_ok(&rendered);
    assert!(
        matches!(&doc2.nodes[0], Node::UnitCell(_)),
        "Round-trip failed. Rendered: {}",
        rendered
    );
}

#[test]
fn roundtrip_symmetry() {
    let doc = parse_ok("symmetry:\n    repeat: indefinite\n");
    let rendered = render(&doc);
    let doc2 = parse_ok(&rendered);
    assert!(
        matches!(&doc2.nodes[0], Node::Symmetry(_)),
        "Round-trip failed. Rendered: {}",
        rendered
    );
}

#[test]
fn lattice_lines_read_their_blocks() {
    let doc = parse_ok("lattice_constraint: budget\n    rule: max 10\n    applies_to: a, b\n    note\npressure_effect:x\n    target: t1\n    dynamic: d\n    target: t2");
    match &doc.nodes[0] {
        Node::LatticeConstraint(c) => {
            assert_eq!(c.constraint_type.as_deref(), Some("budget"));
            assert_eq!(c.rule, "max 10");
            assert_eq!(c.applies_to, vec!["a", "b"]);
            assert_eq!(c.children.len(), 1);
        }
        other => panic!("expected LatticeConstraint, got {:?}", other),
    }
    match &doc.nodes[1] {
        Node::PressureEffect(p) => {
            assert_eq!(p.dynamic, "d");
            assert_eq!(p.target.as_deref(), Some("t2"));
        }
        other => panic!("expected PressureEffect, got {:?}", other),
    }
}

#[test]
fn lattice_block_children_are_canonicalized() {
    let doc = parse_ok("unit_cell:\n    # Sync\n        ## Users\n            class: canon");
    match &doc.nodes[0] {
        Node::UnitCell(u) => match &u.children[0] {
            Node::Group(g) => assert!(matches!(&g.children[0], Node::SyncDef(_))),
            other => panic!("expected Group, got {:?}", other),
        },
        other => panic!("expected UnitCell, got {:?}", other),
    }
}

#[test]
fn indentation_is_counted_in_bytes() {
    // An ideographic space is one character but three bytes.
    let doc = parse_ok("  # G\n\u{3000}note");
    match &doc.nodes[0] {
        Node::Group(g) => {
            assert_eq!(g.children.len(), 1);
            assert!(matches!(&g.children[0], Node::Prose(p) if p.text == "note"));
        }
        other => panic!("expected Group, got {:?}", other),
    }
}

#[test]
fn project_scope_reads_its_indented_lines() {
    let doc = parse_ok("%Alpha\n    [!] Ship it\n    note\nafter");
    assert_eq!(doc.nodes.len(), 2);
    match &doc.nodes[0] {
        Node::ProjectScope(ps) => {
            assert_eq!(ps.name, "Alpha");
            assert_eq!(ps.children.len(), 2);
            assert!(matches!(&ps.children[0], Node::Task(t) if t.text == "Ship it"));
            assert!(matches!(&ps.children[1], Node::Prose(p) if p.text == "note"));
        }
        other => panic!("expected ProjectScope, got {:?}", other),
    }
    assert!(matches!(&doc.nodes[1], Node::Prose(p) if p.text == "after"));
}

#[test]
fn project_scope_ends_at_a_divider_and_reads_it() {
    let doc = parse_ok("%Alpha\n    one\n---\nafter");
    assert_eq!(doc.nodes.len(), 2);
    assert!(matches!(&doc.nodes[0], Node::ProjectScope(ps) if ps.children.len() == 1));
    assert!(matches!(&doc.nodes[1], Node::Prose(p) if p.text == "after"));
}

#[test]
fn project_scope_leaves_a_divider_after_a_blank_line() {
    let doc = parse_ok("%Alpha\n    one\n\n---\nafter");
    assert_eq!(doc.nodes.len(), 3);
    assert!(matches!(&doc.nodes[0], Node::ProjectScope(ps) if ps.children.len() == 1));
    assert!(matches!(&doc.nodes[1], Node::Divider));
    assert!(matches!(&doc.nodes[2], Node::Prose(p) if p.text == "after"));
}

#[test]
fn project_scope_survives_render_round_trip() {
    let doc = parse_ok("%Alpha\n    one\n    [ ] two");
    let rendered = render(&doc);
    assert_eq!(rendered, "%Alpha\n    one\n    [ ] two");
    let doc2 = parse_ok(&rendered);
    match &doc2.nodes[0] {
        Node::ProjectScope(ps) => {
            assert_eq!(ps.name, "Alpha");
            assert_eq!(ps.children.len(), 2);
        }
        other => panic!("expected ProjectScope, got {:?}", other),
    }
}

#[test]
fn a_lone_percent_sign_is_prose() {
    let doc = parse_ok("%");
    assert!(matches!(&doc.nodes[0], Node::Prose(p) if p.text == "%"));
}

#[test]
fn task_pressure_field_fields() {
    let src = "\
[!] Implement feature
    depends: design-phase
    validate: tests-pass
    status: in-progress";
    let doc = parse_ok(src);
    if let Node::Task(t) = first_node(&doc) {
        assert_eq!(t.text, "Implement feature");
        assert_eq!(t.depends, Some("design-phase".to_string()));
        assert_eq!(t.validate, Some("tests-pass".to_string()));
        assert_eq!(t.status, Some("in-progress".to_string()));
    } else {
        panic!("expected Task, got {:?}", first_node(&doc));
    }
}

#[test]
fn escaped_quote_in_string_handled() {
    let doc = parse_ok("[!] Say \"hello \\\"world\\\"\" // greeting");
    if let Node::Task(t) = first_node(&doc) {
        assert!(t.text.contains("hello"), "text lost");
    } else {
        panic!("expected Task");
    }
}

#[test]
fn corpus_task_hierarchy_with_gates() {
    let src = "\
# Release v2.0

    [!] Ship API {code-review} {security-scan}
        on_pass:
            [!] Deploy to production
        on_fail:
            [!] Fix security issues

    [o] Write blog post
    [x] Update changelog";
    let doc = parse(src).expect("task hierarchy should parse");
    if let Node::Group(g) = &doc.nodes[0] {
        assert_eq!(g.name, "Release v2.0");
        let tasks: Vec<&Task> = g
            .children
            .iter()
            .filter_map(|n| if let Node::Task(t) = n { Some(t) } else { None })
            .collect();
        assert!(tasks.len() >= 3, "should have 3+ tasks");
        assert!(tasks[0].on_pass.is_some(), "first task should have on_pass");
    } else {
        panic!("expected Group");
    }
}

#[test]
fn header_and_task_lines_render_stably() {
    let src = "# Release  Plan 2\n[!] Ship it now\nretries = 3\n## Notes\n### Deep\n[o] Maybe  later\n[x] Done thing\nmax_size = 00120\n[ ] Open item";
    let doc1 = parse_ok(src);
    let r1 = render(&doc1);
    let doc2 = parse_ok(&r1);
    assert_eq!(render(&doc2), r1);
    let f1 = bit_core::format::format(&doc1);
    let doc3 = parse_ok(&f1);
    assert_eq!(bit_core::format::format(&doc3), f1);
}

#[test]
fn groups_preserve_name() {
    for name in ["A", "Release2", "abcdefghijklmnop"] {
        let doc = parse_ok(&format!("# {}", name));
        assert_eq!(doc.nodes.len(), 1);
        match &doc.nodes[0] {
            Node::Group(g) => {
                assert_eq!(g.name, name);
                assert_eq!(g.depth, 1);
                assert!(g.atoms.is_empty() && g.gates.is_empty() && g.children.is_empty());
            }
            other => panic!("expected Group, got {:?}", other),
        }
    }
}

#[test]
fn tasks_preserve_text() {
    for text in ["A", "Ship it", "x1 y2  z3"] {
        let doc = parse_ok(&format!("[!] {}", text));
        match &doc.nodes[0] {
            Node::Task(t) => {
                assert_eq!(t.text, text);
                assert_eq!(t.marker.kind, TaskKind::Required);
                assert_eq!(t.marker.priority, Priority::Required);
                assert_eq!(t.label, None);
            }
            other => panic!("expected Task, got {:?}", other),
        }
    }
}
