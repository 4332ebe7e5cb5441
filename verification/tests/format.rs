use bit_core::parse::parse;

/// Assert that formatting is idempotent:
///   format(parse(s)) == format(parse(format(parse(s))))
fn assert_idempotent(src: &str) {
    let doc1 = parse(src).expect("first parse failed");
    let formatted1 = bit_core::format::format(&doc1);
    let doc2 = parse(&formatted1).expect("second parse (of formatted output) failed");
    let formatted2 = bit_core::format::format(&doc2);
    assert_eq!(
        formatted1, formatted2,
        "Format is not idempotent.\n--- First pass ---\n{}\n--- Second pass ---\n{}",
        formatted1, formatted2
    );
}

#[test]
fn test_idempotent_tasks_and_groups() {
    assert_idempotent(
        r#"
# My Project

[!] Required task
[ ] Open task
[x] Completed task
-[ ] Subtask
+[!] Parallel required
"#,
    );
}

#[test]
fn test_idempotent_define_and_mutate() {
    assert_idempotent(
        r#"
define:@User
  name: "anonymous"
  age: 0
  active: true

mutate:@User:123
  name: "Alice"
  active: false
"#,
    );
}

#[test]
fn test_idempotent_flow_and_validate() {
    assert_idempotent(
        r#"
flow:
  start -> review
  review -> done

validate MyCheck:
  id: check-1
  targets: alpha, beta
  [ ] verify something
"#,
    );
}

#[test]
fn test_idempotent_code_block() {
    assert_idempotent(
        r#"
# Section

```rust
fn main() {
    println!("hello");
}
```
"#,
    );
}

#[test]
fn test_trailing_newline() {
    let src = "[ ] hello";
    let doc = parse(src).expect("parse failed");
    let out = bit_core::format::format(&doc);
    assert!(out.ends_with('\n'), "output must end with a newline");
}

#[test]
fn test_no_trailing_whitespace() {
    let src = "[ ] task with trailing spaces   \n# Group  \n  [ ] child  ";
    let doc = parse(src).expect("parse failed");
    let out = bit_core::format::format(&doc);
    for line in out.lines() {
        assert_eq!(
            line,
            line.trim_end(),
            "line has trailing whitespace: {:?}",
            line
        );
    }
}

#[test]
fn test_idempotent_comment_and_divider() {
    assert_idempotent(
        r#"
// This is a comment
---
[ ] a task
// another comment
"#,
    );
}

#[test]
fn test_idempotent_variable() {
    assert_idempotent("count = 42\nname = hello world");
}

#[test]
fn test_idempotent_prose() {
    assert_idempotent("Some prose line here.\nAnother prose line.");
}

#[test]
fn format_exact_output_for_group_and_task() {
    let doc = parse("# G\n    [!] Do it {review}\n").expect("parse failed");
    assert_eq!(bit_core::format::format(&doc), "# G\n  [!] Do it {review}\n");
}

#[test]
fn format_separates_top_level_blocks() {
    let doc = parse("# A\n# B").expect("parse failed");
    assert_eq!(bit_core::format::format(&doc), "# A\n\n# B\n");
}

#[test]
fn format_empty_document_is_single_newline() {
    let doc = parse("").expect("parse failed");
    assert_eq!(bit_core::format::format(&doc), "\n");
}

#[test]
fn test_idempotent_flow_edges() {
    let doc = parse("flow:\n    A --> B\n    C +--> D").unwrap();
    let out = bit_core::format::format(&doc);
    assert_eq!(out, "flow:\n  A --> B\n  C +--> D\n");
    assert_idempotent("flow:\n    A --> B\n    C +--> D");
}

#[test]
fn test_output_shape() {
    let out = bit_core::format::format(&parse("# A   \n\n\n[!] t   \n").unwrap());
    assert!(out.ends_with('\n') && !out.ends_with("\n\n"));
    assert!(out.lines().all(|l| l == l.trim_end()));
}

#[test]
fn test_idempotent_check_block() {
    assert_idempotent("check: smoke\n    id: smoke\n    depends_on: @Check:first\n    kind: query\n    entity: Task\n");
    let doc = parse("check: smoke\n    kind: query\n    id: smoke").unwrap();
    assert_eq!(bit_core::format::format(&doc), "check: smoke\n  id: smoke\n  kind: query\n");
}

#[test]
fn test_idempotent_sync_group() {
    assert_idempotent("# Sync\n    ## Users\n        class: canon\n        source: db\n");
}

#[test]
fn test_idempotent_entity_def() {
    let src = "## Entity: Charge\n  source: stripe.charges\n  identity: id\n  fields:\n    - amount: integer\n";
    assert_idempotent(src);
    let doc = parse(src).unwrap();
    assert_eq!(
        bit_core::format::format(&doc),
        "## Entity: Charge\n  source: stripe.charges\n  namespace:\n  identity: id\n  fields:\n    amount: integer\n"
    );
}

#[test]
fn test_idempotent_use_block() {
    assert_idempotent("use @Spreadsheet from $Excel as @Sheet\n    mode: read\n");
    let doc = parse("use $Slack\n    channel: ops").unwrap();
    assert_eq!(bit_core::format::format(&doc), "use $Slack\n  channel: ops\n");
}

#[test]
fn test_idempotent_serve() {
    assert_idempotent("serve:web|npm run dev|\n    port: 3000\n");
    let doc = parse("serve:web|npm run dev|\n    port: 3000").unwrap();
    assert_eq!(bit_core::format::format(&doc), "serve:web | npm run dev\n  port: 3000\n");
}

#[test]
fn test_format_lattice_sections() {
    let doc = parse("## Schema\n    name: id\n    type: string\n    required: true\n## Unit Cell\n    cell text").unwrap();
    assert_eq!(
        bit_core::format::format(&doc),
        "lattice_schema:\n  name: id\n    type: string\n    required: true\n\nunit_cell:\n  cell text\n"
    );
}

#[test]
fn test_format_project_scope() {
    let doc = parse("%Alpha\n    one\n    [!] two").unwrap();
    assert_eq!(bit_core::format::format(&doc), "%Alpha\n  one\n  [!] two\n");
}

#[test]
fn formatted_text_ends_with_one_newline_and_no_trailing_whitespace() {
    let doc = parse("# Plan   \n    [!] Ship it   \n    note  \n\n\n\nflow:\n    a --> b   \n\n").unwrap();
    let out = bit_core::format::format(&doc);
    assert!(out.ends_with('\n'));
    assert!(!out.ends_with("\n\n"));
    assert!(out.lines().all(|l| l == l.trim_end()));
}

#[test]
fn formatted_task_markers_read_back_the_same() {
    for m in ["[!]", "[o]", "[x]", "[ ]", "[?]", "[ab!]", "[b?]", "[12!]", "[3o]", "[7]", "+[!]", "++[o]", "--[x]", "[label]"] {
        let doc1 = parse(&format!("{} Task text", m)).unwrap();
        let out = bit_core::format::format(&doc1);
        let doc2 = parse(&out).unwrap();
        match (&doc1.nodes[0], &doc2.nodes[0]) {
            (bit_core::types::Node::Task(a), bit_core::types::Node::Task(b)) => {
                assert_eq!(a.marker, b.marker, "marker {}", m);
                assert_eq!(a.label, b.label, "label {}", m);
                assert_eq!(b.text, "Task text");
            }
            other => panic!("expected tasks for {}, got {:?}", m, other),
        }
    }
}
