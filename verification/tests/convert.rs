use bit_core::convert::{
    from_json, from_markdown, make_task, nodes_to_json_value, ConvertError, JsonOut,
};
use bit_core::types::{CodeBlock, Define, Document, FieldDef, FieldDefault, Group, Node, TaskKind};

/// Writes the library's JSON value out through `serde_json`.
fn to_serde(v: &JsonOut) -> serde_json::Value {
    match v {
        JsonOut::Null => serde_json::Value::Null,
        JsonOut::Bool(b) => serde_json::Value::Bool(*b),
        JsonOut::Int(n) => serde_json::Value::Number((*n).into()),
        JsonOut::Float(t) => t
            .parse::<f64>()
            .ok()
            .and_then(serde_json::Number::from_f64)
            .map(serde_json::Value::Number)
            .unwrap_or(serde_json::Value::Null),
        JsonOut::Str(s) => serde_json::Value::String(s.clone()),
        JsonOut::Array(items) => serde_json::Value::Array(items.iter().map(to_serde).collect()),
        JsonOut::Object(m) => serde_json::Value::Object(
            m.iter().map(|(k, x)| (k.clone(), to_serde(x))).collect(),
        ),
    }
}

fn to_json(doc: &Document) -> Result<String, ConvertError> {
    serde_json::to_string_pretty(&to_serde(&nodes_to_json_value(&doc.nodes)))
        .map_err(|e| ConvertError::SerializeError(e.to_string()))
}

fn chars(s: &str) -> Vec<char> {
    s.chars().collect()
}

#[test]
fn test_json_object_to_define() {
    let json = r#"{"User": {"name": "alice"}}"#;
    let doc = from_json(json).unwrap();
    assert_eq!(doc.nodes.len(), 1);
    match &doc.nodes[0] {
        Node::Define(d) => {
            assert_eq!(d.entity, "User");
            assert_eq!(d.fields.len(), 1);
            assert_eq!(d.fields[0].name, "name");
            match &d.fields[0].default {
                FieldDefault::Str(s) => assert_eq!(s, "alice"),
                other => panic!("expected Str, got {:?}", other),
            }
        }
        other => panic!("expected Define, got {:?}", other),
    }
}

#[test]
fn test_json_array_to_defines() {
    let json = r#"{"Users": [{"name": "alice"}, {"name": "bob"}]}"#;
    let doc = from_json(json).unwrap();
    assert_eq!(doc.nodes.len(), 2);
    for (i, expected_name) in [("alice", 0), ("bob", 1)] {
        match &doc.nodes[expected_name] {
            Node::Define(d) => {
                assert_eq!(d.entity, "Users");
                assert_eq!(d.fields[0].name, "name");
                match &d.fields[0].default {
                    FieldDefault::Str(s) => assert_eq!(s, i),
                    other => panic!("expected Str, got {:?}", other),
                }
            }
            other => panic!("expected Define, got {:?}", other),
        }
    }
}

#[test]
fn test_json_nested_types() {
    let json = r#"{"Config": {"count": 42, "enabled": true, "ratio": 3.14}}"#;
    let doc = from_json(json).unwrap();
    match &doc.nodes[0] {
        Node::Define(d) => {
            assert_eq!(d.entity, "Config");
            for field in &d.fields {
                match field.name.as_str() {
                    "count" => assert!(matches!(field.default, FieldDefault::Int(42))),
                    "enabled" => assert!(matches!(field.default, FieldDefault::Bool(true))),
                    "ratio" => {
                        if let FieldDefault::Float(f) = &field.default {
                            let f: f64 = f.parse().unwrap();
                            assert!((f - 3.14_f64).abs() < 0.001);
                        } else {
                            panic!("expected Float");
                        }
                    }
                    _ => panic!("unexpected field {}", field.name),
                }
            }
        }
        other => panic!("expected Define, got {:?}", other),
    }
}

#[test]
fn test_markdown_headers_to_groups() {
    let md = "# Title\n## Sub";
    let doc = from_markdown(md).unwrap();
    assert_eq!(doc.nodes.len(), 2);
    match &doc.nodes[0] {
        Node::Group(g) => {
            assert_eq!(g.depth, 1);
            assert_eq!(g.name, "Title");
        }
        other => panic!("expected Group, got {:?}", other),
    }
    match &doc.nodes[1] {
        Node::Group(g) => {
            assert_eq!(g.depth, 2);
            assert_eq!(g.name, "Sub");
        }
        other => panic!("expected Group, got {:?}", other),
    }
}

#[test]
fn test_markdown_tasks() {
    let md = "- [ ] Pending\n- [x] Done";
    let doc = from_markdown(md).unwrap();
    assert_eq!(doc.nodes.len(), 2);
    match &doc.nodes[0] {
        Node::Task(t) => {
            assert_eq!(t.marker.kind, TaskKind::Required);
            assert_eq!(t.text, "Pending");
        }
        other => panic!("expected Task, got {:?}", other),
    }
    match &doc.nodes[1] {
        Node::Task(t) => {
            assert_eq!(t.marker.kind, TaskKind::Completed);
            assert_eq!(t.text, "Done");
        }
        other => panic!("expected Task, got {:?}", other),
    }
}

#[test]
fn test_markdown_code_block() {
    let md = "```rust\nfn main() {}\n```";
    let doc = from_markdown(md).unwrap();
    assert_eq!(doc.nodes.len(), 1);
    match &doc.nodes[0] {
        Node::CodeBlock(cb) => {
            assert_eq!(cb.lang.as_deref(), Some("rust"));
            assert_eq!(cb.content, "fn main() {}");
        }
        other => panic!("expected CodeBlock, got {:?}", other),
    }
}

#[test]
fn test_markdown_prose() {
    let md = "Hello world.\nThis is a paragraph.";
    let doc = from_markdown(md).unwrap();
    assert_eq!(doc.nodes.len(), 1);
    match &doc.nodes[0] {
        Node::Prose(p) => {
            assert_eq!(p.text, "Hello world. This is a paragraph.");
        }
        other => panic!("expected Prose, got {:?}", other),
    }
}

#[test]
fn test_markdown_unadorned_list_items() {
    let md = "- Buy groceries\n- Walk dog";
    let doc = from_markdown(md).unwrap();
    assert_eq!(doc.nodes.len(), 2);
    match &doc.nodes[0] {
        Node::Task(t) => {
            assert_eq!(t.text, "Buy groceries");
            assert_eq!(t.marker.kind, TaskKind::Required);
        }
        other => panic!("expected Task, got {:?}", other),
    }
}

#[test]
fn test_invalid_json() {
    let result = from_json("not json");
    assert!(result.is_err());
    match result.unwrap_err() {
        ConvertError::InvalidJson(_) => {}
        other => panic!("expected InvalidJson, got {:?}", other),
    }
}

#[test]
fn json_primitives_in_arrays_become_prose_lines() {
    let doc = from_json(r#"{"tags": ["a", 1], "note": "hi", "n": null}"#).unwrap();
    let texts: Vec<String> = doc
        .nodes
        .iter()
        .map(|n| match n {
            Node::Prose(p) => p.text.clone(),
            other => panic!("expected Prose, got {:?}", other),
        })
        .collect();
    assert_eq!(texts, vec!["n: nil", "note: hi", "tags: \"a\"", "tags: 1"]);
}

#[test]
fn markdown_code_block_keeps_indentation_and_skips_blank_lines() {
    let doc = from_markdown("\n```\n  x\ny\n```\n\nText").unwrap();
    assert_eq!(doc.nodes.len(), 2);
    match &doc.nodes[0] {
        Node::CodeBlock(cb) => {
            assert_eq!(cb.lang, None);
            assert_eq!(cb.content, "  x\ny");
        }
        other => panic!("expected CodeBlock, got {:?}", other),
    }
}

#[test]
fn test_to_json_define() {
    let doc = Document {
        nodes: vec![Node::Define(Define {
            entity: "User".to_string(),
            atoms: vec![],
            fields: vec![FieldDef {
                name: "name".to_string(),
                plural: false,
                default: FieldDefault::Str("alice".to_string()),
            }],
            from_scope: None,
            mod_scope: None,
            workspace_scope: None,
        })],
        ..Default::default()
    };
    let json_str = to_json(&doc).unwrap();
    let parsed: serde_json::Value = serde_json::from_str(&json_str).unwrap();
    assert_eq!(parsed["User"]["name"], "alice");
}

#[test]
fn test_to_json_tasks() {
    let doc = Document {
        nodes: vec![
            make_task(TaskKind::Required, &chars("Do thing")),
            make_task(TaskKind::Completed, &chars("Did thing")),
        ],
        ..Default::default()
    };
    let json_str = to_json(&doc).unwrap();
    let parsed: serde_json::Value = serde_json::from_str(&json_str).unwrap();
    let tasks = parsed["tasks"].as_array().unwrap();
    assert_eq!(tasks.len(), 2);
    assert_eq!(tasks[0]["status"], "pending");
    assert_eq!(tasks[0]["text"], "Do thing");
    assert_eq!(tasks[1]["status"], "completed");
    assert_eq!(tasks[1]["text"], "Did thing");
}

#[test]
fn test_to_json_roundtrip() {
    let original = r#"{"User": {"name": "alice", "age": 30}}"#;
    let doc1 = from_json(original).unwrap();
    let json1 = to_json(&doc1).unwrap();
    let doc2 = from_json(&json1).unwrap();
    match (&doc1.nodes[0], &doc2.nodes[0]) {
        (Node::Define(d1), Node::Define(d2)) => {
            assert_eq!(d1.entity, d2.entity);
            assert_eq!(d1.fields.len(), d2.fields.len());
            for f1 in &d1.fields {
                let f2 = d2.fields.iter().find(|f| f.name == f1.name).unwrap();
                let v1 = to_serde(&bit_core::convert::field_default_to_json(&f1.default));
                let v2 = to_serde(&bit_core::convert::field_default_to_json(&f2.default));
                assert_eq!(v1, v2, "field {} mismatch", f1.name);
            }
        }
        _ => panic!("expected Define nodes in both"),
    }
}

#[test]
fn to_json_groups_defines_and_blocks() {
    let user = |v: &str| {
        Node::Define(Define {
            entity: "User".to_string(),
            atoms: vec![],
            fields: vec![FieldDef {
                name: "name".to_string(),
                plural: false,
                default: FieldDefault::Str(v.to_string()),
            }],
            from_scope: None,
            mod_scope: None,
            workspace_scope: None,
        })
    };
    let doc = Document {
        nodes: vec![
            user("a"),
            user("b"),
            Node::CodeBlock(CodeBlock { lang: Some("sh".to_string()), content: "ls".to_string() }),
            Node::Group(Group {
                depth: 1,
                name: "Plan".to_string(),
                atoms: vec![],
                gates: vec![],
                children: vec![make_task(TaskKind::Open, &chars("Step"))],
            }),
        ],
    };
    let v = to_serde(&nodes_to_json_value(&doc.nodes));
    assert_eq!(v["Plan"]["tasks"][0]["status"], "open");
    assert_eq!(v["Plan"]["tasks"][0]["text"], "Step");
    assert_eq!(v["User"][0]["name"], "a");
    assert_eq!(v["User"][1]["name"], "b");
    assert_eq!(v["code_blocks"][0]["lang"], "sh");
    assert_eq!(v["code_blocks"][0]["content"], "ls");
}

#[test]
fn markdown_hash_lines_that_are_no_headings_become_prose() {
    let doc = bit_core::convert::from_markdown("  # Title").unwrap();
    assert_eq!(doc.nodes.len(), 1);
    match &doc.nodes[0] {
        bit_core::types::Node::Prose(p) => {
            assert_eq!(p.text, "# Title");
            assert!(p.inline.is_empty());
        }
        other => panic!("expected Prose, got {:?}", other),
    }
    let doc = bit_core::convert::from_markdown("#").unwrap();
    assert!(matches!(&doc.nodes[0], bit_core::types::Node::Prose(p) if p.text == "#"));
    let doc = bit_core::convert::from_markdown("text
  # Title
more").unwrap();
    assert_eq!(doc.nodes.len(), 2);
    assert!(matches!(&doc.nodes[1], bit_core::types::Node::Prose(p) if p.text == "# Title more"));
}

#[test]
fn from_json_reads_text_and_refuses_non_json() {
    let doc = from_json("{\"note\": \"hi\"}").unwrap();
    assert_eq!(doc.nodes.len(), 1);
    assert!(matches!(from_json("{not json"), Err(ConvertError::InvalidJson(_))));
}

#[test]
fn json_integer_beyond_i64_becomes_a_float_default() {
    let doc = from_json("{\"meter\": {\"reading\": 18446744073709551615}}").unwrap();
    match &doc.nodes[0] {
        Node::Define(d) => {
            assert_eq!(d.fields[0].name, "reading");
            match &d.fields[0].default {
                FieldDefault::Float(f) => assert_eq!(f, "18446744073709551615"),
                other => panic!("expected Float, got {:?}", other),
            }
        }
        other => panic!("expected Define, got {:?}", other),
    }
}
