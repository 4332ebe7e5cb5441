use bit_core::lex::{FieldValue, KeywordKind, Lexer, TaskMarkerKind, Token};

#[test]
fn lex_define() {
    let mut lexer = Lexer::new("define:@User\n    name: \"John\"\n    role: :admin");
    let tokens = lexer.tokenize_all();
    assert!(matches!(
        tokens[0],
        Token::Keyword {
            keyword: KeywordKind::Define,
            ..
        }
    ));
    assert!(matches!(tokens[1], Token::Field { .. }));
    assert!(matches!(tokens[2], Token::Field { .. }));
}

#[test]
fn lex_flow_with_arrows() {
    let mut lexer = Lexer::new("flow:deploy\n    build --> test\n    test --> production");
    let tokens = lexer.tokenize_all();
    assert!(matches!(
        tokens[0],
        Token::Keyword {
            keyword: KeywordKind::Flow,
            ..
        }
    ));
    assert!(matches!(tokens[1], Token::Arrow { .. }));
    assert!(matches!(tokens[2], Token::Arrow { .. }));
}

#[test]
fn lex_mermaid_flow() {
    let mut lexer = Lexer::new("flow:ci\n    graph TD\n    A -->|approved| B\n    B -.-> C");
    let tokens = lexer.tokenize_all();
    assert!(matches!(
        tokens[0],
        Token::Keyword {
            keyword: KeywordKind::Flow,
            ..
        }
    ));
    assert!(matches!(tokens[1], Token::Text { .. }));
    assert!(matches!(tokens[2], Token::Arrow { .. }));
    if let Token::Arrow { label, .. } = &tokens[2] {
        assert_eq!(label.as_deref(), Some("approved"));
    }
}

#[test]
fn lex_bound() {
    let mut lexer = Lexer::new("bound:rate-limit\n    max: 100");
    let tokens = lexer.tokenize_all();
    assert!(matches!(
        tokens[0],
        Token::Keyword {
            keyword: KeywordKind::Bound,
            ..
        }
    ));
}

#[test]
fn lex_directive() {
    let mut lexer = Lexer::new("@priority high\n@due 2026-04-01");
    let tokens = lexer.tokenize_all();
    assert!(matches!(tokens[0], Token::Directive { .. }));
    assert!(matches!(tokens[1], Token::Directive { .. }));
}

#[test]
fn lex_task_markers() {
    let mut lexer = Lexer::new("- [ ] Open\n- [x] Done\n- [!] Blocked\n[1!] First");
    let tokens = lexer.tokenize_all();
    assert!(matches!(
        tokens[0],
        Token::Task {
            marker: TaskMarkerKind::Open,
            ..
        }
    ));
    assert!(matches!(
        tokens[1],
        Token::Task {
            marker: TaskMarkerKind::Done,
            ..
        }
    ));
    assert!(matches!(
        tokens[2],
        Token::Task {
            marker: TaskMarkerKind::Blocked,
            ..
        }
    ));
    assert!(matches!(
        tokens[3],
        Token::Task {
            marker: TaskMarkerKind::Numbered(1),
            ..
        }
    ));
}

#[test]
fn lex_field_types() {
    let mut lexer = Lexer::new(
        "    count: #42\n    price: ##9.99\n    active: ?\n    state: :draft/:published\n    ref: @User",
    );
    let tokens = lexer.tokenize_all();
    assert!(matches!(
        tokens[0],
        Token::Field {
            value: FieldValue::Integer(42),
            ..
        }
    ));
    assert!(matches!(
        tokens[1],
        Token::Field {
            value: FieldValue::Float(_),
            ..
        }
    ));
    assert!(matches!(
        tokens[2],
        Token::Field {
            value: FieldValue::Boolean(true),
            ..
        }
    ));
    assert!(matches!(
        tokens[3],
        Token::Field {
            value: FieldValue::Enum(_),
            ..
        }
    ));
    assert!(matches!(
        tokens[4],
        Token::Field {
            value: FieldValue::EntityRef(_),
            ..
        }
    ));
}

#[test]
fn lex_spawn() {
    let mut lexer = Lexer::new("+\n++");
    let tokens = lexer.tokenize_all();
    assert!(matches!(tokens[0], Token::Spawn { parallel: true, .. }));
    assert!(matches!(
        tokens[1],
        Token::Spawn {
            parallel: false,
            ..
        }
    ));
}

#[test]
fn lex_code_block() {
    let mut lexer = Lexer::new("```python\ndef hello():\n    print(\"hello\")\n```");
    let tokens = lexer.tokenize_all();
    assert!(matches!(tokens[0], Token::CodeFence { .. }));
    assert!(matches!(tokens[1], Token::Text { .. }));
    assert!(matches!(tokens[2], Token::Text { .. }));
    assert!(matches!(tokens[3], Token::CodeFence { .. }));
}

#[test]
fn lex_exact_values() {
    let mut lexer = Lexer::new(
        "@priority high\n## Sub\ntarget = 500\n```rust\n  x = 1\n```\n---\n^why\n// note\n\n%Proj",
    );
    let tokens = lexer.tokenize_all();
    assert_eq!(
        tokens[0],
        Token::Directive { kind: "priority".to_string(), value: "high".to_string(), line: 1 }
    );
    assert_eq!(tokens[1], Token::Heading { depth: 2, text: "Sub".to_string(), line: 2 });
    assert_eq!(
        tokens[2],
        Token::Variable {
            name: "target".to_string(),
            value: "500".to_string(),
            line: 3,
            indent: 0
        }
    );
    assert_eq!(tokens[3], Token::CodeFence { language: Some("rust".to_string()), line: 4 });
    assert_eq!(tokens[4], Token::Text { text: "  x = 1".to_string(), line: 5, indent: 2 });
    assert_eq!(tokens[5], Token::CodeFence { language: None, line: 6 });
    assert_eq!(tokens[6], Token::Divider { line: 7 });
    assert_eq!(tokens[7], Token::Embed { tag: "why".to_string(), line: 8 });
    assert_eq!(tokens[8], Token::Comment { text: "note".to_string(), line: 9 });
    assert_eq!(tokens[9], Token::Blank { line: 10 });
    assert_eq!(
        tokens[10],
        Token::Keyword {
            keyword: KeywordKind::ProjectScope,
            name: Some("Proj".to_string()),
            line: 11,
            indent: 0
        }
    );
    assert_eq!(tokens[11], Token::Eof);
    assert_eq!(tokens.len(), 12);
}

#[test]
fn lex_field_and_arrow_parts() {
    let mut lexer = Lexer::new("    email!: \"a@b\"\n    A -.-> B\n? How many");
    assert_eq!(lexer.line_number(), 1);
    assert_eq!(lexer.peek_line(), Some("    email!: \"a@b\"".to_string()));
    let t0 = lexer.next_token();
    assert_eq!(
        t0,
        Token::Field {
            key: "email".to_string(),
            required: true,
            indexed: false,
            value: FieldValue::String("a@b".to_string()),
            line: 1,
            indent: 4
        }
    );
    let t1 = lexer.next_token();
    assert_eq!(
        t1,
        Token::Arrow {
            from: "A".to_string(),
            to: "B".to_string(),
            label: None,
            line: 2,
            indent: 4
        }
    );
    let t2 = lexer.next_token();
    assert_eq!(
        t2,
        Token::Keyword {
            keyword: KeywordKind::InlineQuery,
            name: Some("How many".to_string()),
            line: 3,
            indent: 0
        }
    );
    assert_eq!(lexer.next_token(), Token::Eof);
    assert_eq!(lexer.peek_line(), None);
}

#[test]
fn line_number_follows_the_calls_of_next_token() {
    let mut lx = Lexer::new("alpha\nbeta");
    assert_eq!(lx.line_number(), 1);
    assert_eq!(lx.peek_line(), Some("alpha".to_string()));
    lx.next_token();
    assert_eq!(lx.line_number(), 2);
    assert_eq!(lx.peek_line(), Some("beta".to_string()));
    assert_eq!(lx.line_number(), 2);
    lx.next_token();
    lx.next_token();
    lx.next_token();
    assert_eq!(lx.line_number(), 3);
    assert_eq!(lx.peek_line(), None);
}
