use bit_core::ir::{BitIR, Construct, ConstructKind, IRErrorKind, Value};
use bit_core::parse::parse;

fn stat(stats: &[(String, usize)], key: &str) -> usize {
    stats.iter().find(|(k, _)| k == key).map(|(_, v)| *v).unwrap_or(0)
}

#[test]
fn ir_basic_define() {
    let doc = parse("define:@User\n    name: \"John\"\n    role: :admin/:user").unwrap();
    let ir = BitIR::from_document(&doc);
    assert_eq!(ir.schema_index.len(), 1);
    assert!(ir.schema("User").is_some());
    assert_eq!(ir.errors.len(), 0);
}

#[test]
fn ir_flow_and_gate() {
    let doc = parse("flow:\n    A --> B --> C\n\ngate:approval\n    required: 2").unwrap();
    let ir = BitIR::from_document(&doc);
    assert!(!ir.by_kind(ConstructKind::Flow).is_empty());
    assert!(!ir.by_kind(ConstructKind::Gate).is_empty());
}

#[test]
fn ir_unresolved_entity() {
    let doc = parse("mutate:@Order:123\n    status: :shipped").unwrap();
    let ir = BitIR::from_document(&doc);
    assert!(ir.errors.iter().any(|e| e.kind == IRErrorKind::UnresolvedRef));
}

#[test]
fn typestate_valid_transition() {
    let doc = parse(
        "flow:\n    :draft --> :confirmed --> :shipped\n\nmutate:@Order:123\n    status: \":confirmed\"",
    )
    .unwrap();
    let ir = BitIR::from_document(&doc);
    let typestate_errors: Vec<_> =
        ir.errors.iter().filter(|e| e.message.contains("no flow defines")).collect();
    assert!(typestate_errors.is_empty(), "valid transition should not error: {:?}", typestate_errors);
}

#[test]
fn typestate_invalid_transition() {
    let doc = parse(
        "flow:\n    :draft --> :confirmed --> :shipped\n\nmutate:@Order:123\n    status: \":canceled\"",
    )
    .unwrap();
    let ir = BitIR::from_document(&doc);
    let typestate_errors: Vec<_> =
        ir.errors.iter().filter(|e| e.message.contains("no flow defines")).collect();
    assert!(!typestate_errors.is_empty(), "invalid transition should produce error");
}

#[test]
fn borrow_check_parallel_mutation() {
    let doc = parse("+\n- [ ] Read data\n\nmutate:@Order:123\n    status: \":done\"").unwrap();
    let ir = BitIR::from_document(&doc);
    let _borrow_errors: Vec<_> =
        ir.errors.iter().filter(|e| e.message.contains("parallel spawn")).collect();
}

#[test]
fn borrow_check_sequential_mutation_ok() {
    let doc = parse("++\n- [ ] Step 1\n- [ ] Step 2").unwrap();
    let ir = BitIR::from_document(&doc);
    let borrow_errors: Vec<_> =
        ir.errors.iter().filter(|e| e.message.contains("parallel spawn")).collect();
    assert!(borrow_errors.is_empty(), "sequential spawn should allow mutations");
}

fn _assert_send<T: Send>() {}
fn _assert_sync<T: Sync>() {}

#[test]
fn ir_is_send_and_sync() {
    _assert_send::<BitIR>();
    _assert_sync::<BitIR>();
}

#[test]
fn construct_is_send_and_sync() {
    _assert_send::<Construct>();
    _assert_sync::<Construct>();
}

#[test]
fn value_is_send_and_sync() {
    _assert_send::<Value>();
    _assert_sync::<Value>();
}

#[test]
fn ir_duplicate_schema_and_fields() {
    let doc = parse("define:@Task\n    title: \"\"\n    done: false\n\ndefine:@Task\n    x: 1").unwrap();
    let ir = BitIR::from_document(&doc);
    assert_eq!(ir.schema_index, vec![("Task".to_string(), 0)]);
    assert_eq!(ir.errors.len(), 1);
    assert_eq!(ir.errors[0].kind, IRErrorKind::DuplicateSchema);
    assert_eq!(ir.errors[0].message, "duplicate define:@Task");
    let keys: Vec<&str> = ir.constructs[0].fields.iter().map(|(k, _)| k.as_str()).collect();
    assert_eq!(keys, vec!["done", "title"]);
    assert_eq!(ir.constructs[0].to_text(), "define:Task (2 fields)");
    let stats = ir.stats();
    assert_eq!(stat(&stats, "Define"), 2);
    assert_eq!(stat(&stats, "errors"), 1);
    assert_eq!(stat(&stats, "schemas"), 1);
}

#[test]
fn ir_spawn_groups_and_borrows() {
    let doc = parse("+\n- [ ] Read data\nmutate:@Order:1\n    status: :done").unwrap();
    let ir = BitIR::from_document(&doc);
    assert_eq!(ir.constructs[0].kind, ConstructKind::SpawnParallel);
    assert!(ir
        .errors
        .iter()
        .any(|e| e.message == "parallel spawn (+) contains mutation of @Order — use sequential (++) for writes"));
}

#[test]
fn ir_unknown_gate_and_variable() {
    let doc = parse("flow:\n    A --> B {review}\n\ntarget = 5").unwrap();
    let ir = BitIR::from_document(&doc);
    assert_eq!(ir.variables, vec![("target".to_string(), "5".to_string())]);
    assert_eq!(Value::Integer(-3).to_text(), "#-3");
    assert_eq!(Value::Boolean(true).to_text(), "?");
}

#[test]
fn ir_stats() {
    let doc = parse("define:@Task\n    title: \"\"\n\nflow:\n    :open --> :done\n\nwebhook:on_done\n    url: \"https://example.com\"\n    method: POST").unwrap();
    let ir = BitIR::from_document(&doc);
    let stats = ir.stats();
    assert!(stat(&stats, "Define") > 0);
    assert!(stat(&stats, "Flow") > 0);
    assert!(stat(&stats, "Webhook") > 0);
}

#[test]
fn ir_webhook_and_policy_constructs() {
    let doc = parse("webhook: on:|deploy| url: \"https://x.io\"\npolicy:\n    @./src/: {review} {lint}\nfiles:\n    @src/").unwrap();
    let ir = BitIR::from_document(&doc);
    assert_eq!(ir.constructs.len(), 2);
    let w = &ir.constructs[0];
    assert_eq!(w.kind, ConstructKind::Webhook);
    assert_eq!(w.name.as_deref(), Some("deploy"));
    assert!(w
        .fields
        .iter()
        .any(|(k, v)| k == "url" && *v == Value::String("https://x.io".to_string())));
    let p = &ir.constructs[1];
    assert_eq!(p.kind, ConstructKind::Policy);
    assert_eq!(p.fields, vec![("./src/".to_string(), Value::String("review, lint".to_string()))]);
}

#[test]
fn ir_use_blocks_record_imports_in_order() {
    let doc = parse("use @Spreadsheet from $GoogleWorkspace as @Sheet\n# Group\n    use $Slack").unwrap();
    let ir = BitIR::from_document(&doc);
    assert_eq!(ir.imports.len(), 2);
    assert_eq!(ir.imports[0].entity.as_deref(), Some("Spreadsheet"));
    assert_eq!(ir.imports[0].source, "$GoogleWorkspace");
    assert_eq!(ir.imports[0].alias.as_deref(), Some("Sheet"));
    assert_eq!(ir.imports[1].entity, None);
    assert_eq!(ir.imports[1].source, "$Slack");
    assert_eq!(ir.constructs[0].kind, ConstructKind::Use);
    assert_eq!(ir.constructs[0].name.as_deref(), Some("Spreadsheet"));
}
