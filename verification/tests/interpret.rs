use bit_core::interpret::{ExecContext, ExecEventKind, NumberRank};
use bit_core::ir::{BitIR, Construct, ConstructKind, Value};
use bit_core::parse::parse;

/// The texts a run may read as numbers: variable values and the right-hand
/// sides of `>` and `<` conditions.
fn number_texts(cs: &[Construct], out: &mut Vec<String>) {
    for c in cs {
        for (k, v) in &c.fields {
            if let Value::String(s) = v {
                if c.kind == ConstructKind::Variable && k == "value" {
                    out.push(s.clone());
                }
                if c.kind == ConstructKind::Conditional && k == "condition" {
                    for op in ['>', '<'] {
                        if let Some(p) = s.find(op) {
                            out.push(s[p + 1..].trim().trim_start_matches('=').trim().to_string());
                        }
                    }
                }
            }
        }
        number_texts(&c.children, out);
    }
}

/// Ranks the texts that read as floating-point numbers.
fn ranks_for(ir: &BitIR) -> Vec<(String, NumberRank)> {
    let mut texts: Vec<String> = ir.variables.iter().map(|(_, v)| v.clone()).collect();
    number_texts(&ir.constructs, &mut texts);
    let mut nums: Vec<f64> = texts
        .iter()
        .filter_map(|t| t.parse::<f64>().ok())
        .filter(|x| !x.is_nan())
        .collect();
    nums.sort_by(|a, b| a.partial_cmp(b).unwrap());
    nums.dedup();
    texts
        .iter()
        .filter_map(|t| {
            t.parse::<f64>().ok().map(|x| {
                let r = if x.is_nan() {
                    NumberRank::NaN
                } else {
                    NumberRank::At(nums.iter().position(|y| *y == x).unwrap() as u64)
                };
                (t.clone(), r)
            })
        })
        .collect()
}

fn run(src: &str) -> ExecContext {
    let doc = parse(src).unwrap();
    let ir = BitIR::from_document(&doc);
    let mut ctx = ExecContext::new();
    ctx.execute(&ir, &ranks_for(&ir));
    ctx
}

fn has_key<V>(m: &[(String, V)], k: &str) -> bool {
    m.iter().any(|(x, _)| x == k)
}

fn stat(m: &[(String, usize)], k: &str) -> usize {
    m.iter().find(|(x, _)| x == k).map(|(_, v)| *v).unwrap_or(0)
}

#[test]
fn exec_define_and_mutate() {
    let ctx = run(
        "define:@User\n    name: \"\"\n    role: :admin\n\nmutate:@User:alice\n    name: \"Alice\"\n    role: :admin",
    );
    assert!(has_key(&ctx.entities, "@User"));
    assert!(has_key(&ctx.entities, "@User:alice"));
    assert!(ctx.trace.iter().any(|e| e.kind == ExecEventKind::SchemaRegistered));
    assert!(ctx.trace.iter().any(|e| e.kind == ExecEventKind::EntityMutated));
}

#[test]
fn exec_flow_transitions() {
    let ctx = run("flow:\n    A --> B --> C");
    assert!(!ctx.flow_states.is_empty());
    assert!(ctx.trace.iter().any(|e| e.kind == ExecEventKind::FlowTransition));
}

#[test]
fn exec_gate_and_task() {
    let ctx = run("gate:review\n    approvals: 2\n\n[!] Write tests\n[x] Deploy");
    assert!(has_key(&ctx.gate_results, "review"));
    assert!(ctx.trace.iter().any(|e| e.kind == ExecEventKind::GateEvaluated));
    assert!(ctx.trace.iter().any(|e| e.kind == ExecEventKind::TaskUpdated));
}

#[test]
fn exec_conditional_with_variable() {
    let ctx = run("budget = 200000\n\nif budget > 100000:\n    [!] Requires VP approval");
    assert!(ctx.trace.iter().any(|e| e.kind == ExecEventKind::ConditionalEvaluated));
    let cond_event = ctx
        .trace
        .iter()
        .find(|e| e.kind == ExecEventKind::ConditionalEvaluated)
        .unwrap();
    assert!(cond_event.detail.contains("true"));
}

#[test]
fn exec_full_document() {
    let source = r#"define:@Task
    title: ""
    status: :open

flow:
    :open --> :in_progress --> :done

gate:review
    approvals: 2

- [ ] Write tests
- [x] Deploy

webhook:on_done
    url: "https://example.com"
    method: POST"#;
    let ctx = run(source);
    let summary = ctx.summary();
    assert!(stat(&summary, "total_events") > 0);
    assert!(stat(&summary, "entities") > 0);
}

fn _assert_send<T: Send>() {}

#[test]
fn exec_context_is_send() {
    _assert_send::<ExecContext>();
}

#[test]
fn exec_flow_state_and_trace_details() {
    let ctx = run("flow:\n    A --> B --> C\n\nmutate:@Order:1\n    status: :new\n\ndelete:@Order:1");
    assert_eq!(ctx.flow_states, vec![("unnamed".to_string(), "B".to_string())]);
    let details: Vec<&str> = ctx.trace.iter().map(|e| e.detail.as_str()).collect();
    assert_eq!(details[0], "A --> B");
    assert_eq!(ctx.trace[1].construct, "mutate:@Order:1");
    assert_eq!(ctx.trace[1].detail, "1 fields updated");
    assert_eq!(ctx.trace[2].construct, "delete:@Order:1");
    assert!(ctx.entities.is_empty());
}

#[test]
fn exec_conditional_false_skips_children() {
    let ctx = run("budget = 50\n\nif budget > 100000:\n    [!] Requires VP approval");
    let cond = ctx
        .trace
        .iter()
        .find(|e| e.kind == ExecEventKind::ConditionalEvaluated)
        .unwrap();
    assert_eq!(cond.detail, "result=false");
    assert!(!ctx.trace.iter().any(|e| e.kind == ExecEventKind::TaskUpdated));
}

#[test]
fn exec_gate_with_requires() {
    let ctx = run("[x] Deploy\n\ngate:ship\n    requires: [Deploy, :tests]");
    let g = ctx.trace.iter().find(|e| e.kind == ExecEventKind::GateEvaluated).unwrap();
    assert_eq!(g.construct, "gate:ship");
    assert_eq!(g.detail, "uncertain — unknown conditions: tests");
}

#[test]
fn exec_webhook() {
    let doc = parse("webhook:on_deploy\n    url: \"https://hooks.example.com\"\n    method: POST").unwrap();
    let ir = BitIR::from_document(&doc);
    let mut ctx = ExecContext::new();
    ctx.execute(&ir, &ranks_for(&ir));

    assert!(ctx
        .trace
        .iter()
        .any(|e| e.kind == ExecEventKind::WebhookTriggered));
}

#[test]
fn exec_sync_schedules() {
    let ctx = run("sync:orders\n    schedule: hourly\n    source: crm");
    let ev = ctx
        .trace
        .iter()
        .find(|e| e.kind == ExecEventKind::SyncScheduled)
        .expect("a sync event");
    assert_eq!(ev.construct, "sync:orders");
    assert_eq!(ev.detail, "schedule=hourly source=crm");
}
