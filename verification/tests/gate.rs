use bit_core::gate::{
    eval_gate, extract_sub_gates, gate_queries, is_score_gate, strip_pipes, GateAnswer, GateFacts,
    GateOutcome, GateQuery,
};

fn default_facts() -> GateFacts {
    GateFacts {
        vars: Vec::new(),
        completed_tasks: Vec::new(),
        task_results: Vec::new(),
        submitted_forms: Vec::new(),
        validators: Vec::new(),
    }
}

fn run(body: &str, facts: &GateFacts) -> GateOutcome {
    let answers: Vec<GateAnswer> = Vec::new();
    eval_gate(body, facts, &answers)
}


#[test]
fn strip_single_pipes() {
    assert_eq!(strip_pipes("|x > 0|"), "x > 0");
}

#[test]
fn strip_double_pipes() {
    assert_eq!(strip_pipes("||x > 0||"), "x > 0");
}

#[test]
fn strip_no_pipes() {
    assert_eq!(strip_pipes("x > 0"), "x > 0");
}

#[test]
fn extract_single_sub_gate() {
    let gates = extract_sub_gates("{when: x > 0}");
    assert_eq!(gates, vec!["when: x > 0"]);
}

#[test]
fn extract_multiple_sub_gates() {
    let gates = extract_sub_gates("{when: x > 0}{after: build}");
    assert_eq!(gates, vec!["when: x > 0", "after: build"]);
}

#[test]
fn extract_no_braces_fallback() {
    let gates = extract_sub_gates("some plain text");
    assert_eq!(gates, vec!["some plain text"]);
}

#[test]
fn extract_nested_braces() {
    let gates = extract_sub_gates("{all: {when: a}{when: b}}");
    assert_eq!(gates.len(), 1);
    assert!(gates[0].starts_with("all:"));
}

#[test]
fn strip_pipes_keeps_inner_spaces_trimmed() {
    assert_eq!(strip_pipes("  |a + b|  "), "a + b");
}

#[test]
fn extract_sub_gates_skips_text_between_groups() {
    let gates = extract_sub_gates("{a} and {b}");
    assert_eq!(gates, vec!["a", "b"]);
}

#[test]
fn gate_after_completed() {
    let mut ctx = default_facts();
    ctx.completed_tasks.push("build".to_string());
    let result = run("after: build", &ctx);
    assert!(result.passed);
}

#[test]
fn gate_after_not_completed() {
    let ctx = default_facts();
    let result = run("after: build", &ctx);
    assert!(!result.passed);
}

#[test]
fn gate_after_with_result() {
    let mut ctx = default_facts();
    ctx.completed_tasks.push("review".to_string());
    ctx.task_results.push(("review".to_string(), ":approved".to_string()));
    let result = run("after: review result: :approved", &ctx);
    assert!(result.passed);
}

#[test]
fn gate_after_with_wrong_result() {
    let mut ctx = default_facts();
    ctx.completed_tasks.push("review".to_string());
    ctx.task_results.push(("review".to_string(), ":rejected".to_string()));
    let result = run("after: review result: :approved", &ctx);
    assert!(!result.passed);
}

#[test]
fn gate_needs_passes_when_var_exists() {
    let mut ctx = default_facts();
    ctx.vars.push("database".to_string());
    let result = run("needs: @database", &ctx);
    assert!(result.passed);
}

#[test]
fn gate_needs_fails_when_var_missing() {
    let ctx = default_facts();
    let result = run("needs: @database", &ctx);
    assert!(!result.passed);
}

#[test]
fn gate_all_both_pass() {
    let mut ctx = default_facts();
    ctx.completed_tasks.push("a".to_string());
    ctx.completed_tasks.push("b".to_string());
    let result = run("all: {after: a}{after: b}", &ctx);
    assert!(result.passed);
}

#[test]
fn gate_all_one_fails() {
    let mut ctx = default_facts();
    ctx.completed_tasks.push("a".to_string());
    let result = run("all: {after: a}{after: b}", &ctx);
    assert!(!result.passed);
}

#[test]
fn gate_any_one_passes() {
    let mut ctx = default_facts();
    ctx.completed_tasks.push("a".to_string());
    let result = run("any: {after: a}{after: b}", &ctx);
    assert!(result.passed);
}

#[test]
fn gate_any_none_pass() {
    let ctx = default_facts();
    let result = run("any: {after: a}{after: b}", &ctx);
    assert!(!result.passed);
}

#[test]
fn gate_not_inverts_true_to_false() {
    let mut ctx = default_facts();
    ctx.completed_tasks.push("build".to_string());
    let result = run("not: after: build", &ctx);
    assert!(!result.passed);
}

#[test]
fn gate_not_inverts_false_to_true() {
    let ctx = default_facts();
    let result = run("not: after: build", &ctx);
    assert!(result.passed);
}

#[test]
fn gate_intake_form_submitted() {
    let mut ctx = default_facts();
    ctx.submitted_forms.push("onboarding".to_string());
    let result = run("intake onboarding", &ctx);
    assert!(result.passed);
}

#[test]
fn gate_intake_form_not_submitted() {
    let ctx = default_facts();
    let result = run("intake onboarding", &ctx);
    assert!(!result.passed);
}

#[test]
fn gate_intake_any_form() {
    let mut ctx = default_facts();
    ctx.submitted_forms.push("any-form".to_string());
    let result = run("intake", &ctx);
    assert!(result.passed);
}

#[test]
fn gate_result_match() {
    let mut ctx = default_facts();
    ctx.task_results.push(("review".to_string(), ":approved".to_string()));
    let result = run("review result: :approved", &ctx);
    assert!(result.passed);
}

#[test]
fn gate_result_mismatch() {
    let mut ctx = default_facts();
    ctx.task_results.push(("review".to_string(), ":rejected".to_string()));
    let result = run("review result: :approved", &ctx);
    assert!(!result.passed);
}

#[test]
fn gate_validator_exists() {
    let mut ctx = default_facts();
    ctx.validators.push("code-review".to_string());
    let result = run("code-review", &ctx);
    assert!(result.passed);
}

#[test]
fn gate_validator_not_found() {
    let ctx = default_facts();
    let result = run("nonexistent", &ctx);
    assert!(!result.passed);
}

#[test]
fn gate_details_text() {
    let mut ctx = default_facts();
    ctx.completed_tasks.push("a".to_string());
    assert_eq!(run("after: [a]", &ctx).details, "after: a -> true");
    assert_eq!(run("all: {after: a}{after: b}", &ctx).details, "all: 1/2 passed");
    assert_eq!(run("any: {after: a}{after: b}", &ctx).details, "any: 1/2 passed");
    assert_eq!(run("not: after: a", &ctx).details, "not: inner=true -> false");
    assert_eq!(run("needs: @db", &ctx).details, "needs: @db -> false");
    assert_eq!(run("intake signup", &ctx).details, "intake: 'signup' not submitted");
    assert_eq!(run("lint", &ctx).details, "validator: lint exists=false");
    assert_eq!(run("review result: :ok", &ctx).details, "result: review expected :ok -> false");
}

#[test]
fn gate_compute_queries_and_answers() {
    let ctx = default_facts();
    let queries = gate_queries("all: {when: |x > 5|}{unless: ||done||}{q score: >= 1}");
    assert_eq!(queries.len(), 3);
    assert!(matches!(&queries[0], GateQuery::Compute(e) if e == "x > 5"));
    assert!(matches!(&queries[1], GateQuery::Compute(e) if e == "done"));
    assert!(matches!(&queries[2], GateQuery::Score(b) if b == "q score: >= 1"));
    let answers = vec![
        GateAnswer { query: GateQuery::Compute("x > 5".to_string()), passed: true, details: String::new() },
        GateAnswer { query: GateQuery::Compute("done".to_string()), passed: false, details: String::new() },
        GateAnswer {
            query: GateQuery::Score("q score: >= 1".to_string()),
            passed: true,
            details: "score ok".to_string(),
        },
    ];
    let r = eval_gate("all: {when: |x > 5|}{unless: ||done||}{q score: >= 1}", &ctx, &answers);
    assert!(r.passed);
    assert_eq!(r.details, "all: 3/3 passed");
    let w = eval_gate("when: |x > 5|", &ctx, &answers);
    assert_eq!(w.details, "when: x > 5 -> true");
    let s = eval_gate("q score: >= 1", &ctx, &answers);
    assert!(s.passed);
    assert_eq!(s.details, "score ok");
}

#[test]
fn gate_unanswered_query_fails() {
    let ctx = default_facts();
    assert!(!run("when: |x > 5|", &ctx).passed);
    assert!(run("unless: |x > 5|", &ctx).passed);
    assert!(!run("q score: > 2", &ctx).passed);
}

#[test]
fn gate_intake_where_clause() {
    let mut ctx = default_facts();
    ctx.submitted_forms.push("signup".to_string());
    let queries = gate_queries("intake signup where: |age > 18|");
    assert_eq!(queries.len(), 1);
    assert!(matches!(&queries[0], GateQuery::Compute(e) if e == "age > 18"));
    let answers = vec![GateAnswer {
        query: GateQuery::Compute("age > 18".to_string()),
        passed: true,
        details: String::new(),
    }];
    let r = eval_gate("intake signup where: |age > 18|", &ctx, &answers);
    assert!(r.passed);
    assert_eq!(r.details, "intake: 'signup' submitted, where: age > 18 -> true");
}

#[test]
fn gate_score_detection() {
    assert!(is_score_gate("  quality score: >= 0.5 "));
    assert!(!is_score_gate("after: build"));
    assert!(!is_score_gate("all: {q score: > 1}"));
}
