use bit_core::bit_errors::{BitError, ExecError, IRValidationError, ParseError, ParseErrorKind};
use bit_core::bit_types::{EntityKey, EntityName, FlowName, FlowState, GateRef};
use bit_core::ir::ConstructKind;

#[test]
fn error_display() {
    let err = IRValidationError::UnresolvedEntity {
        name: EntityName::new("Order"),
        referenced_in: ConstructKind::Mutate,
        line: 15,
    };
    let msg = err.to_string();
    assert!(msg.contains("@Order"));
    assert!(msg.contains("15"));
}

#[test]
fn parallel_mutation_error() {
    let err = IRValidationError::ParallelMutation {
        spawn_line: 10,
        mutate_target: EntityName::new("Invoice"),
        mutate_line: 12,
    };
    let msg = err.to_string();
    assert!(msg.contains("parallel"));
    assert!(msg.contains("@Invoice"));
    assert!(msg.contains("sequential"));
}

#[test]
fn invalid_transition_error() {
    let err = IRValidationError::InvalidTransition {
        entity: EntityName::new("Ticket"),
        from: FlowState::new("draft"),
        to: FlowState::new("shipped"),
        flow: Some(FlowName::new("ticket-lifecycle")),
        line: 20,
    };
    let msg = err.to_string();
    assert!(msg.contains(":draft"));
    assert!(msg.contains(":shipped"));
    assert!(msg.contains("@Ticket"));
}

#[test]
fn unresolved_entity_exact_message() {
    let err = IRValidationError::UnresolvedEntity {
        name: EntityName::new("Order"),
        referenced_in: ConstructKind::Mutate,
        line: 105,
    };
    assert_eq!(err.to_string(), "line 105: references undefined entity @Order");
}

#[test]
fn parse_error_message_uses_debug_kind() {
    let err = ParseError {
        kind: ParseErrorKind::UnexpectedToken { expected: "]".to_string(), found: "\"x".to_string() },
        line: 3,
        col: 0,
        context: String::new(),
    };
    assert_eq!(err.to_string(), "line 3: UnexpectedToken { expected: \"]\", found: \"\\\"x\" }");
    let wrapped = BitError::Parse(err);
    assert!(wrapped.to_string().starts_with("parse: line 3"));
}

#[test]
fn exec_error_messages() {
    let e = ExecError::NoTransition { flow: None, current_state: FlowState::new("draft") };
    assert_eq!(e.to_string(), "no transition from :draft in None");
    let e = ExecError::NoTransition {
        flow: Some(FlowName::new("f")),
        current_state: FlowState::new("draft"),
    };
    assert_eq!(e.to_string(), "no transition from :draft in Some(FlowName(\"f\"))");
    let e = ExecError::GateFailed {
        gate: GateRef::new("review"),
        missing_conditions: vec!["a".to_string(), "b".to_string()],
    };
    assert_eq!(e.to_string(), "gate {review} failed: missing a, b");
    let e = ExecError::EntityNotFound {
        key: EntityKey::instance(EntityName::new("User"), bit_core::bit_types::EntityId::new("x")),
    };
    assert_eq!(e.to_string(), "entity @User:x not found");
}

#[test]
fn construct_kind_keywords() {
    assert_eq!(ConstructKind::Define.to_string(), "define:");
    assert_eq!(ConstructKind::SpawnSequential.to_string(), "++");
    assert_eq!(ConstructKind::Conditional.keyword(), "if");
}
