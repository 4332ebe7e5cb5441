use bit_core::bit_types::{EntityId, EntityKey, EntityName, FlowState, GateRef, Transition};

#[test]
fn entity_key_display() {
    let key = EntityKey::instance(EntityName::new("Order"), EntityId::new("ord-123"));
    assert_eq!(key.to_string(), "@Order:ord-123");
}

#[test]
fn entity_schema_display() {
    let key = EntityKey::schema(EntityName::new("User"));
    assert_eq!(key.to_string(), "@User");
}

#[test]
fn flow_state_display() {
    let state = FlowState::new("confirmed");
    assert_eq!(state.to_string(), ":confirmed");
}

#[test]
fn gate_ref_display() {
    let gate = GateRef::new("code-review");
    assert_eq!(gate.to_string(), "{code-review}");
}

#[test]
fn transition_display() {
    let t = Transition {
        from: FlowState::new("draft"),
        to: FlowState::new("confirmed"),
        label: Some("payment".into()),
        gate: Some(GateRef::new("payment-check")),
    };
    assert_eq!(
        t.to_string(),
        ":draft --> :confirmed (payment) gate:payment-check"
    );
}

#[test]
fn newtype_prevents_mixup() {
    let entity = EntityName::new("Order");
    let gate = GateRef::new("approval");
    let state = FlowState::new("draft");

    assert_ne!(entity.0, gate.0);
    assert_ne!(gate.0, state.0);
}

#[test]
fn transition_without_label_or_gate() {
    let t = Transition {
        from: FlowState::new("a"),
        to: FlowState::new("b"),
        label: None,
        gate: None,
    };
    assert_eq!(t.to_string(), ":a --> :b");
}
