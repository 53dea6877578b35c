use conesis_core::errors::ConesisError;
use conesis_core::governance::{AuditProtocol, FirmaEnforcer};

#[test]
fn unidentified_actor_is_rejected_for_every_intent() {
    let gate = FirmaEnforcer::new();
    for intent in ["generate_revenue", "query_context", "system_maintenance", "alert_user", "anything"] {
        let r = gate.audit_intent("UNIDENTIFIED_AGENT", intent);
        assert!(matches!(r, Err(ConesisError::PolicyViolation(_))));
    }
}

#[test]
fn configured_intents_are_accepted() {
    let gate = FirmaEnforcer::new();
    for intent in ["generate_revenue", "query_context", "system_maintenance", "alert_user"] {
        assert!(gate.audit_intent("agent-7", intent).is_ok());
    }
}

#[test]
fn unlisted_intent_is_rejected() {
    let gate = FirmaEnforcer::new();
    let r = gate.audit_intent("agent-7", "steal_data");
    assert!(matches!(r, Err(ConesisError::PolicyViolation(_))));
}

#[test]
fn rejection_reasons_are_descriptive() {
    let gate = FirmaEnforcer::new();
    match gate.audit_intent("UNIDENTIFIED_AGENT", "query_context") {
        Err(ConesisError::PolicyViolation(reason)) => {
            assert_eq!(reason, "audit rejected: actor is not authorized to act: UNIDENTIFIED_AGENT");
        }
        other => panic!("expected a policy violation, got {:?}", other),
    }
    match gate.audit_intent("agent-7", "steal_data") {
        Err(ConesisError::PolicyViolation(reason)) => {
            assert_eq!(reason, "audit rejected: intent violates the constitution: steal_data");
        }
        other => panic!("expected a policy violation, got {:?}", other),
    }
}

#[test]
fn injected_rule_set_replaces_the_builtin_one() {
    let gate = FirmaEnforcer::with_intents(vec![String::from("observe")]);
    assert!(gate.audit_intent("agent-1", "observe").is_ok());
    assert!(gate.audit_intent("agent-1", "generate_revenue").is_err());
    assert!(gate.audit_intent("UNIDENTIFIED_AGENT", "observe").is_err());
}
