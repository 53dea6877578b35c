use conesis_core::engram::Consecrator;
use conesis_core::errors::ConesisError;

#[test]
fn meta_carries_the_raw_intent() {
    let meta = Consecrator::consecrate_meta("buy low", "MERCURY", "commerce");
    assert_eq!(meta.raw_text, "buy low");
    assert_eq!(meta.symbol, "MERCURY");
    assert_eq!(meta.theme, "commerce");
    assert_eq!(meta.emotion, "neutral");
    assert!(meta.entities.is_empty());
}

#[test]
fn trace_records_both_formation_steps() {
    let trace = Consecrator::consecrate_trace("MERCURY", "commerce", 1700000000);
    assert_eq!(trace.len(), 2);
    assert_eq!(trace[0].step_sequence, 1);
    assert_eq!(trace[0].protocol_name, "SymbolicParser");
    assert_eq!(trace[0].output_summary, "Symbol identified: MERCURY");
    assert_eq!(trace[0].timestamp, 1700000000);
    assert_eq!(trace[1].step_sequence, 2);
    assert_eq!(trace[1].protocol_name, "Ritualizer");
    assert_eq!(trace[1].output_summary, "Theme applied: commerce");
    assert_eq!(trace[1].timestamp, 1700000000);
}

#[test]
fn error_labels_name_their_category() {
    assert_eq!(ConesisError::ClockFailure.describe(), "time source unreadable");
    assert_eq!(
        ConesisError::PolicyViolation(String::from("x")).describe(),
        "policy violation"
    );
}
