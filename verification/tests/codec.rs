use conesis_core::codec::{encode_snapshot, parse_snapshot};
use conesis_core::envelope::AkashicEnvelope;
use conesis_core::ledger::AkashicLedger;

fn sample(id: u64, timestamp: u64, actor: &str, payload: &str) -> AkashicEnvelope {
    AkashicEnvelope {
        id,
        timestamp,
        actor: String::from(actor),
        payload: String::from(payload),
        hash: String::from("h"),
        prev_hash: String::from("GENESIS_HASH"),
        signature: String::from("s"),
    }
}

#[test]
fn snapshot_text_has_expected_shape() {
    let records = vec![sample(1, 5, "a", "p")];
    let text = encode_snapshot(&records);
    assert_eq!(text, "1\n1\n5\n1:a\n1:p\n1:h\n12:GENESIS_HASH\n1:s\n");
}

#[test]
fn empty_snapshot_round_trips() {
    let records: Vec<AkashicEnvelope> = Vec::new();
    let text = encode_snapshot(&records);
    assert_eq!(text, "0\n");
    let back = parse_snapshot(&text).unwrap();
    assert_eq!(back.len(), 0);
}

#[test]
fn snapshot_round_trips_field_for_field() {
    let ledger = AkashicLedger::new();
    ledger.record("agent-1", "payload-A", "sig-A").unwrap();
    ledger.record("agent-2", "payload: odd\ntext:42", "sig-B").unwrap();
    let history = ledger.read_history().unwrap();
    let text = encode_snapshot(&history);
    let back = parse_snapshot(&text).unwrap();
    assert_eq!(back.len(), history.len());
    for (a, b) in history.iter().zip(back.iter()) {
        assert_eq!(a.id, b.id);
        assert_eq!(a.timestamp, b.timestamp);
        assert_eq!(a.actor, b.actor);
        assert_eq!(a.payload, b.payload);
        assert_eq!(a.hash, b.hash);
        assert_eq!(a.prev_hash, b.prev_hash);
        assert_eq!(a.signature, b.signature);
    }
}

#[test]
fn awkward_field_content_round_trips() {
    let records = vec![sample(7, 0, "colon:and\nnewline", "12:34\n\n56")];
    let text = encode_snapshot(&records);
    let back = parse_snapshot(&text).unwrap();
    assert_eq!(back[0].actor, "colon:and\nnewline");
    assert_eq!(back[0].payload, "12:34\n\n56");
    assert_eq!(back[0].id, 7);
}

#[test]
fn parse_rejects_malformed_text() {
    assert!(parse_snapshot("").is_none());
    // wrong record count
    assert!(parse_snapshot("2\n1\n5\n1:a\n1:p\n1:h\n12:GENESIS_HASH\n1:s\n").is_none());
    // a non-canonical count line
    assert!(parse_snapshot("01\n1\n5\n1:a\n1:p\n1:h\n12:GENESIS_HASH\n1:s\n").is_none());
    // a truncated record
    assert!(parse_snapshot("1\n1\n5\n1:a\n1:p\n").is_none());
    // trailing garbage after a full snapshot
    assert!(parse_snapshot("1\n1\n5\n1:a\n1:p\n1:h\n12:GENESIS_HASH\n1:s\nx").is_none());
    // a field length that overruns the text
    assert!(parse_snapshot("1\n1\n5\n9:a\n1:p\n1:h\n12:GENESIS_HASH\n1:s\n").is_none());
}

#[test]
fn parse_rejects_count_over_u64() {
    assert!(parse_snapshot("99999999999999999999\n").is_none());
}
