use conesis_core::archivist::Archivist;
use conesis_core::chain::verify_chain;
use conesis_core::envelope::AkashicEnvelope;
use conesis_core::ledger::AkashicLedger;

const GENESIS: &str = "GENESIS_HASH";

#[test]
fn sequential_records_get_contiguous_ids() {
    let ledger = AkashicLedger::new();
    let id1 = ledger.record("agent-1", "payload-A", "sig-A").unwrap();
    let id2 = ledger.record("agent-2", "payload-B", "sig-B").unwrap();
    let id3 = ledger.record("agent-3", "payload-C", "sig-C").unwrap();
    assert_eq!(id1, 1);
    assert_eq!(id2, 2);
    assert_eq!(id3, 3);
    let history = ledger.read_history().unwrap();
    assert_eq!(history.len(), 3);
    for (i, rec) in history.iter().enumerate() {
        assert_eq!(rec.id, (i + 1) as u64);
    }
    assert_eq!(history[0].prev_hash, GENESIS);
    assert_eq!(history[1].prev_hash, history[0].hash);
    assert_eq!(history[2].prev_hash, history[1].hash);
}

#[test]
fn empty_ledger_head_is_genesis() {
    let ledger = AkashicLedger::new();
    assert_eq!(ledger.current_head_hash().unwrap(), GENESIS);
    assert_eq!(ledger.read_history().unwrap().len(), 0);
}

#[test]
fn head_hash_matches_last_record() {
    let ledger = AkashicLedger::new();
    ledger.record("agent-1", "payload-A", "sig-A").unwrap();
    ledger.record("agent-2", "payload-B", "sig-B").unwrap();
    let history = ledger.read_history().unwrap();
    let head = ledger.current_head_hash().unwrap();
    assert_eq!(head, history.last().unwrap().hash);
}

#[test]
fn recorded_chain_verifies_from_genesis() {
    let ledger = AkashicLedger::new();
    ledger.record("agent-1", "payload-A", "sig-A").unwrap();
    ledger.record("agent-2", "payload-B", "sig-B").unwrap();
    let history = ledger.read_history().unwrap();
    assert!(verify_chain(&history, GENESIS));
}

#[test]
fn tampered_record_is_evident() {
    let ledger = AkashicLedger::new();
    ledger.record("agent-1", "payload-A", "sig-A").unwrap();
    ledger.record("agent-2", "payload-B", "sig-B").unwrap();
    let mut history = ledger.read_history().unwrap();
    history[0].payload = String::from("payload-EVIL");
    assert!(!verify_chain(&history, GENESIS));
}

#[test]
fn broken_link_is_evident() {
    let ledger = AkashicLedger::new();
    ledger.record("agent-1", "payload-A", "sig-A").unwrap();
    ledger.record("agent-2", "payload-B", "sig-B").unwrap();
    let mut history = ledger.read_history().unwrap();
    history[1].prev_hash = String::from(GENESIS);
    assert!(!verify_chain(&history, GENESIS));
}

#[test]
fn digest_matches_reference_value() {
    // the exact SHA-256 hex of "11700000000agent-1payload-AGENESIS_HASHsig-A"
    let good = AkashicEnvelope {
        id: 1,
        timestamp: 1700000000,
        actor: String::from("agent-1"),
        payload: String::from("payload-A"),
        hash: String::from("46b2543f226f563320ad37c7f3854d1b767b5324797eebf699caeb7c9790940b"),
        prev_hash: String::from(GENESIS),
        signature: String::from("sig-A"),
    };
    let records = vec![good.clone()];
    assert!(verify_chain(&records, GENESIS));

    let mut bad = good;
    bad.hash = String::from("0000000000000000000000000000000000000000000000000000000000000000");
    assert!(!verify_chain(&vec![bad], GENESIS));
}

#[test]
fn two_record_chain_matches_reference_values() {
    let h1 = "46b2543f226f563320ad37c7f3854d1b767b5324797eebf699caeb7c9790940b";
    let h2 = "c7b7d9e2d30a55aaae298dc9331eaf092f6422a4339ca77601913bcc61f63a41";
    let records = vec![
        AkashicEnvelope {
            id: 1,
            timestamp: 1700000000,
            actor: String::from("agent-1"),
            payload: String::from("payload-A"),
            hash: String::from(h1),
            prev_hash: String::from(GENESIS),
            signature: String::from("sig-A"),
        },
        AkashicEnvelope {
            id: 2,
            timestamp: 1700000001,
            actor: String::from("agent-2"),
            payload: String::from("payload-B"),
            hash: String::from(h2),
            prev_hash: String::from(h1),
            signature: String::from("sig-B"),
        },
    ];
    assert!(verify_chain(&records, GENESIS));
}

#[test]
fn interleaved_callers_never_lose_a_write() {
    // two independent callers share the ledger handle and alternate appends
    let ledger = AkashicLedger::new();
    let caller_a = &ledger;
    let caller_b = &ledger;
    for round in 0..3u64 {
        let ida = caller_a.record("agent-a", "payload", "sig").unwrap();
        let idb = caller_b.record("agent-b", "payload", "sig").unwrap();
        assert_eq!(ida, 2 * round + 1);
        assert_eq!(idb, 2 * round + 2);
    }
    let history = ledger.read_history().unwrap();
    assert_eq!(history.len(), 6);
    for (i, rec) in history.iter().enumerate() {
        assert_eq!(rec.id, (i + 1) as u64);
    }
    assert!(verify_chain(&history, GENESIS));
}

#[test]
fn prune_is_noop_when_short() {
    let ledger = AkashicLedger::new();
    ledger.record("agent-1", "a", "s").unwrap();
    ledger.record("agent-1", "b", "s").unwrap();
    let archived = Archivist::prune_memory(&ledger, 5);
    assert_eq!(archived.len(), 0);
    assert_eq!(ledger.read_history().unwrap().len(), 2);
}

#[test]
fn prune_retains_suffix_and_returns_verifiable_prefix() {
    let ledger = AkashicLedger::new();
    for i in 0..5 {
        ledger.record("agent-1", &format!("payload-{i}"), "sig").unwrap();
    }
    let full = ledger.read_history().unwrap();
    let archived = Archivist::prune_memory(&ledger, 2);
    let retained = ledger.read_history().unwrap();

    assert_eq!(archived.len(), 3);
    assert_eq!(retained.len(), 2);
    // ids carry on unchanged
    assert_eq!(archived[0].id, 1);
    assert_eq!(archived[2].id, 3);
    assert_eq!(retained[0].id, 4);
    assert_eq!(retained[1].id, 5);
    // the archive alone verifies from genesis
    assert!(verify_chain(&archived, GENESIS));
    // the live chain verifies from the last archived hash as its root
    assert!(verify_chain(&retained, &archived[2].hash));
    // archive plus retained reconstructs the original verifiable chain
    let mut rebuilt = archived.clone();
    rebuilt.extend(retained.iter().cloned());
    assert!(verify_chain(&rebuilt, GENESIS));
    for (orig, re) in full.iter().zip(rebuilt.iter()) {
        assert_eq!(orig.id, re.id);
        assert_eq!(orig.hash, re.hash);
    }
    // the head hash now reports the retained head
    assert_eq!(ledger.current_head_hash().unwrap(), retained[1].hash);
}

#[test]
fn record_continues_after_prune() {
    let ledger = AkashicLedger::new();
    for _ in 0..4 {
        ledger.record("agent-1", "p", "s").unwrap();
    }
    let archived = Archivist::prune_memory(&ledger, 1);
    let id = ledger.record("agent-1", "q", "s").unwrap();
    assert_eq!(id, 5);
    let retained = ledger.read_history().unwrap();
    assert_eq!(retained[0].id, 4);
    assert!(verify_chain(&retained, &archived.last().unwrap().hash));
}

#[test]
fn prune_to_zero_keeps_the_head_linkable() {
    let ledger = AkashicLedger::new();
    for _ in 0..3 {
        ledger.record("agent-1", "p", "s").unwrap();
    }
    let archived = Archivist::prune_memory(&ledger, 0);
    assert_eq!(archived.len(), 3);
    assert_eq!(ledger.read_history().unwrap().len(), 0);
    // the head summary still reports the last archived hash
    assert_eq!(ledger.current_head_hash().unwrap(), archived[2].hash);
    // appends continue the id run and link to the archived head
    let id = ledger.record("agent-1", "q", "s").unwrap();
    assert_eq!(id, 4);
    let retained = ledger.read_history().unwrap();
    assert_eq!(retained[0].prev_hash, archived[2].hash);
    assert!(verify_chain(&retained, &archived[2].hash));
}
