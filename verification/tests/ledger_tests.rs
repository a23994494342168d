use burrower::ledger::{
    excerpt, format_epoch, format_id, goal_hash, new_id, now_iso, record_reading, visible_to,
    Approach, IdSequence, Learning, Ledger, LedgerRecord, RecordResult,
};

fn record(specialist: &str, goal_hash: &str, learning: Option<Learning>) -> LedgerRecord {
    LedgerRecord {
        id: format!("id-{specialist}-{goal_hash}"),
        timestamp: "epoch:1".to_string(),
        goal_hash: goal_hash.to_string(),
        goal_excerpt: "goal".to_string(),
        specialist: specialist.to_string(),
        approach: Some(Approach {
            description: "try".to_string(),
            tactics_attempted: vec![],
            preconditions_assumed: vec![],
        }),
        result: Some(RecordResult {
            status: "failed".to_string(),
            explanation: "x".to_string(),
            artifacts: vec![],
        }),
        learning,
    }
}

fn learning(pattern: &str, kind: &str, visible: &[&str]) -> Learning {
    Learning {
        pattern_extracted: pattern.to_string(),
        pattern_kind: kind.to_string(),
        generalisation: "g".to_string(),
        visible_to: visible.iter().map(|s| s.to_string()).collect(),
    }
}

#[test]
fn unique_ids() {
    let mut ids = IdSequence::new();
    let a = ids.next_id();
    let b = ids.next_id();
    assert_ne!(a, b);
}

#[test]
fn ids_drawn_apart_differ() {
    let mut ids = IdSequence::new();
    let first = ids.next_id();
    for _ in 0..5 {
        ids.next_id();
    }
    let seventh = ids.next_id();
    assert!(first.ends_with("-0000"));
    assert!(seventh.ends_with("-0006"));
    assert_ne!(first, seventh);
    assert_ne!(new_id(5), new_id(7));
}

#[test]
fn id_sequences_number_their_ids() {
    let mut ids = IdSequence::new();
    assert!(ids.next_id().ends_with("-0000"));
    assert!(ids.next_id().ends_with("-0001"));
    assert!(new_id(42).ends_with("-0042"));
}

#[test]
fn goal_hash_is_deterministic() {
    let a = goal_hash("lemma foo");
    let b = goal_hash("lemma foo");
    let c = goal_hash("lemma bar");
    assert_eq!(a, b);
    assert_ne!(a, c);
}

#[test]
fn goal_hash_is_eight_hex_digits() {
    let h = goal_hash("lemma foo");
    assert_eq!(h.len(), 8);
    assert!(h.chars().all(|c| c.is_ascii_hexdigit() && !c.is_ascii_uppercase()));
}

#[test]
fn ids_and_timestamps_have_fixed_shapes() {
    assert_eq!(format_id(1234, 5), "0000000001234-0005");
    assert_eq!(format_id(12345678901234, 123456), "12345678901234-123456");
    // Distinct (time, sequence) pairs give distinct ids.
    assert_ne!(format_id(1, 23), format_id(12, 3));
    assert_eq!(format_epoch(0), "epoch:0");
    assert_eq!(format_epoch(1700000000), "epoch:1700000000");
    let id = new_id(7);
    assert!(id.ends_with("-0007"));
    assert_eq!(id.len(), 18);
    assert!(now_iso().starts_with("epoch:"));
}

#[test]
fn excerpts_take_two_hundred_characters() {
    let long: String = std::iter::repeat('\u{3b1}').take(250).collect();
    assert_eq!(excerpt(&long).chars().count(), 200);
    assert_eq!(excerpt("short"), "short");
}

#[test]
fn queries_over_records() {
    let records = vec![
        record("Algebraist", "h1", None),
        record("OrderTheorist", "h2", Some(learning("p1", "anti-pattern", &[]))),
        record("Algebraist", "h2", Some(learning("p2", "anti-pattern", &["OrderTheorist"]))),
        record("Algebraist", "h3", Some(learning("p3", "positive", &[]))),
    ];
    let clone = |v: &Vec<LedgerRecord>| -> Vec<LedgerRecord> {
        v.iter()
            .map(|r| record(&r.specialist, &r.goal_hash, r.learning.as_ref().map(|l| Learning {
                pattern_extracted: l.pattern_extracted.clone(),
                pattern_kind: l.pattern_kind.clone(),
                generalisation: l.generalisation.clone(),
                visible_to: l.visible_to.clone(),
            })))
            .collect()
    };
    let recent = Ledger::recent(clone(&records), 2);
    assert_eq!(recent.len(), 2);
    assert_eq!(recent[0].goal_hash, "h3");
    assert_eq!(recent[1].goal_hash, "h2");
    assert_eq!(Ledger::recent(clone(&records), 10).len(), 4);
    let by = Ledger::by_specialist(clone(&records), "Algebraist");
    assert_eq!(by.iter().map(|r| r.goal_hash.as_str()).collect::<Vec<_>>(), vec!["h1", "h2", "h3"]);
    let by_hash = Ledger::by_goal_hash(clone(&records), "h2");
    assert_eq!(by_hash.len(), 2);
    let queried = Ledger::query(clone(&records), |r: &LedgerRecord| r.learning.is_some() && r.specialist == "Algebraist");
    assert_eq!(queried.iter().map(|r| r.goal_hash.as_str()).collect::<Vec<_>>(), vec!["h2", "h3"]);
    let antis = Ledger::anti_patterns_for(clone(&records), "Algebraist");
    assert_eq!(antis.len(), 1);
    assert_eq!(antis[0].pattern_extracted, "p1");
    let antis = Ledger::anti_patterns_for(clone(&records), "OrderTheorist");
    assert_eq!(antis.iter().map(|l| l.pattern_extracted.as_str()).collect::<Vec<_>>(), vec!["p1", "p2"]);
    assert!(visible_to(&learning("p", "anti-pattern", &[]), "Anyone"));
    assert!(!visible_to(&learning("p", "anti-pattern", &["A"]), "B"));
    let l = Ledger::new("/tmp/ledger.jsonl");
    assert_eq!(l.path(), "/tmp/ledger.jsonl");
}

#[test]
fn reading_records_are_proposals() {
    let r = record_reading("Algebraist", "lemma foo", "Algebra structure", "0.029", "id".to_string(), "epoch:3".to_string());
    assert_eq!(r.specialist, "Algebraist");
    assert_eq!(r.goal_hash, goal_hash("lemma foo"));
    assert_eq!(r.goal_excerpt, "lemma foo");
    assert_eq!(r.approach.as_ref().unwrap().description, "read goal in Algebraist vocabulary");
    let res = r.result.unwrap();
    assert_eq!(res.status, "proposed");
    assert_eq!(res.explanation, "relevance=0.029, reading: Algebra structure");
    assert!(r.learning.is_none());
}
