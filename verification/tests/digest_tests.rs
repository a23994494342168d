use burrower::attempt::{AttemptResult, ProofAttempt};
use burrower::digest::{count_keys, digest, summarise_attempts};
use burrower::ledger::{Learning, LedgerRecord, RecordResult};

fn rec(specialist: &str, status: Option<&str>, pattern: Option<&str>) -> LedgerRecord {
    LedgerRecord {
        id: "id".to_string(),
        timestamp: "epoch:1".to_string(),
        goal_hash: "h".to_string(),
        goal_excerpt: "g".to_string(),
        specialist: specialist.to_string(),
        approach: None,
        result: status.map(|s| RecordResult {
            status: s.to_string(),
            explanation: String::new(),
            artifacts: vec![],
        }),
        learning: pattern.map(|p| Learning {
            pattern_extracted: p.to_string(),
            pattern_kind: "anti-pattern".to_string(),
            generalisation: String::new(),
            visible_to: vec![],
        }),
    }
}

fn pairs(v: &[burrower::digest::KeyCount]) -> Vec<(String, usize)> {
    v.iter().map(|k| (k.key.clone(), k.count)).collect()
}

#[test]
fn key_counts_are_sorted_by_key() {
    let keys: Vec<String> = ["b", "a", "b", "c", "b"].iter().map(|s| s.to_string()).collect();
    assert_eq!(
        pairs(&count_keys(&keys)),
        vec![("a".to_string(), 1), ("b".to_string(), 3), ("c".to_string(), 1)]
    );
    assert!(count_keys(&vec![]).is_empty());
}

#[test]
fn digest_counts_specialists_statuses_and_patterns() {
    let mut records = vec![
        rec("OrderTheorist", Some("failed"), Some("p2")),
        rec("Algebraist", Some("failed"), Some("p1")),
        rec("Algebraist", Some("succeeded"), Some("p2")),
        rec("Oracle", None, Some("p3")),
        rec("Algebraist", Some("proposed"), None),
    ];
    for i in 0..12 {
        records.push(rec("Algebraist", None, Some(&format!("q{i:02}"))));
    }
    let d = digest(&records);
    assert_eq!(d.records, 17);
    assert_eq!(
        pairs(&d.by_specialist),
        vec![("Algebraist".to_string(), 15), ("Oracle".to_string(), 1), ("OrderTheorist".to_string(), 1)]
    );
    assert_eq!(
        pairs(&d.by_status),
        vec![("failed".to_string(), 2), ("proposed".to_string(), 1), ("succeeded".to_string(), 1)]
    );
    // p2 is cited twice; the rest once, in key order; ten at most.
    let top = pairs(&d.top_patterns);
    assert_eq!(top.len(), 10);
    assert_eq!(top[0], ("p2".to_string(), 2));
    assert_eq!(top[1], ("p1".to_string(), 1));
    assert_eq!(top[2], ("p3".to_string(), 1));
    assert_eq!(top[3], ("q00".to_string(), 1));
    assert_eq!(top[9], ("q06".to_string(), 1));
}

fn attempt(specialist: &str, result: AttemptResult) -> ProofAttempt {
    ProofAttempt {
        specialist: specialist.to_string(),
        tactic_name: "simp".to_string(),
        goal_excerpt: "g".to_string(),
        result,
    }
}

#[test]
fn attempt_summaries_count_outcomes() {
    let attempts = vec![
        attempt("Algebraist", AttemptResult::Succeeded { duration_ms: 1 }),
        attempt("Algebraist", AttemptResult::Failed { error: "x".to_string(), duration_ms: 1 }),
        attempt("OrderTheorist", AttemptResult::Timeout),
        attempt("OrderTheorist", AttemptResult::Skipped { reason: "r".to_string() }),
        attempt("Combinatorialist", AttemptResult::Skipped { reason: "r".to_string() }),
    ];
    let s = summarise_attempts(&attempts);
    assert_eq!(s.attempts, 5);
    assert_eq!(s.specialists, 3);
    assert_eq!(s.succeeded, 1);
    assert_eq!(s.failed, 2);
    assert_eq!(s.skipped, 2);
    let s = summarise_attempts(&vec![]);
    assert_eq!((s.attempts, s.specialists, s.succeeded, s.failed, s.skipped), (0, 0, 0, 0, 0));
}
