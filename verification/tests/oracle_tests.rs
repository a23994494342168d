use burrower::oracle::{
    oracle_args, oracle_record, parse_verdict, spawn_failure, verdict_from_process,
    OracleConfig, OracleVerdict,
};

#[test]
fn parse_agree_line() {
    let v = parse_verdict("oracle: agree (family=tropical-determinant-min, computed=5, expected=5)");
    assert!(matches!(v, OracleVerdict::Agree { .. }));
    assert!(!v.blocks_attempt());
}

#[test]
fn parse_disagree_line_blocks_attempt() {
    let v = parse_verdict("oracle: disagree (family=foo, computed=5, expected=7)");
    assert!(matches!(v, OracleVerdict::Disagree { .. }));
    assert!(v.blocks_attempt());
}

#[test]
fn parse_fuzz_counter_blocks_attempt() {
    let v = parse_verdict("oracle: fuzz-counter (family=foo, trials=50, disagreements=3, sample=...)");
    assert!(v.blocks_attempt());
    assert_eq!(v.pattern_kind(), "oracle-fuzz-counter");
}

#[test]
fn empty_stdout_is_inapplicable() {
    let v = parse_verdict("");
    assert!(matches!(v, OracleVerdict::Inapplicable { .. }));
    assert!(!v.blocks_attempt());
}

#[test]
fn blocking_verdict_promoted_over_advisory() {
    // Two stanzas: first agrees, second disagrees. Disagree wins
    // because the blocking verdict is the conservative read.
    let v = parse_verdict(
        "oracle: agree (family=A, computed=1, expected=1)\n\
         oracle: disagree (family=B, computed=2, expected=99)\n",
    );
    assert!(v.blocks_attempt());
}

#[test]
fn first_verdict_wins_among_advisory_lines() {
    let v = parse_verdict("noise\n  oracle:   fuzz-clean (x)  \noracle: agree (y)\n");
    assert!(matches!(&v, OracleVerdict::FuzzClean { detail } if detail == "fuzz-clean (x)"));
    let v = parse_verdict("oracle: disagree (a)\noracle: fuzz-counter (b)\n");
    assert!(matches!(&v, OracleVerdict::Disagree { detail } if detail == "disagree (a)"));
    let v = parse_verdict("oracle: disagree (first)\noracle: disagree (second)\n");
    assert!(matches!(&v, OracleVerdict::Disagree { detail } if detail == "disagree (first)"));
    let v = parse_verdict("oracle: agree (x)\noracle: fuzz-counter (y)\noracle: disagree (z)\n");
    assert!(matches!(&v, OracleVerdict::FuzzCounter { detail } if detail == "fuzz-counter (y)"));
    let v = parse_verdict("oracle: shrug");
    assert!(matches!(&v, OracleVerdict::Inapplicable { reason } if reason == "unparsed verdict shape: shrug"));
    let v = parse_verdict("no verdict here");
    assert!(matches!(&v, OracleVerdict::Inapplicable { reason } if reason == "no `oracle:` line in stdout"));
    assert_eq!(v.pattern_kind(), "oracle-inapplicable");
    let v = parse_verdict("oracle: inapplicable (family)");
    assert!(matches!(&v, OracleVerdict::Inapplicable { reason } if reason == "inapplicable (family)"));
}

#[test]
fn pattern_kinds_of_every_verdict() {
    let kinds = [
        (OracleVerdict::Agree { detail: String::new() }, "oracle-agree", false),
        (OracleVerdict::Disagree { detail: String::new() }, "oracle-counter-example", true),
        (OracleVerdict::FuzzCounter { detail: String::new() }, "oracle-fuzz-counter", true),
        (OracleVerdict::FuzzClean { detail: String::new() }, "oracle-fuzz-clean", false),
        (OracleVerdict::Inapplicable { reason: String::new() }, "oracle-inapplicable", false),
        (OracleVerdict::SubprocessError { reason: String::new() }, "oracle-subprocess-error", false),
    ];
    for (v, kind, blocks) in kinds {
        assert_eq!(v.pattern_kind(), kind);
        assert_eq!(v.blocks_attempt(), blocks);
    }
}

#[test]
fn process_outcomes() {
    let cfg = OracleConfig {
        script: "oracle.jl".to_string(),
        descriptor: "fixture.a2ml".to_string(),
        julia: "julia".to_string(),
        project: Some("/proj".to_string()),
    };
    assert_eq!(oracle_args(&cfg), vec!["--project=/proj", "oracle.jl", "fixture.a2ml"]);
    let v = spawn_failure("not found");
    assert!(matches!(&v, OracleVerdict::SubprocessError { reason } if reason == "failed to spawn julia: not found"));
    let v = verdict_from_process(false, Some(3), "oracle: agree", "first\nlast line of errors\n");
    assert!(matches!(&v, OracleVerdict::SubprocessError { reason } if reason == "julia exit 3 \u{2014} stderr tail: last line of errors"));
    let v = verdict_from_process(false, None, "", "");
    assert!(matches!(&v, OracleVerdict::SubprocessError { reason } if reason == "julia exit -1 \u{2014} stderr tail: "));
    let v = verdict_from_process(true, Some(0), "oracle: disagree (z)", "ignored");
    assert!(matches!(&v, OracleVerdict::Disagree { detail } if detail == "disagree (z)"));
}

#[test]
fn oracle_records_carry_the_verdict() {
    let cfg = OracleConfig {
        script: "oracle.jl".to_string(),
        descriptor: "fixture.a2ml".to_string(),
        julia: "julia".to_string(),
        project: None,
    };
    let v = parse_verdict("oracle: disagree (family=B)");
    let r = oracle_record("lemma foo: x = y", &cfg, &v, "id".to_string(), "epoch:9".to_string());
    assert_eq!(r.specialist, "Oracle");
    assert_eq!(r.goal_excerpt, "lemma foo: x = y");
    let ap = r.approach.unwrap();
    assert_eq!(ap.description, "ran julia-oracle.jl on descriptor fixture.a2ml");
    assert_eq!(ap.tactics_attempted, vec!["julia-oracle".to_string()]);
    let res = r.result.unwrap();
    assert_eq!(res.status, "blocked");
    assert_eq!(res.explanation, format!("{:?}", v));
    assert_eq!(res.explanation, "Disagree { detail: \"disagree (family=B)\" }");
    let quoted = OracleVerdict::SubprocessError { reason: "say \"hi\"\n".to_string() };
    let rq = oracle_record("g", &cfg, &quoted, "id".to_string(), "t".to_string());
    assert_eq!(rq.result.unwrap().explanation, format!("{:?}", quoted));
    let l = r.learning.unwrap();
    assert_eq!(l.pattern_extracted, "oracle-fixture.a2ml");
    assert_eq!(l.pattern_kind, "oracle-counter-example");
    assert_eq!(l.generalisation, "LEMMA SUSPECT: oracle disagreed \u{2014} disagree (family=B); skip proof attempt.");
    let v = parse_verdict("oracle: agree (ok)");
    let r = oracle_record("g", &cfg, &v, "id".to_string(), "t".to_string());
    assert_eq!(r.result.unwrap().status, "advisory");
    assert_eq!(r.learning.unwrap().generalisation, "Oracle ground-truthed lemma statement: agree (ok).");
}
