use burrower::attempt::{
    classify_output, derive_learning, explain, extract_statement, generate_probe,
    is_valid_probe_name, playbook_probes, probe_filename, probe_workdir, proof_attempt,
    prover_args, run_dir_name, sanitize_filename, skipped, suggest_next, attempt_record,
    playbook_attempts, playbook_records, AttemptResult, Playbook, ProverConfig, SkipStage, TacticTemplate,
};
use burrower::goal::parse_goal;

fn tactic(name: &str, script: &str, description: &str) -> TacticTemplate {
    TacticTemplate {
        name: name.to_string(),
        script: script.to_string(),
        description: description.to_string(),
    }
}

#[test]
fn extract_statement_handles_quoted() {
    let s = extract_statement("lemma foo: \"x + 0 = x\" by simp");
    assert_eq!(s, "\"x + 0 = x\"");
}

#[test]
fn extract_statement_handles_no_proof_marker() {
    let s = extract_statement("lemma foo: \"y + y = 2 * y\"");
    assert_eq!(s, "\"y + y = 2 * y\"");
}

#[test]
fn generate_probe_makes_well_formed_theory() {
    let g = parse_goal("lemma foo: \"x + 0 = x\" by simp");
    let t = tactic("simp", "by simp", "Isabelle simplifier");
    let probe = generate_probe(&g.raw, &t);
    assert!(probe.contains("theory Probe"));
    assert!(probe.contains("lemma probe_lemma"));
    assert!(probe.contains("by simp"));
    assert!(probe.contains("end"));
}

#[test]
fn probe_text_is_exact() {
    let t = tactic("simp", "by simp", "Isabelle simplifier");
    let probe = generate_probe("lemma foo: \"x + 0 = x\" by simp", &t);
    assert_eq!(
        probe,
        "(* SPDX-License-Identifier: PMPL-1.0-or-later *)\n(* Burrower probe \u{2014} auto-generated, do not edit. *)\ntheory Probe\nimports Main\nbegin\n\nlemma probe_lemma: \"x + 0 = x\"\n  by simp\n\nend\n"
    );
}

#[test]
fn extract_statement_documented_examples() {
    assert_eq!(extract_statement("lemma foo: \"x + 0 = x\" by simp"), "\"x + 0 = x\"");
    assert_eq!(extract_statement("lemma foo: \"x + 0 = x\""), "\"x + 0 = x\"");
    assert_eq!(extract_statement("theorem foo : x = y := by rfl"), "\"x = y\"");
}

#[test]
fn extract_statement_keeps_the_complete_goal() {
    assert_eq!(
        extract_statement("lemma dropped_conclusion: assumes \"True\" shows \"False\""),
        "assumes \"True\" shows \"False\""
    );
    assert_eq!(
        extract_statement("lemma multiple: shows \"True\" and \"False\""),
        "shows \"True\" and \"False\""
    );
    assert_eq!(
        extract_statement("lemma assumed:\n  assumes \"(x::nat) = 0\"\n  shows \"x + 1 = 1\"\n  by simp"),
        "assumes \"(x::nat) = 0\"\n  shows \"x + 1 = 1\""
    );
    let t = tactic("simp", "using assms by simp", "");
    let probe = generate_probe("lemma dropped_conclusion: assumes \"True\" shows \"False\"", &t);
    assert!(probe.contains("lemma probe_lemma: assumes \"True\" shows \"False\"\n  using assms by simp\n"));
}

#[test]
fn extract_statement_without_quotes_stops_at_proof_line() {
    let s = extract_statement("theorem foo : x = y\n  := by rfl");
    assert_eq!(s, "\"x = y\"");
    let s = extract_statement("a + b = b + a\nby simp");
    assert_eq!(s, "\"a + b = b + a\"");
    let s = extract_statement("lemma bar: first line\n  second line\nproof -");
    assert_eq!(s, "\"first line\n  second line\"");
}

#[test]
fn extract_statement_tries_keywords_in_order() {
    // `lemma ` occurs but no colon follows it; `theorem ` is tried next.
    let s = extract_statement("theorem t: \"p\" lemma q");
    assert_eq!(s, "\"p\"");
    // An unmatched quote falls back to the lines before the proof.
    let s = extract_statement("lemma u: \"open");
    assert_eq!(s, "\"\"open\"");
}

#[test]
fn sanitize_filename_keeps_alphanumerics_and_underscores() {
    assert_eq!(sanitize_filename("Order Theorist!_x"), "OrderTheorist_x");
    assert_eq!(sanitize_filename("Ålgebra-ß"), "Ålgebraß");
    assert_eq!(probe_filename("Order Theorist", 3), "probe_OrderTheorist_3.thy");
    assert_eq!(probe_filename("Algebraist", 0), "probe_Algebraist_0.thy");
}

#[test]
fn probe_names_stay_inside_the_probe_directory() {
    for bad in ["../outside.thy", "/outside.thy", "", ".", "..", "child/probe.thy", "a\\b", "nul\0"] {
        assert!(!is_valid_probe_name(bad), "{bad:?}");
    }
    for good in ["Probe.thy", "probe_Algebraist_0.thy", "..thy", "a.b"] {
        assert!(is_valid_probe_name(good), "{good:?}");
    }
    assert_eq!(run_dir_name(123, 7), "burrower-run-123-7");
    assert_ne!(run_dir_name(1, 23), run_dir_name(12, 3));
    let r = skipped(SkipStage::InvalidName, "../x.thy");
    assert!(matches!(&r, AttemptResult::Skipped { reason } if reason == "invalid probe filename: ../x.thy"));
}

#[test]
fn playbook_probes_cover_every_tactic() {
    let pb = Playbook {
        specialist: "Algebraist".to_string(),
        tactics: vec![tactic("simp", "by simp", "s"), tactic("auto", "by auto", "a")],
    };
    let probes = playbook_probes("lemma foo: \"x = x\"", &pb);
    assert_eq!(probes.len(), 2);
    assert_eq!(probes[0].filename, "probe_Algebraist_0.thy");
    assert_eq!(probes[1].filename, "probe_Algebraist_1.thy");
    assert!(probes[1].text.contains("lemma probe_lemma: \"x = x\"\n  by auto\n"));
}

#[test]
fn prover_configuration_and_arguments() {
    let cfg = ProverConfig::default();
    assert_eq!(cfg.echidna_path, "echidna");
    assert_eq!(cfg.timeout_secs, 60);
    assert!(cfg.workdir.is_none());
    assert!(cfg.project_root.is_none());
    assert_eq!(cfg.sandbox, "none");
    assert_eq!(probe_workdir(&cfg), "/tmp/burrower_probes");
    assert_eq!(
        prover_args("p.thy", &cfg),
        vec!["prove", "p.thy", "--prover", "Isabelle", "-t", "60", "--sandbox", "none"]
    );
    let custom = ProverConfig {
        echidna_path: "/opt/echidna".to_string(),
        timeout_secs: 7,
        workdir: Some("/work".to_string()),
        project_root: Some("project root".to_string()),
        sandbox: "bwrap".to_string(),
    };
    assert_eq!(probe_workdir(&custom), "/work");
    assert_eq!(
        prover_args("/work/probe.thy", &custom),
        vec![
            "prove", "/work/probe.thy", "--prover", "Isabelle", "-t", "7", "--project-root",
            "project root", "--sandbox", "bwrap"
        ]
    );
}

#[test]
fn skipped_reasons_name_the_stage() {
    let r = skipped(SkipStage::MissingProver, "/nonexistent/echidna");
    assert!(matches!(&r, AttemptResult::Skipped { reason } if reason == "echidna binary not found at /nonexistent/echidna"));
    let r = skipped(SkipStage::WorkdirCreate, "denied");
    assert!(matches!(&r, AttemptResult::Skipped { reason } if reason == "workdir create failed: denied"));
    let r = skipped(SkipStage::ProbeWrite, "full");
    assert!(matches!(&r, AttemptResult::Skipped { reason } if reason == "probe write failed: full"));
    let r = skipped(SkipStage::Spawn, "no exec");
    assert!(matches!(&r, AttemptResult::Skipped { reason } if reason == "subprocess failed: no exec"));
    assert_eq!(r.status_string(), "skipped");
    assert!(!r.is_success());
}

#[test]
fn classify_output_success_and_failures() {
    let r = classify_output("", "Proof verified successfully\n", 4);
    assert!(matches!(r, AttemptResult::Succeeded { duration_ms: 4 }));
    let r = classify_output("x\nProof verified successfully\n", "", 12);
    assert!(matches!(r, AttemptResult::Succeeded { duration_ms: 12 }));
    assert!(r.is_success());
    assert_eq!(r.status_string(), "succeeded");

    let r = classify_output("", "error: bad\nok line\n*** Failed to finish\n*** more\nerror again", 5);
    match &r {
        AttemptResult::Failed { error, duration_ms } => {
            assert_eq!(error, "error: bad | *** Failed to finish | *** more");
            assert_eq!(*duration_ms, 5);
        }
        _ => panic!("expected a failure"),
    }
    assert_eq!(r.status_string(), "failed");

    let r = classify_output("Proof verification failed\n", "", 9);
    assert!(matches!(&r, AttemptResult::Failed { error, .. } if error == "non-success exit; no diagnostic captured"));

    let r = classify_output("", "FAILED", 3);
    assert!(matches!(&r, AttemptResult::Failed { error, .. } if error == "non-success exit; no diagnostic captured"));
}

#[test]
fn classify_output_inconclusive_quotes_first_200_chars() {
    let long: String = std::iter::repeat('a').take(250).collect();
    let r = classify_output(&long, "", 1);
    let expected = format!("inconclusive output (first 200 chars): {}", &long[..200]);
    assert!(matches!(&r, AttemptResult::Failed { error, duration_ms: 1 } if *error == expected));
    let r = classify_output("short", "", 2);
    assert!(matches!(&r, AttemptResult::Failed { error, .. } if error == "inconclusive output (first 200 chars): short"));
}

#[test]
fn explanations_and_suggestions() {
    assert_eq!(explain(&AttemptResult::Succeeded { duration_ms: 12 }), "verified in 12 ms");
    assert_eq!(
        explain(&AttemptResult::Failed { error: "x".to_string(), duration_ms: 7 }),
        "failed in 7 ms: x"
    );
    assert_eq!(explain(&AttemptResult::Timeout), "exceeded timeout");
    assert_eq!(explain(&AttemptResult::Skipped { reason: "r".to_string() }), "skipped: r");
    assert_eq!(AttemptResult::Timeout.status_string(), "timeout");
    assert_eq!(suggest_next(&tactic("simp", "", "")), "auto, blast, or fastforce");
    assert_eq!(suggest_next(&tactic("auto", "", "")), "explicit case split + simp");
    assert_eq!(suggest_next(&tactic("induct", "", "")), "induction (modern variant)");
    assert_eq!(
        suggest_next(&tactic("induction", "", "")),
        "induct (classical variant) or rule: finite_induct"
    );
    assert_eq!(suggest_next(&tactic("force", "", "")), "alternative tactic from the playbook");
}

#[test]
fn learnings_follow_the_outcome() {
    let t = tactic("simp", "by simp", "Isabelle simplifier");
    let l = derive_learning("Algebraist", &t, &AttemptResult::Succeeded { duration_ms: 1 }).unwrap();
    assert_eq!(l.pattern_extracted, "simp-tactic-works");
    assert_eq!(l.pattern_kind, "positive");
    assert_eq!(
        l.generalisation,
        "Specialist Algebraist succeeds with `by simp` (Isabelle simplifier) on goals of this shape."
    );
    assert!(l.visible_to.is_empty());

    let fail = AttemptResult::Failed { error: "Undefined fact: foo".to_string(), duration_ms: 2 };
    let l = derive_learning("Algebraist", &t, &fail).unwrap();
    assert_eq!(l.pattern_extracted, "simp-tactic-fails-undefined-reference");
    assert_eq!(l.pattern_kind, "anti-pattern");
    assert_eq!(
        l.generalisation,
        "Specialist Algebraist fails with `by simp` (undefined-reference); consider auto, blast, or fastforce."
    );
    assert_eq!(l.visible_to, vec!["Algebraist".to_string()]);

    let kinds = [
        ("Failed to apply rule", "tactic-mismatch"),
        ("no unifiers", "tactic-mismatch"),
        ("Bad context for command", "structural-mismatch"),
        ("something else", "generic-failure"),
    ];
    for (err, kind) in kinds {
        let r = AttemptResult::Failed { error: err.to_string(), duration_ms: 0 };
        let l = derive_learning("X", &t, &r).unwrap();
        assert_eq!(l.pattern_extracted, format!("simp-tactic-fails-{kind}"));
    }
    assert!(derive_learning("X", &t, &AttemptResult::Timeout).is_none());
    assert!(derive_learning("X", &t, &AttemptResult::Skipped { reason: String::new() }).is_none());
}

#[test]
fn attempt_reports_and_records() {
    let pb = Playbook {
        specialist: "OrderTheorist".to_string(),
        tactics: vec![tactic("linarith", "by linarith", "Linear arithmetic")],
    };
    let goal: String = std::iter::repeat('g').take(300).collect();
    let result = AttemptResult::Failed { error: "Failed to finish proof".to_string(), duration_ms: 40 };
    let a = proof_attempt(&pb, &pb.tactics[0], &goal, AttemptResult::Timeout);
    assert_eq!(a.specialist, "OrderTheorist");
    assert_eq!(a.tactic_name, "linarith");
    assert_eq!(a.goal_excerpt.chars().count(), 200);

    let rec = attempt_record(&goal, "abcd", &pb, &pb.tactics[0], &result, "id-1".to_string(), "epoch:5".to_string());
    assert_eq!(rec.id, "id-1");
    assert_eq!(rec.timestamp, "epoch:5");
    assert_eq!(rec.goal_hash, "abcd");
    assert_eq!(rec.goal_excerpt.chars().count(), 200);
    assert_eq!(rec.specialist, "OrderTheorist");
    let ap = rec.approach.unwrap();
    assert_eq!(ap.description, "tried `linarith`: Linear arithmetic");
    assert_eq!(ap.tactics_attempted, vec!["by linarith".to_string()]);
    let res = rec.result.unwrap();
    assert_eq!(res.status, "failed");
    assert_eq!(res.explanation, "failed in 40 ms: Failed to finish proof");
    let l = rec.learning.unwrap();
    assert_eq!(l.pattern_extracted, "linarith-tactic-fails-tactic-mismatch");
}

#[test]
fn playbook_runs_give_one_attempt_and_record_per_tactic() {
    let pb = Playbook {
        specialist: "Algebraist".to_string(),
        tactics: vec![
            tactic("simp", "by simp", "Simplifier"),
            tactic("auto", "by auto", "Classical reasoner"),
            tactic("blast", "by blast", "Tableau prover"),
        ],
    };
    let goal = "lemma foo: \"a + b = b + a\"";
    let outcomes = vec![
        AttemptResult::Succeeded { duration_ms: 12 },
        AttemptResult::Timeout,
        AttemptResult::Skipped { reason: "prover binary not found".to_string() },
    ];
    let ids: Vec<String> = vec!["a".to_string(), "b".to_string(), "c".to_string()];
    let stamps: Vec<String> = vec!["epoch:1".to_string(), "epoch:2".to_string(), "epoch:3".to_string()];
    let recs = playbook_records(goal, "0000abcd", &pb, &outcomes, &ids, &stamps);
    assert_eq!(recs.len(), 3);
    let statuses: Vec<String> = recs.iter().map(|r| r.result.as_ref().unwrap().status.clone()).collect();
    assert_eq!(statuses, vec!["succeeded", "timeout", "skipped"]);
    let rec_ids: Vec<&str> = recs.iter().map(|r| r.id.as_str()).collect();
    assert_eq!(rec_ids, vec!["a", "b", "c"]);
    assert_eq!(recs[1].timestamp, "epoch:2");
    assert_eq!(recs[2].approach.as_ref().unwrap().description, "tried `blast`: Tableau prover");
    assert!(recs.iter().all(|r| r.goal_hash == "0000abcd" && r.specialist == "Algebraist" && r.goal_excerpt == goal));

    let attempts = playbook_attempts(goal, &pb, outcomes);
    assert_eq!(attempts.len(), 3);
    let names: Vec<&str> = attempts.iter().map(|a| a.tactic_name.as_str()).collect();
    assert_eq!(names, vec!["simp", "auto", "blast"]);
    assert!(attempts[0].result.is_success());
    assert_eq!(attempts[1].result.status_string(), "timeout");
    assert!(attempts.iter().all(|a| a.specialist == "Algebraist" && a.goal_excerpt == goal));
    for (rec, a) in recs.iter().zip(attempts.iter()) {
        assert_eq!(rec.result.as_ref().unwrap().status, a.result.status_string());
        assert_eq!(rec.specialist, a.specialist);
        assert_eq!(rec.goal_excerpt, a.goal_excerpt);
    }
}

#[test]
fn playbook_with_no_tactics_gives_nothing() {
    let pb = Playbook { specialist: "Empty".to_string(), tactics: vec![] };
    assert!(playbook_attempts("lemma x: True", &pb, vec![]).is_empty());
    assert!(playbook_records("lemma x: True", "00000000", &pb, &vec![], &vec![], &vec![]).is_empty());
}
