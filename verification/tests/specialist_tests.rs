use burrower::attempt::{Playbook, TacticTemplate};
use burrower::corpus::{Corpus, IndexedLemma, LibraryKind};
use burrower::goal::parse_goal;
use burrower::specialist::{
    reading_records, reading_sentence, Algebraist, Combinatorialist, OrderTheorist, Profile, Relevance,
    Specialist, Swarm,
};

fn mk_lemma(name: &str, tokens: &[&str]) -> IndexedLemma {
    let mut tokens: Vec<String> = tokens.iter().map(|s| s.to_string()).collect();
    tokens.sort();
    tokens.dedup();
    IndexedLemma {
        name: name.to_string(),
        statement: format!("lemma {name}: ..."),
        file: format!("{name}.thy"),
        line: 3,
        kind: LibraryKind::Isabelle,
        tokens,
    }
}

#[test]
fn algebraist_recognises_tropical_goal() {
    let g = parse_goal("lemma trop_walks_sum_mono: trop_walks_sum A S \\<le> trop_walks_sum A T");
    let s = Algebraist;
    assert!(s.relevance(&g).is_positive(), "should engage on tropical content");
}

#[test]
fn order_theorist_recognises_le_subseteq() {
    let g = parse_goal("lemma foo: \"S \\<subseteq> T \\<Longrightarrow> f S \\<le> f T\"");
    let s = OrderTheorist;
    assert!(s.relevance(&g).is_positive(), "should engage on ≤ + ⊆");
}

#[test]
fn combinatorialist_recognises_walks() {
    let g = parse_goal("lemma foo: \"finite (walks n k i j)\"");
    let s = Combinatorialist;
    assert!(s.relevance(&g).is_positive(), "should engage on walks + finite");
}

#[test]
fn playbooks_expanded_2026_04_26() {
    assert!(Algebraist.playbook().tactics.len() >= 10,
        "Algebraist playbook should have ≥10 tactics post-2026-04-26 expansion");
    assert!(OrderTheorist.playbook().tactics.len() >= 12,
        "OrderTheorist playbook should have ≥12 tactics post-2026-04-26 expansion");
    assert!(Combinatorialist.playbook().tactics.len() >= 12,
        "Combinatorialist playbook should have ≥12 tactics post-2026-04-26 expansion");
}

#[test]
fn combinatorialist_carries_session_repair_patterns() {
    let names: Vec<String> = Combinatorialist.playbook().tactics
        .iter().map(|t| t.name.clone()).collect();
    assert!(names.iter().any(|n| n == "permutes-in-image"),
        "Combinatorialist must carry the Det 153/207 fix");
    assert!(names.iter().any(|n| n == "metis-append"),
        "Combinatorialist must carry the Kleene 403 list-decomp fix");
    assert!(names.iter().any(|n| n == "induction-arbitrary"),
        "Combinatorialist must carry the Matrices_Full generalised-induction pattern");
}

#[test]
fn order_theorist_carries_2025_drift_fixes() {
    let names: Vec<String> = OrderTheorist.playbook().tactics
        .iter().map(|t| t.name.clone()).collect();
    assert!(names.iter().any(|n| n == "linarith"),
        "OrderTheorist must carry linarith (omega→linarith drift in 2025-1)");
    assert!(names.iter().any(|n| n == "force"),
        "OrderTheorist must carry force (Kleene 403 list-decomp fallback)");
}

#[test]
fn algebraist_carries_ac_simps_replacement() {
    let names: Vec<String> = Algebraist.playbook().tactics
        .iter().map(|t| t.name.clone()).collect();
    assert!(names.iter().any(|n| n == "ac-simps"),
        "Algebraist must carry ac-simps (replaces looping metis chains)");
}

#[test]
fn swarm_routes_to_relevant_specialists_first() {
    let g = parse_goal("lemma foo: \"finite T \\<Longrightarrow> trop_walks_sum A S \\<le> trop_walks_sum A T\"");
    let swarm = Swarm::new();
    let corpus = Corpus::new();
    let readings = swarm.route(&g, &corpus, 3);
    assert_eq!(readings.len(), 3);
    // First reading should be the most relevant.
    assert!(readings[0].relevance.at_least(&readings[1].relevance));
    assert!(readings[1].relevance.at_least(&readings[2].relevance));
}

#[test]
fn seed_specialists_names_domains_and_keyword_counts() {
    assert_eq!((Algebraist.name(), Algebraist.domain()), ("Algebraist", "Algebra"));
    assert_eq!((OrderTheorist.name(), OrderTheorist.domain()), ("OrderTheorist", "Order Theory"));
    assert_eq!((Combinatorialist.name(), Combinatorialist.domain()), ("Combinatorialist", "Combinatorics"));
    assert_eq!(Algebraist.keywords().len(), 35);
    assert_eq!(OrderTheorist.keywords().len(), 35);
    assert_eq!(Combinatorialist.keywords().len(), 31);
    assert_eq!(Algebraist.keywords()[0], "group");
    assert_eq!(Combinatorialist.keywords()[30], "filter");
    let pb = Algebraist.playbook();
    assert_eq!(pb.specialist, "Algebraist");
    assert_eq!(pb.tactics.len(), 10);
    assert_eq!(pb.tactics[4].script, "by (simp add: ac_simps)");
    assert_eq!(OrderTheorist.playbook().tactics.len(), 12);
    assert_eq!(Combinatorialist.playbook().tactics.len(), 13);
}

#[test]
fn relevance_counts_matching_keywords() {
    // Tokens: le, trop_walks_sum, trop_walks_sum_mono.
    let g = parse_goal("lemma trop_walks_sum_mono: trop_walks_sum A S \\<le> trop_walks_sum A T");
    let r = Algebraist.relevance(&g);
    assert_eq!((r.hits, r.keywords), (1, 35));
    assert!(r.engages());
    let r = OrderTheorist.relevance(&g);
    assert_eq!((r.hits, r.keywords), (2, 35));
    let r = Combinatorialist.relevance(&g);
    assert_eq!((r.hits, r.keywords), (3, 31));
    let none = parse_goal("lemma x: zzz");
    assert!(!Algebraist.relevance(&none).is_positive());
    assert!(!Algebraist.relevance(&none).engages());
}

#[test]
fn threshold_is_one_keyword_in_fifty() {
    assert!(Relevance { hits: 1, keywords: 50 }.engages());
    assert!(!Relevance { hits: 1, keywords: 51 }.engages());
    assert!(!Relevance { hits: 0, keywords: 0 }.engages());
    assert!(Relevance { hits: 1, keywords: 3 }.at_least(&Relevance { hits: 2, keywords: 6 }));
    assert!(!Relevance { hits: 0, keywords: 0 }.at_least(&Relevance { hits: 1, keywords: 9 }));
    assert!(Relevance { hits: 0, keywords: 4 }.at_least(&Relevance { hits: 0, keywords: 0 }));
}

#[test]
fn readings_cite_witness_tokens() {
    let g = parse_goal("lemma trop_walks_sum_mono: trop_walks_sum A S \\<le> trop_walks_sum A T");
    assert_eq!(Algebraist.read(&g), "Algebra structure detected via [\"trop_walks_sum\"]");
    assert_eq!(
        OrderTheorist.read(&g),
        "Order Theory structure detected via [\"le\", \"trop_walks_sum_mono\"]"
    );
    let none = parse_goal("lemma x: zzz");
    assert_eq!(OrderTheorist.read(&none), "no recognised order theory structure in this goal");
    // At most five witnesses are cited.
    let many = parse_goal("lemma m: group ring field semiring monoid semigroup ideal");
    assert_eq!(
        Algebraist.read(&many),
        "Algebra structure detected via [\"group\", \"ring\", \"field\", \"semiring\", \"monoid\"]"
    );
    assert_eq!(reading_sentence("Algebra", "algebra", None), "no recognised algebra structure in this goal");
    assert_eq!(reading_sentence("Algebra", "", Some("[]")), "Algebra structure detected via []");
}

#[test]
fn filtering_needs_two_domain_keywords() {
    let corpus = Corpus {
        lemmas: vec![
            mk_lemma("one_hit", &["group"]),
            mk_lemma("two_hits", &["group", "ring_hom"]),
            mk_lemma("walk_sum", &["finite", "sum", "walks"]),
        ],
    };
    let alg = Algebraist.filter(&corpus);
    // `group` and `ring_hom` hit `group` and `ring`; `finite` alone hits only `fin`.
    assert_eq!(alg.lemmas.iter().map(|l| l.name.as_str()).collect::<Vec<_>>(), vec!["two_hits"]);
    let comb = Combinatorialist.filter(&corpus);
    assert_eq!(comb.lemmas.iter().map(|l| l.name.as_str()).collect::<Vec<_>>(), vec!["walk_sum"]);
    assert!(OrderTheorist.filter(&corpus).lemmas.is_empty());
}

#[test]
fn read_goal_locates_homes_in_domain() {
    let g = parse_goal("lemma foo: \"finite T \\<Longrightarrow> trop_walks_sum A S \\<le> trop_walks_sum A T\"");
    let corpus = Corpus {
        lemmas: vec![
            mk_lemma("walk_sum", &["finite", "sum", "trop_walks_sum"]),
            mk_lemma("le_only", &["le", "group"]),
        ],
    };
    let r = Combinatorialist.read_goal(&g, &corpus, 5);
    assert_eq!(r.specialist, "Combinatorialist");
    assert_eq!(r.domain, "Combinatorics");
    assert_eq!(r.homes.len(), 1);
    assert_eq!(r.homes[0].lemma.name, "walk_sum");
    assert_eq!((r.homes[0].shared_count, r.homes[0].union_count), (2, 6));
    let homes = Combinatorialist.locate(&g, &corpus, 0);
    assert!(homes.is_empty());
}

fn tactic(name: &str) -> TacticTemplate {
    TacticTemplate { name: name.to_string(), script: format!("by {name}"), description: String::new() }
}

#[test]
fn synthesis_tallies_consensus_homes() {
    let g = parse_goal("lemma foo: \"finite T \\<Longrightarrow> trop_walks_sum A S \\<le> trop_walks_sum A T\"");
    let corpus = Corpus {
        lemmas: vec![mk_lemma("walk_sum", &["finite", "sum", "trop_walks_sum"])],
    };
    let swarm = Swarm::new();
    let readings = swarm.route(&g, &corpus, 5);
    let names: Vec<&str> = readings.iter().map(|r| r.specialist.as_str()).collect();
    assert_eq!(names, vec!["Combinatorialist", "Algebraist", "OrderTheorist"]);
    let s = swarm.synthesise(&readings);
    assert_eq!(s.engaged_specialists, vec!["Combinatorialist", "Algebraist", "OrderTheorist"]);
    assert_eq!(s.domains, vec!["Combinatorics", "Algebra", "Order Theory"]);
    assert!(s.boundary_object);
    assert_eq!(
        s.summary,
        "Boundary object: this goal lives in the intersection of Combinatorics, Algebra, Order Theory. Cross-domain readings often suggest the deepest results."
    );
    assert_eq!(s.consensus_homes.len(), 1);
    let t = &s.consensus_homes[0];
    assert_eq!((t.lemma_name.as_str(), t.file.as_str(), t.line, t.votes), ("walk_sum", "walk_sum.thy", 3, 2));
    assert_eq!(t.readers, vec![0, 1]);
    assert_eq!(t.contributions.len(), 2);
    assert_eq!((t.contributions[0].shared, t.contributions[0].union, t.contributions[0].hits, t.contributions[0].keywords), (2, 6, 4, 31));
    assert_eq!((t.contributions[1].hits, t.contributions[1].keywords), (2, 35));
}

#[test]
fn homes_cited_by_one_specialist_are_not_consensus() {
    let g = parse_goal("lemma foo: \"finite T \\<Longrightarrow> trop_walks_sum A S \\<le> trop_walks_sum A T\"");
    // `walks_only` lies in the combinatorics domain alone.
    let corpus = Corpus { lemmas: vec![mk_lemma("walks_only", &["finite", "walks", "sum"])] };
    let swarm = Swarm::new();
    let readings = swarm.route(&g, &corpus, 5);
    assert_eq!(readings[0].homes.len(), 1);
    let s = swarm.synthesise(&readings);
    assert!(s.consensus_homes.is_empty());
}

#[test]
fn synthesis_of_no_or_one_domain() {
    let swarm = Swarm::new();
    let none = parse_goal("lemma x: zzz");
    let readings = swarm.route(&none, &Corpus::new(), 3);
    let s = swarm.synthesise(&readings);
    assert!(s.engaged_specialists.is_empty());
    assert!(!s.boundary_object);
    assert_eq!(s.summary, "No specialist engaged. This goal may be a novel construction with no recognised mathematical home.");
    let one = parse_goal("lemma x: walks");
    let readings = swarm.route(&one, &Corpus::new(), 3);
    let s = swarm.synthesise(&readings);
    assert_eq!(s.domains, vec!["Combinatorics"]);
    assert_eq!(s.summary, "Single-domain object: best read as Combinatorics.");
}

#[test]
fn engaged_playbooks_and_added_specialists() {
    let mut swarm = Swarm::new();
    let custom = Profile {
        name: "Topologist".to_string(),
        domain: "Topology".to_string(),
        keywords: vec!["open".to_string(), "Compact".to_string()],
        playbook: Playbook { specialist: "Topologist".to_string(), tactics: vec![tactic("auto")] },
    };
    swarm.add(&custom);
    let g = parse_goal("lemma c: compact_space walks");
    let plan = swarm.engaged_playbooks(&g);
    let names: Vec<&str> = plan.iter().map(|p| p.specialist.as_str()).collect();
    assert_eq!(names, vec!["Combinatorialist", "Topologist"]);
    assert_eq!(plan[1].tactics.len(), 1);
    assert_eq!(plan[1].tactics[0].script, "by auto");
    let readings = swarm.route(&g, &Corpus::new(), 3);
    assert_eq!(readings.len(), 4);
    // Topologist: 1 of 2 keywords (`Compact`, lower-cased); Combinatorialist: walk, walks.
    assert_eq!(readings[0].specialist, "Topologist");
    assert_eq!(readings[0].reading, "Topology structure detected via [\"compact_space\"]");
    let empty = Profile {
        name: "Idle".to_string(),
        domain: "None".to_string(),
        keywords: vec![],
        playbook: Playbook { specialist: "Idle".to_string(), tactics: vec![] },
    };
    swarm.add(&empty);
    let readings = swarm.route(&g, &Corpus::new(), 3);
    assert_eq!(readings.last().unwrap().specialist, "Idle");
    assert_eq!(readings.last().unwrap().relevance.keywords, 0);
}

#[test]
fn routed_readings_give_one_proposal_each_in_order() {
    let g = parse_goal("lemma foo: \"finite T \\<Longrightarrow> trop_walks_sum A S \\<le> trop_walks_sum A T\"");
    let readings = Swarm::new().route(&g, &Corpus::new(), 3);
    let n = readings.len();
    let rel: Vec<String> = (0..n).map(|i| format!("0.{i}")).collect();
    let ids: Vec<String> = (0..n).map(|i| format!("id-{i}")).collect();
    let stamps: Vec<String> = (0..n).map(|i| format!("epoch:{i}")).collect();
    let recs = reading_records(&g.raw, &readings, &rel, &ids, &stamps);
    assert_eq!(recs.len(), n);
    for (i, (rd, rec)) in readings.iter().zip(recs.iter()).enumerate() {
        assert_eq!(rec.specialist, rd.specialist);
        assert_eq!(rec.id, format!("id-{i}"));
        assert_eq!(rec.timestamp, format!("epoch:{i}"));
        let res = rec.result.as_ref().unwrap();
        assert_eq!(res.status, "proposed");
        assert_eq!(res.explanation, format!("relevance=0.{i}, reading: {}", rd.reading));
    }
}
