use burrower::goal::parse_goal;

fn has(tokens: &[String], t: &str) -> bool {
    tokens.iter().any(|x| x == t)
}

#[test]
fn extracts_isabelle_lemma_tokens() {
    let g = parse_goal(
        "lemma trop_walks_sum_mono_subset:\n  assumes \"finite T\" \"S \\<subseteq> T\"\n  shows \"trop_walks_sum A S \\<le> trop_walks_sum A T\"",
    );
    assert!(has(&g.tokens, "trop_walks_sum_mono_subset"));
    assert!(has(&g.tokens, "trop_walks_sum"));
    assert!(has(&g.tokens, "finite"));
    // Keywords should be filtered out.
    assert!(!has(&g.tokens, "lemma"));
    assert!(!has(&g.tokens, "assumes"));
    assert!(!has(&g.tokens, "shows"));
}

#[test]
fn detects_isabelle() {
    let g = parse_goal("lemma foo: \"x \\<le> y\"");
    assert_eq!(g.language.as_deref(), Some("isabelle"));
}

#[test]
fn detects_lean() {
    let g = parse_goal("theorem foo : x = y := by rfl");
    assert_eq!(g.language.as_deref(), Some("lean"));
}

#[test]
fn detects_coq() {
    let g = parse_goal("Theorem foo : x = y. Proof. reflexivity. Qed.");
    assert_eq!(g.language.as_deref(), Some("coq"));
}

#[test]
fn tokens_are_a_sorted_lowercase_set() {
    let g = parse_goal("lemma Foo_Bar: Foo_Bar x.y \\<le> Zeta zeta a1 b sum.insert");
    assert_eq!(g.raw, "lemma Foo_Bar: Foo_Bar x.y \\<le> Zeta zeta a1 b sum.insert");
    // Identifiers are runs of alphanumerics and underscores: dots split them.
    assert_eq!(g.tokens, vec!["a1", "foo_bar", "insert", "le", "sum", "zeta"]);
    assert!(g.is_well_formed());
}

#[test]
fn language_detection_edge_cases() {
    assert_eq!(parse_goal("x = y").language, None);
    assert_eq!(parse_goal("lemma foo: x = y").language.as_deref(), Some("isabelle"));
    assert_eq!(parse_goal("theorem foo: x = y").language.as_deref(), Some("isabelle"));
    assert_eq!(parse_goal("Definition f := 1.").language.as_deref(), Some("coq"));
    assert!(parse_goal("").tokens.is_empty());
}

#[test]
fn noise_words_are_dropped_before_lowercasing() {
    // `Lemma` is noise as written; `LEMMA` is not, and lowercases to `lemma`.
    let g = parse_goal("Lemma LEMMA the The");
    assert_eq!(g.tokens, vec!["lemma", "the"]);
}
