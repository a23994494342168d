use burrower::corpus::{extract_lemmas, Corpus, LibraryKind};

#[test]
fn library_kinds_follow_file_extensions() {
    assert_eq!(LibraryKind::from_path("lib/Test.thy"), Some(LibraryKind::Isabelle));
    assert_eq!(LibraryKind::from_path("Foo.v"), Some(LibraryKind::Coq));
    assert_eq!(LibraryKind::from_path("a/b.c/Mathlib.lean"), Some(LibraryKind::Lean));
    assert_eq!(LibraryKind::from_path("README"), None);
    assert_eq!(LibraryKind::from_path("notes.txt"), None);
    assert_eq!(LibraryKind::from_path(".thy"), None);
    assert_eq!(LibraryKind::from_extension("thy"), Some(LibraryKind::Isabelle));
    assert_eq!(LibraryKind::from_extension("THY"), None);
}

#[test]
fn extracts_isabelle_lemmas_from_file_text() {
    let text = "theory Test imports Main begin\nlemma foo: \"x + 0 = x\" by simp\nlemma bar: \"y + y = 2 * y\"\n  by simp\nend\n";
    let lemmas = extract_lemmas(text, "Test.thy", LibraryKind::Isabelle);
    assert_eq!(lemmas.len(), 2);
    assert_eq!(lemmas[0].name, "foo");
    assert_eq!(lemmas[0].line, 2);
    assert_eq!(lemmas[0].statement, "lemma foo: \"x + 0 = x\" by simp");
    assert_eq!(lemmas[0].file, "Test.thy");
    assert_eq!(lemmas[1].name, "bar");
    assert_eq!(lemmas[1].line, 3);
    assert_eq!(lemmas[1].statement, "lemma bar: \"y + y = 2 * y\"");
    assert_eq!(lemmas[1].tokens, vec!["bar"]);
    let mut corpus = Corpus::new();
    assert!(corpus.is_empty());
    corpus.add_file(text, "Test.thy", LibraryKind::Isabelle);
    assert_eq!(corpus.len(), 2);
}

#[test]
fn statements_run_until_blank_line_marker_or_next_lemma() {
    let text = "Lemma plus_comm : forall n m,\n  n + m = m + n.\nProof.\n  auto.\nQed.\nTheorem t: True.\n\nDefinition d := 1.";
    let lemmas = extract_lemmas(text, "A.v", LibraryKind::Coq);
    let names: Vec<&str> = lemmas.iter().map(|l| l.name.as_str()).collect();
    assert_eq!(names, vec!["plus_comm", "t", "d"]);
    assert_eq!(lemmas[0].statement, "Lemma plus_comm : forall n m,\n  n + m = m + n.");
    assert_eq!(lemmas[1].statement, "Theorem t: True.");
    assert_eq!(lemmas[2].line, 8);
    let lean = "theorem add_zero (n : Nat) : n + 0 = n := by\n  simp\ndef : Nat";
    let lemmas = extract_lemmas(lean, "B.lean", LibraryKind::Lean);
    assert_eq!(lemmas.len(), 1);
    assert_eq!(lemmas[0].name, "add_zero");
}
