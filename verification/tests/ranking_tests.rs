use burrower::corpus::{Corpus, IndexedLemma, LibraryKind};
use burrower::goal::parse_goal;
use burrower::ranking::rank;

fn mk_lemma(name: &str, tokens: &[&str]) -> IndexedLemma {
    let mut tokens: Vec<String> = tokens.iter().map(|s| s.to_string()).collect();
    tokens.sort();
    tokens.dedup();
    IndexedLemma {
        name: name.to_string(),
        statement: format!("lemma {name}: ..."),
        file: "test".to_string(),
        line: 1,
        kind: LibraryKind::Isabelle,
        tokens,
    }
}

#[test]
fn ranks_more_overlap_higher() {
    let goal = parse_goal("lemma foo: \"trop_walks_sum A S \\<le> trop_walks_sum A T\"");
    let corpus = Corpus {
        lemmas: vec![
            mk_lemma("trop_walks_sum_ge_member", &["trop_walks_sum", "path_weight"]),
            mk_lemma("nat_add_comm", &["nat", "add", "comm"]),
            mk_lemma("trop_walks_sum_mono", &["trop_walks_sum", "mono", "subset"]),
        ],
    };
    let ranked = rank(&goal, &corpus, 3);
    assert!(!ranked.is_empty());
    // Both trop_walks_sum lemmas should rank above nat_add_comm.
    assert!(ranked[0].lemma.name.starts_with("trop_walks_sum"));
}

#[test]
fn ranking_is_jaccard_ordered_stable_and_truncated() {
    // Goal tokens: foo, le, trop_walks_sum.
    let goal = parse_goal("lemma foo: \"trop_walks_sum A S \\<le> trop_walks_sum A T\"");
    assert_eq!(goal.tokens, vec!["foo", "le", "trop_walks_sum"]);
    let corpus = Corpus {
        lemmas: vec![
            mk_lemma("a", &["trop_walks_sum", "path_weight"]),
            mk_lemma("b", &["nat"]),
            mk_lemma("c", &["trop_walks_sum", "le"]),
            mk_lemma("d", &["trop_walks_sum", "mono"]),
        ],
    };
    let ranked = rank(&goal, &corpus, 10);
    // a: 1/4, c: 2/3, d: 1/4; b shares nothing and is left out.
    let names: Vec<&str> = ranked.iter().map(|h| h.lemma.name.as_str()).collect();
    assert_eq!(names, vec!["c", "a", "d"]);
    assert_eq!((ranked[0].shared_count, ranked[0].union_count), (2, 3));
    assert_eq!(ranked[0].shared_tokens, vec!["le", "trop_walks_sum"]);
    assert_eq!((ranked[1].shared_count, ranked[1].union_count), (1, 4));
    let top = rank(&goal, &corpus, 1);
    assert_eq!(top.len(), 1);
    assert_eq!(top[0].lemma.name, "c");
    assert!(rank(&goal, &corpus, 0).is_empty());
    assert!(rank(&goal, &Corpus::new(), 5).is_empty());
}
