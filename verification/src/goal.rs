//! Goal parsing and normalisation.
//!
//! A `Goal` is a proof obligation reduced to the signature tokens that
//! determine where in a library it fits: identifiers, type names and
//! operator names, lowercased, with syntactic noise words removed.
use crate::text::{
    alphanumeric, chars_eq, chars_lt, chars_of, chars_of_all, contains_seq, contains_str, insert_sorted,
    is_alphanumeric, lemma_lex_transitive, lex_lt, lowercase, replace, replace_seq, string_from,
    strings_of, strictly_sorted, to_lowercase, utf8_len, utf8_width, views, vviews,
};
use vstd::prelude::*;

verus! {

/// A normalised proof goal.
pub struct Goal {
    /// The raw input text.
    pub raw: String,
    /// The signature tokens, as a set: strictly increasing in the order of
    /// `String`, so that no token occurs twice.
    pub tokens: Vec<String>,
    /// Heuristic tag of the source language, if detectable.
    pub language: Option<String>,
}

/// The character view of an optional string.
pub open spec fn opt_view(o: Option<String>) -> Option<Seq<char>> {
    match o {
        Some(s) => Some(s@),
        None => None,
    }
}

impl Goal {
    /// The tokens as character sequences, in order.
    pub open spec fn token_seq(&self) -> Seq<Seq<char>> {
        views(self.tokens@)
    }

    /// The tokens as a set.
    pub open spec fn token_set(&self) -> Set<Seq<char>> {
        self.token_seq().to_set()
    }

    /// The tokens are strictly sorted, hence free of duplicates.
    pub open spec fn well_formed(&self) -> bool {
        strictly_sorted(self.token_seq())
    }

    /// Whether the tokens are strictly sorted.
    pub fn is_well_formed(&self) -> (r: bool)
        ensures
            r == self.well_formed(),
    {
        tokens_sorted(&self.tokens)
    }
}

/// Whether a vector of strings is strictly increasing.
pub fn tokens_sorted(v: &Vec<String>) -> (r: bool)
    ensures
        r == strictly_sorted(views(v@)),
{
    let cs = chars_of_all(v);
    let mut i: usize = 1;
    if cs.len() == 0 {
        return true;
    }
    while i < cs.len()
        invariant
            1 <= i <= cs.len(),
            vviews(cs@) == views(v@),
            forall|a: int, b: int| 0 <= a < b < i ==> lex_lt(#[trigger] vviews(cs@)[a], #[trigger] vviews(cs@)[b]),
        decreases cs.len() - i,
    {
        if !chars_lt(&cs[i - 1], &cs[i]) {
            proof {
                let w = vviews(cs@);
                assert(!lex_lt(w[i - 1], w[i as int]));
            }
            return false;
        }
        proof {
            let w = vviews(cs@);
            assert forall|a: int, b: int| 0 <= a < b < i + 1 implies lex_lt(#[trigger] w[a], #[trigger] w[b]) by {
                if b == i && a < i - 1 {
                    lemma_lex_transitive(w[a], w[i - 1], w[b]);
                }
            }
        }
        i = i + 1;
    }
    true
}

// ---------------------------------------------------------------------
// Specification
// ---------------------------------------------------------------------

/// The language tag of a goal text, judged by distinguishing keywords,
/// the most distinctive first.
pub open spec fn language_of(s: Seq<char>) -> Option<Seq<char>> {
    if contains_seq(s, "theorem "@) && (contains_seq(s, ":="@) || contains_seq(s, "by "@)) {
        Some("lean"@)
    } else if contains_seq(s, "lemma "@) && contains_seq(s, "\\<"@) {
        Some("isabelle"@)
    } else if contains_seq(s, "Theorem "@) || contains_seq(s, "Lemma "@) || contains_seq(
        s,
        "Definition "@,
    ) {
        Some("coq"@)
    } else if contains_seq(s, "lemma "@) || contains_seq(s, "theorem "@) {
        Some("isabelle"@)
    } else {
        None
    }
}

/// Law: how a goal text's language is told.
/// - `theorem ` with `:=` or `by ` marks Lean.
/// - `lemma ` with an Isabelle symbol `\<` marks Isabelle, unless Lean is
///   marked.
/// - `Theorem `, `Lemma ` or `Definition ` marks Coq when neither lower-case
///   `theorem ` nor `lemma ` occurs.
/// - `lemma ` or `theorem ` alone, with no Coq keyword and no Lean marker,
///   marks Isabelle.
/// - A text with none of these keywords has no language tag.
pub proof fn language_tags(s: Seq<char>)
    ensures
        contains_seq(s, "theorem "@) && (contains_seq(s, ":="@) || contains_seq(s, "by "@))
            ==> language_of(s) == Some("lean"@),
        contains_seq(s, "lemma "@) && contains_seq(s, "\\<"@) && !(contains_seq(s, "theorem "@) && (
        contains_seq(s, ":="@) || contains_seq(s, "by "@))) ==> language_of(s) == Some(
            "isabelle"@,
        ),
        (contains_seq(s, "Theorem "@) || contains_seq(s, "Lemma "@) || contains_seq(
            s,
            "Definition "@,
        )) && !contains_seq(s, "theorem "@) && !contains_seq(s, "lemma "@) ==> language_of(s)
            == Some("coq"@),
        (contains_seq(s, "lemma "@) || contains_seq(s, "theorem "@)) && !contains_seq(
            s,
            "Theorem "@,
        ) && !contains_seq(s, "Lemma "@) && !contains_seq(s, "Definition "@) && !(contains_seq(
            s,
            "theorem "@,
        ) && (contains_seq(s, ":="@) || contains_seq(s, "by "@))) ==> language_of(s) == Some(
            "isabelle"@,
        ),
        !contains_seq(s, "theorem "@) && !contains_seq(s, "lemma "@) && !contains_seq(
            s,
            "Theorem "@,
        ) && !contains_seq(s, "Lemma "@) && !contains_seq(s, "Definition "@) ==> language_of(s)
            is None,
{
}

/// Keywords of Isabelle, Coq and Lean that carry no mathematical content.
pub open spec fn noise_words() -> Seq<Seq<char>> {
    seq![
        "lemma"@,
        "theorem"@,
        "Lemma"@,
        "Theorem"@,
        "Definition"@,
        "definition"@,
        "proof"@,
        "qed"@,
        "by"@,
        "using"@,
        "assumes"@,
        "shows"@,
        "fixes"@,
        "where"@,
        "if"@,
        "then"@,
        "else"@,
        "let"@,
        "in"@,
        "the"@,
        "a"@,
        "an"@,
        "of"@,
        "to"@,
        "from"@,
        "for"@,
        "with"@,
        "Type"@,
        "Prop"@,
        "Set"@,
        "True"@,
        "False"@,
    ]
}

/// Characters that may belong to a token.
pub open spec fn is_word_char(c: char) -> bool {
    alphanumeric(c) || c == '_'
}

/// A run of word characters becomes a token when it spans at least two
/// bytes of UTF-8.
pub open spec fn keeps_run(run: Seq<char>) -> bool {
    utf8_len(run) >= 2
}

/// Scanning `s` from the left: the tokens emitted so far and the run of
/// word characters under way.
pub open spec fn scan(s: Seq<char>) -> (Seq<Seq<char>>, Seq<char>)
    decreases s.len(),
{
    if s.len() == 0 {
        (seq![], seq![])
    } else {
        let prev = scan(s.drop_last());
        let c = s.last();
        if is_word_char(c) {
            (prev.0, prev.1.push(c))
        } else if keeps_run(prev.1) {
            (prev.0.push(prev.1), seq![])
        } else {
            (prev.0, seq![])
        }
    }
}

/// The maximal runs of word characters of `s`, in order, that span at
/// least two bytes.
pub open spec fn raw_tokens_seq(s: Seq<char>) -> Seq<Seq<char>> {
    let r = scan(s);
    if keeps_run(r.1) {
        r.0.push(r.1)
    } else {
        r.0
    }
}

/// The goal text with the Isabelle symbol brackets `\<` and `\>` blanked.
pub open spec fn cleaned_text(s: Seq<char>) -> Seq<char> {
    replace_seq(replace_seq(s, "\\<"@, " "@), "\\>"@, " "@)
}

/// The lowercased tokens of a sequence of raw tokens, noise words dropped.
pub open spec fn token_set_of(rt: Seq<Seq<char>>) -> Set<Seq<char>>
    decreases rt.len(),
{
    if rt.len() == 0 {
        Set::empty()
    } else {
        let prev = token_set_of(rt.drop_last());
        if noise_words().contains(rt.last()) {
            prev
        } else {
            prev.insert(lowercase(rt.last()))
        }
    }
}

/// The signature tokens of a goal text.
pub open spec fn goal_tokens(s: Seq<char>) -> Set<Seq<char>> {
    token_set_of(raw_tokens_seq(cleaned_text(s)))
}

// ---------------------------------------------------------------------
// Implementation
// ---------------------------------------------------------------------

/// Parse a raw goal string into a normalised [`Goal`]: the raw text, its
/// signature tokens and its language tag.
pub fn parse_goal(raw: &str) -> (g: Goal)
    ensures
        g.raw@ == raw@,
        opt_view(g.language) == language_of(raw@),
        g.well_formed(),
        g.token_set() == goal_tokens(raw@),
{
    let text = chars_of(raw);
    let language = detect_language(&text);
    let tokens = extract_tokens(&text);
    Goal { raw: string_from(raw), tokens, language }
}

/// The language tag of a goal text.
pub fn detect_language(raw: &Vec<char>) -> (r: Option<String>)
    ensures
        opt_view(r) == language_of(raw@),
{
    if contains_str(raw, "theorem ") && (contains_str(raw, ":=") || contains_str(raw, "by ")) {
        Some(string_from("lean"))
    } else if contains_str(raw, "lemma ") && contains_str(raw, "\\<") {
        Some(string_from("isabelle"))
    } else if contains_str(raw, "Theorem ") || contains_str(raw, "Lemma ") || contains_str(
        raw,
        "Definition ",
    ) {
        Some(string_from("coq"))
    } else if contains_str(raw, "lemma ") || contains_str(raw, "theorem ") {
        Some(string_from("isabelle"))
    } else {
        None
    }
}

/// The noise words as character vectors.
fn noise_list() -> (r: Vec<Vec<char>>)
    ensures
        vviews(r@) == noise_words(),
{
    let mut v: Vec<Vec<char>> = Vec::new();
    v.push(chars_of("lemma"));
    v.push(chars_of("theorem"));
    v.push(chars_of("Lemma"));
    v.push(chars_of("Theorem"));
    v.push(chars_of("Definition"));
    v.push(chars_of("definition"));
    v.push(chars_of("proof"));
    v.push(chars_of("qed"));
    v.push(chars_of("by"));
    v.push(chars_of("using"));
    v.push(chars_of("assumes"));
    v.push(chars_of("shows"));
    v.push(chars_of("fixes"));
    v.push(chars_of("where"));
    v.push(chars_of("if"));
    v.push(chars_of("then"));
    v.push(chars_of("else"));
    v.push(chars_of("let"));
    v.push(chars_of("in"));
    v.push(chars_of("the"));
    v.push(chars_of("a"));
    v.push(chars_of("an"));
    v.push(chars_of("of"));
    v.push(chars_of("to"));
    v.push(chars_of("from"));
    v.push(chars_of("for"));
    v.push(chars_of("with"));
    v.push(chars_of("Type"));
    v.push(chars_of("Prop"));
    v.push(chars_of("Set"));
    v.push(chars_of("True"));
    v.push(chars_of("False"));
    assert(vviews(v@) =~= noise_words());
    v
}

/// Whether `w` equals one of the entries of `list`.
pub fn member_of(list: &Vec<Vec<char>>, w: &Vec<char>) -> (r: bool)
    ensures
        r == vviews(list@).contains(w@),
{
    let mut i: usize = 0;
    while i < list.len()
        invariant
            i <= list.len(),
            forall|j: int| 0 <= j < i ==> vviews(list@)[j] != w@,
        decreases list.len() - i,
    {
        if chars_eq(&list[i], w) {
            assert(vviews(list@)[i as int] == w@);
            return true;
        }
        i = i + 1;
    }
    false
}

proof fn lemma_utf8_len_at_least_len(s: Seq<char>)
    ensures
        utf8_len(s) >= s.len(),
    decreases s.len(),
{
    if s.len() > 0 {
        lemma_utf8_len_at_least_len(s.drop_first());
    }
}

/// Whether a run of word characters spans at least two bytes of UTF-8.
fn keeps(run: &Vec<char>) -> (r: bool)
    ensures
        r == keeps_run(run@),
{
    proof {
        lemma_utf8_len_at_least_len(run@);
        if run@.len() == 1 {
            assert(utf8_len(run@.drop_first()) == 0);
            assert(utf8_len(run@) == utf8_width(run@[0]));
        }
    }
    run.len() >= 2 || (run.len() == 1 && (run[0] as u32) >= 0x80)
}

/// The maximal runs of word characters of `text` spanning at least two
/// bytes, in order.
pub fn raw_tokens(text: &Vec<char>) -> (r: Vec<Vec<char>>)
    ensures
        vviews(r@) == raw_tokens_seq(text@),
{
    let mut out: Vec<Vec<char>> = Vec::new();
    let mut current: Vec<char> = Vec::new();
    let mut i: usize = 0;
    while i < text.len()
        invariant
            i <= text.len(),
            (vviews(out@), current@) == scan(text@.take(i as int)),
        decreases text.len() - i,
    {
        let ch = text[i];
        proof {
            assert(text@.take(i + 1).drop_last() =~= text@.take(i as int));
        }
        if is_alphanumeric(ch) || ch == '_' {
            current.push(ch);
        } else {
            if keeps(&current) {
                let ghost before = out@;
                out.push(current);
                assert(vviews(out@) =~= vviews(before).push(current@));
                current = Vec::new();
            } else {
                current = Vec::new();
            }
            assert(current@ =~= Seq::<char>::empty());
        }
        i = i + 1;
    }
    assert(text@.take(text.len() as int) =~= text@);
    if keeps(&current) {
        let ghost before = out@;
        out.push(current);
        assert(vviews(out@) =~= vviews(before).push(current@));
    }
    out
}

/// The signature tokens of a goal text, strictly sorted.
pub fn extract_tokens(raw: &Vec<char>) -> (r: Vec<String>)
    ensures
        strictly_sorted(views(r@)),
        views(r@).to_set() == goal_tokens(raw@),
{
    let open_sym = chars_of("\\<");
    let close_sym = chars_of("\\>");
    let blank = chars_of(" ");
    proof {
        reveal_strlit("\\<");
        reveal_strlit("\\>");
    }
    let step = replace(raw, &open_sym, &blank);
    let cleaned = replace(&step, &close_sym, &blank);
    let rts = raw_tokens(&cleaned);
    let noise = noise_list();
    let mut set: Vec<Vec<char>> = Vec::new();
    let mut i: usize = 0;
    assert(vviews(rts@).take(0) =~= Seq::<Seq<char>>::empty());
    assert(vviews(set@).to_set() =~= Set::<Seq<char>>::empty());
    while i < rts.len()
        invariant
            i <= rts.len(),
            vviews(noise@) == noise_words(),
            strictly_sorted(vviews(set@)),
            vviews(set@).to_set() == token_set_of(vviews(rts@).take(i as int)),
        decreases rts.len() - i,
    {
        let t = &rts[i];
        proof {
            assert(vviews(rts@).take(i + 1).drop_last() =~= vviews(rts@).take(i as int));
            assert(vviews(rts@).take(i + 1).last() == t@);
        }
        if !member_of(&noise, t) {
            let low = to_lowercase(t);
            insert_sorted(&mut set, low);
        }
        i = i + 1;
    }
    assert(vviews(rts@).take(rts.len() as int) =~= vviews(rts@));
    strings_of(&set)
}

} // verus!
