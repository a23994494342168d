//! Specialists and the swarm.
//!
//! A specialist is a domain expert: it scores its relevance to a goal by
//! how many of its domain keywords the goal's tokens hit, reads the goal in
//! its own vocabulary, and ranks candidate homes from the part of the
//! corpus that lies in its domain. The swarm routes a goal through every
//! specialist, most relevant first, and synthesises their readings.
use crate::attempt::{first_n, join, Playbook, TacticTemplate};
use crate::corpus::{Corpus, IndexedLemma};
use crate::goal::Goal;
use crate::ledger::{proposal_record, record_reading, LedgerRecord};
use crate::ranking::{candidates, rank, rank_order, ranking_of, same_lemma, counts_fit, Entry, Home};
use crate::text::{
    append_chars, chars_eq, chars_of, chars_of_all, contains, contains_seq, debug_quoted, debug_str,
    starts_with,
    starts_with_seq, string_from, string_of, to_lowercase, lowercase, views, vviews,
};
use vstd::prelude::*;

verus! {

// ---------------------------------------------------------------------
// Keyword matching
// ---------------------------------------------------------------------

/// A lemma must hit this many distinct domain keywords to count as in a
/// specialist's domain.
pub const MIN_DOMAIN_HITS: usize = 2;

/// A specialist engages with a goal when at least one in this many of its
/// keywords hits the goal: relevance at least 0.02.
pub const SWARM_RELEVANCE_DIVISOR: usize = 50;

/// A token matches a (lower-case) keyword when it equals it, starts with
/// the keyword and an underscore, or contains it.
pub open spec fn token_matches(t: Seq<char>, k: Seq<char>) -> bool {
    t == k || starts_with_seq(t, k.push('_')) || contains_seq(t, k)
}

/// Some token matches the keyword.
pub open spec fn keyword_hit(toks: Seq<Seq<char>>, k: Seq<char>) -> bool {
    exists|i: int| 0 <= i < toks.len() && token_matches(#[trigger] toks[i], k)
}

/// The number of keywords that some token matches.
pub open spec fn hit_count(kws: Seq<Seq<char>>, toks: Seq<Seq<char>>) -> nat
    decreases kws.len(),
{
    if kws.len() == 0 {
        0
    } else {
        hit_count(kws.drop_last(), toks) + if keyword_hit(toks, kws.last()) {
            1nat
        } else {
            0nat
        }
    }
}

/// The first token that matches the keyword.
pub open spec fn first_match(toks: Seq<Seq<char>>, k: Seq<char>) -> Option<Seq<char>>
    decreases toks.len(),
{
    if toks.len() == 0 {
        None
    } else if token_matches(toks[0], k) {
        Some(toks[0])
    } else {
        first_match(toks.drop_first(), k)
    }
}

/// For each keyword in order, the first token that matches it, where one
/// does.
pub open spec fn all_witnesses(kws: Seq<Seq<char>>, toks: Seq<Seq<char>>) -> Seq<Seq<char>>
    decreases kws.len(),
{
    if kws.len() == 0 {
        seq![]
    } else {
        let prev = all_witnesses(kws.drop_last(), toks);
        match first_match(toks, kws.last()) {
            Some(t) => prev.push(t),
            None => prev,
        }
    }
}

/// The witnesses a reading cites: at most the first five.
pub open spec fn witness_list(kws: Seq<Seq<char>>, toks: Seq<Seq<char>>) -> Seq<Seq<char>> {
    first_n(all_witnesses(kws, toks), 5)
}

/// The keywords in lower case.
pub open spec fn lowered(kws: Seq<Seq<char>>) -> Seq<Seq<char>> {
    kws.map_values(|k: Seq<char>| lowercase(k))
}

/// The character views of string slices.
pub open spec fn str_views(v: Seq<&str>) -> Seq<Seq<char>> {
    v.map_values(|s: &str| s@)
}

/// A list of strings as its `Debug` form shows it: the quoted, escaped
/// strings, separated by `, ` and between brackets.
pub open spec fn debug_strings(v: Seq<Seq<char>>) -> Seq<char> {
    "["@ + join(v.map_values(|x: Seq<char>| debug_quoted(x)), ", "@) + "]"@
}

/// Renders a list of strings as its `Debug` form shows it.
fn debug_list(v: &Vec<String>) -> (r: String)
    ensures
        r@ == debug_strings(views(v@)),
{
    let ghost q = views(v@).map_values(|x: Seq<char>| debug_quoted(x));
    let mut parts: Vec<Vec<char>> = Vec::new();
    let mut i: usize = 0;
    while i < v.len()
        invariant
            i <= v.len(),
            q == views(v@).map_values(|x: Seq<char>| debug_quoted(x)),
            vviews(parts@) == q.take(i as int),
        decreases v.len() - i,
    {
        let d = debug_str(v[i].as_str());
        let dc = chars_of(d.as_str());
        let ghost before = parts@;
        parts.push(dc);
        assert(vviews(parts@) =~= vviews(before).push(dc@));
        assert(q.take(i + 1) =~= q.take(i as int).push(q[i as int]));
        i = i + 1;
    }
    assert(q.take(v.len() as int) =~= q);
    let joined = crate::attempt::join_first(&parts, parts.len(), ", ");
    assert(first_n(vviews(parts@), parts.len() as nat) =~= vviews(parts@));
    let mut out = chars_of("[");
    append_chars(&mut out, &joined);
    let tail = chars_of("]");
    append_chars(&mut out, &tail);
    string_of(&out)
}

/// The reading of a specialist of `domain` that recognised nothing.
pub open spec fn negative_reading(domain: Seq<char>) -> Seq<char> {
    "no recognised "@ + lowercase(domain) + " structure in this goal"@
}

/// The one-line reading of a goal by a specialist of `domain` that found
/// the witnesses `w`.
pub open spec fn reading_text(domain: Seq<char>, w: Seq<Seq<char>>) -> Seq<char> {
    if w.len() == 0 {
        negative_reading(domain)
    } else {
        domain + " structure detected via "@ + debug_strings(w)
    }
}

proof fn lemma_first_match_some(toks: Seq<Seq<char>>, k: Seq<char>)
    ensures
        (first_match(toks, k) is Some) == keyword_hit(toks, k),
        first_match(toks, k) is Some ==> token_matches(first_match(toks, k).unwrap(), k),
    decreases toks.len(),
{
    if toks.len() > 0 {
        let rest = toks.drop_first();
        lemma_first_match_some(rest, k);
        if token_matches(toks[0], k) {
            assert(keyword_hit(toks, k)) by {
                assert(token_matches(toks[0], k));
            }
        } else {
            if keyword_hit(rest, k) {
                let i = choose|i: int| 0 <= i < rest.len() && token_matches(#[trigger] rest[i], k);
                assert(toks[i + 1] == rest[i]);
            }
            if keyword_hit(toks, k) {
                let i = choose|i: int| 0 <= i < toks.len() && token_matches(#[trigger] toks[i], k);
                assert(i > 0);
                assert(rest[i - 1] == toks[i]);
            }
        }
    }
}

proof fn lemma_hit_count_bound(kws: Seq<Seq<char>>, toks: Seq<Seq<char>>)
    ensures
        hit_count(kws, toks) <= kws.len(),
    decreases kws.len(),
{
    if kws.len() > 0 {
        lemma_hit_count_bound(kws.drop_last(), toks);
    }
}

/// Law: a specialist's relevance lies in `[0, 1]`: no more keywords hit
/// the goal than the specialist has.
pub proof fn relevance_at_most_one(kws: Seq<Seq<char>>, toks: Seq<Seq<char>>)
    ensures
        hit_count(kws, toks) <= kws.len(),
{
    lemma_hit_count_bound(kws, toks);
}

proof fn lemma_witnesses_count_hits(kws: Seq<Seq<char>>, toks: Seq<Seq<char>>)
    ensures
        all_witnesses(kws, toks).len() == hit_count(kws, toks),
    decreases kws.len(),
{
    if kws.len() > 0 {
        lemma_witnesses_count_hits(kws.drop_last(), toks);
        lemma_first_match_some(toks, kws.last());
    }
}

/// Law: the reading and the relevance use the same matching, so they
/// agree: a reading cites one witness per keyword hit, up to five, and
/// cites some witness exactly when the relevance is above zero.
pub proof fn reading_agrees_with_relevance(kws: Seq<Seq<char>>, toks: Seq<Seq<char>>)
    ensures
        witness_list(kws, toks).len() == if hit_count(kws, toks) < 5 {
            hit_count(kws, toks)
        } else {
            5
        },
        (witness_list(kws, toks).len() > 0) == (hit_count(kws, toks) > 0),
{
    lemma_witnesses_count_hits(kws, toks);
}

/// Law: a specialist reads a goal as holding no structure of its domain
/// exactly when its relevance to the goal is zero.
pub proof fn reading_is_negative_iff_no_hits(
    domain: Seq<char>,
    kws: Seq<Seq<char>>,
    toks: Seq<Seq<char>>,
)
    ensures
        (reading_text(domain, witness_list(kws, toks)) == negative_reading(domain)) == (hit_count(
            kws,
            toks,
        ) == 0),
{
    reading_agrees_with_relevance(kws, toks);
    let w = witness_list(kws, toks);
    if w.len() > 0 {
        reveal_strlit("]");
        reveal_strlit(" structure in this goal");
        let a = reading_text(domain, w);
        let b = negative_reading(domain);
        assert(a.last() == ']');
        assert(b.last() == 'l');
    }
}

/// Whether `t` matches the keyword `k`.
fn matches_keyword(t: &Vec<char>, k: &Vec<char>) -> (r: bool)
    ensures
        r == token_matches(t@, k@),
{
    let mut ku: Vec<char> = Vec::new();
    append_chars(&mut ku, k);
    ku.push('_');
    assert(ku@ =~= k@.push('_'));
    chars_eq(t, k) || starts_with(t, &ku) || contains(t, k)
}

/// The index of the first token that matches `k`.
fn first_matching(toks: &Vec<Vec<char>>, k: &Vec<char>) -> (r: Option<usize>)
    ensures
        match r {
            Some(i) => i < toks@.len() && first_match(vviews(toks@), k@) == Some(toks@[i as int]@),
            None => first_match(vviews(toks@), k@) is None,
        },
{
    let ghost tv = vviews(toks@);
    let mut i: usize = 0;
    assert(tv.skip(0) =~= tv);
    while i < toks.len()
        invariant
            i <= toks.len(),
            tv == vviews(toks@),
            first_match(tv, k@) == first_match(tv.skip(i as int), k@),
        decreases toks.len() - i,
    {
        let ghost rest = tv.skip(i as int);
        assert(rest[0] == toks@[i as int]@);
        if matches_keyword(&toks[i], k) {
            return Some(i);
        }
        assert(rest.drop_first() =~= tv.skip(i + 1));
        i = i + 1;
    }
    None
}

/// The number of keywords of `kws` that some token of `toks` matches.
fn count_hits(kws: &Vec<Vec<char>>, toks: &Vec<Vec<char>>) -> (r: usize)
    ensures
        r == hit_count(vviews(kws@), vviews(toks@)),
{
    let ghost kv = vviews(kws@);
    let ghost tv = vviews(toks@);
    let mut n: usize = 0;
    let mut i: usize = 0;
    while i < kws.len()
        invariant
            i <= kws.len(),
            kv == vviews(kws@),
            tv == vviews(toks@),
            n == hit_count(kv.take(i as int), tv),
            n <= i,
        decreases kws.len() - i,
    {
        proof {
            assert(kv.take(i + 1).drop_last() =~= kv.take(i as int));
            assert(kv.take(i + 1).last() == kws@[i as int]@);
            lemma_first_match_some(tv, kws@[i as int]@);
        }
        if first_matching(toks, &kws[i]).is_some() {
            n = n + 1;
        }
        i = i + 1;
    }
    assert(kv.take(kws.len() as int) =~= kv);
    n
}

/// The keywords, lower-cased.
fn lower_all(kws: &Vec<&str>) -> (r: Vec<Vec<char>>)
    ensures
        vviews(r@) == lowered(str_views(kws@)),
{
    let ghost kv = str_views(kws@);
    let mut out: Vec<Vec<char>> = Vec::new();
    let mut i: usize = 0;
    while i < kws.len()
        invariant
            i <= kws.len(),
            kv == str_views(kws@),
            vviews(out@) == lowered(kv).take(i as int),
        decreases kws.len() - i,
    {
        let c = chars_of(kws[i]);
        let l = to_lowercase(&c);
        let ghost before = out@;
        out.push(l);
        assert(vviews(out@) =~= vviews(before).push(l@));
        assert(lowered(kv).take(i + 1) =~= lowered(kv).take(i as int).push(lowercase(kv[i as int])));
        i = i + 1;
    }
    assert(lowered(kv).take(kws.len() as int) =~= lowered(kv));
    out
}

/// The witnesses for the keywords `kws` among the goal's tokens.
fn witnesses(kws: &Vec<Vec<char>>, toks: &Vec<Vec<char>>, goal: &Goal) -> (r: Vec<String>)
    requires
        vviews(toks@) == goal.token_seq(),
    ensures
        views(r@) == witness_list(vviews(kws@), goal.token_seq()),
{
    let ghost kv = vviews(kws@);
    let ghost tv = vviews(toks@);
    let mut out: Vec<String> = Vec::new();
    let mut i: usize = 0;
    while i < kws.len()
        invariant
            i <= kws.len(),
            kv == vviews(kws@),
            tv == vviews(toks@),
            tv == goal.token_seq(),
            views(out@) == first_n(all_witnesses(kv.take(i as int), tv), 5),
        decreases kws.len() - i,
    {
        let ghost prev = all_witnesses(kv.take(i as int), tv);
        proof {
            assert(kv.take(i + 1).drop_last() =~= kv.take(i as int));
            assert(kv.take(i + 1).last() == kws@[i as int]@);
        }
        if out.len() < 5 {
            match first_matching(toks, &kws[i]) {
                Some(j) => {
                    let ghost before = out@;
                    assert(goal.tokens@[j as int]@ == tv[j as int]);
                    out.push(goal.tokens[j].clone());
                    assert(views(out@) =~= views(before).push(tv[j as int]));
                    assert(first_n(prev.push(tv[j as int]), 5) =~= prev.push(tv[j as int]));
                },
                None => {},
            }
        } else {
            proof {
                match first_match(tv, kws@[i as int]@) {
                    Some(t) => {
                        assert(first_n(prev.push(t), 5) =~= first_n(prev, 5));
                    },
                    None => {},
                }
            }
        }
        i = i + 1;
    }
    assert(kv.take(kws.len() as int) =~= kv);
    out
}

/// The one-line reading given the domain, the domain in lower case, and,
/// where witnesses were found, their `Debug` listing.
pub fn reading_sentence(domain: &str, lower_domain: &str, listing: Option<&str>) -> (r: String)
    ensures
        r@ == match listing {
            None => "no recognised "@ + lower_domain@ + " structure in this goal"@,
            Some(l) => domain@ + " structure detected via "@ + l@,
        },
{
    match listing {
        None => {
            let mut out = chars_of("no recognised ");
            let d = chars_of(lower_domain);
            append_chars(&mut out, &d);
            let tail = chars_of(" structure in this goal");
            append_chars(&mut out, &tail);
            string_of(&out)
        },
        Some(l) => {
            let mut out = chars_of(domain);
            let mid = chars_of(" structure detected via ");
            append_chars(&mut out, &mid);
            let lv = chars_of(l);
            append_chars(&mut out, &lv);
            string_of(&out)
        },
    }
}

// ---------------------------------------------------------------------
// Relevance
// ---------------------------------------------------------------------

/// A specialist's relevance to a goal: `hits` of its `keywords` keywords
/// are hit by the goal's tokens. Its value is `hits / keywords`, or zero
/// when the specialist has no keywords.
pub struct Relevance {
    pub hits: usize,
    pub keywords: usize,
}

/// The relevance entry of the specialist at `index`: the value as a
/// fraction with a positive denominator.
pub open spec fn relevance_entry(index: int, r: Relevance) -> Entry {
    (index, r.hits as nat, if r.keywords == 0 {
        1nat
    } else {
        r.keywords as nat
    })
}

/// The relevance reaches the swarm threshold.
pub open spec fn engages(r: Relevance) -> bool {
    r.keywords > 0 && r.hits * SWARM_RELEVANCE_DIVISOR >= r.keywords
}

impl Relevance {
    /// Whether the relevance is above zero.
    pub fn is_positive(&self) -> (r: bool)
        ensures
            r == (self.keywords > 0 && self.hits > 0),
    {
        self.keywords > 0 && self.hits > 0
    }

    /// Whether the relevance reaches the swarm threshold.
    pub fn engages(&self) -> (r: bool)
        ensures
            r == engages(*self),
    {
        self.keywords > 0 && (self.hits as u128) * (SWARM_RELEVANCE_DIVISOR as u128) >= self.keywords as u128
    }

    /// Whether this relevance is at least `other`.
    pub fn at_least(&self, other: &Relevance) -> (r: bool)
        ensures
            r == !crate::ranking::ranks_above(relevance_entry(0, *other), relevance_entry(0, *self)),
    {
        let da: u128 = if self.keywords == 0 {
            1
        } else {
            self.keywords as u128
        };
        let db: u128 = if other.keywords == 0 {
            1
        } else {
            other.keywords as u128
        };
        proof {
            crate::ranking::lemma_product_fits(self.hits, other.keywords);
            crate::ranking::lemma_product_fits(other.hits, self.keywords);
        }
        (self.hits as u128) * db >= (other.hits as u128) * da
    }
}

// ---------------------------------------------------------------------
// Domain filtering and homes
// ---------------------------------------------------------------------

/// The lemma lies in the domain of the (lower-case) keywords: its tokens
/// hit at least `MIN_DOMAIN_HITS` of them.
pub open spec fn in_domain(kws: Seq<Seq<char>>, l: IndexedLemma) -> bool {
    hit_count(kws, l.token_seq()) >= MIN_DOMAIN_HITS
}

/// The lemmas that lie in the domain of the keywords, in corpus order.
pub open spec fn domain_lemmas(kws: Seq<Seq<char>>, ls: Seq<IndexedLemma>) -> Seq<IndexedLemma>
    decreases ls.len(),
{
    if ls.len() == 0 {
        seq![]
    } else {
        let prev = domain_lemmas(kws, ls.drop_last());
        if in_domain(kws, ls.last()) {
            prev.push(ls.last())
        } else {
            prev
        }
    }
}

/// `a` holds copies of the lemmas of `b`, in the same order.
pub open spec fn copies(a: Seq<IndexedLemma>, b: Seq<IndexedLemma>) -> bool {
    a.len() == b.len() && forall|i: int| 0 <= i < a.len() ==> same_lemma(#[trigger] a[i], b[i])
}

/// `r` holds the top `k` homes of the goal tokens `goal` among `lemmas`:
/// the lemmas sharing a token with the goal, by decreasing Jaccard
/// similarity, ties in the order of `lemmas`.
pub open spec fn ranked_homes(r: Seq<Home>, goal: Set<Seq<char>>, lemmas: Seq<IndexedLemma>, k: nat) -> bool {
    let order = rank_order(candidates(goal, lemmas));
    &&& r.len() == if k < order.len() {
        k as int
    } else {
        order.len() as int
    }
    &&& forall|m: int|
        0 <= m < r.len() ==> 0 <= (#[trigger] order[m]).0 < lemmas.len() && r[m].describes(
            lemmas[order[m].0],
            goal,
        )
}

proof fn lemma_domain_lemmas_from(kws: Seq<Seq<char>>, ls: Seq<IndexedLemma>)
    ensures
        forall|i: int|
            0 <= i < domain_lemmas(kws, ls).len() ==> exists|j: int|
                0 <= j < ls.len() && ls[j] == #[trigger] domain_lemmas(kws, ls)[i],
    decreases ls.len(),
{
    if ls.len() > 0 {
        let d = ls.drop_last();
        lemma_domain_lemmas_from(kws, d);
        assert forall|i: int| 0 <= i < domain_lemmas(kws, ls).len() implies exists|j: int|
            0 <= j < ls.len() && ls[j] == #[trigger] domain_lemmas(kws, ls)[i] by {
            if i < domain_lemmas(kws, d).len() {
                let j = choose|j: int| 0 <= j < d.len() && d[j] == domain_lemmas(kws, d)[i];
                assert(ls[j] == d[j]);
            } else {
                assert(ls[ls.len() - 1] == domain_lemmas(kws, ls)[i]);
            }
        }
    }
}

proof fn lemma_candidates_copies(goal: Set<Seq<char>>, a: Seq<IndexedLemma>, b: Seq<IndexedLemma>)
    requires
        copies(a, b),
    ensures
        candidates(goal, a) == candidates(goal, b),
    decreases a.len(),
{
    if a.len() > 0 {
        assert(copies(a.drop_last(), b.drop_last())) by {
            assert forall|i: int| 0 <= i < a.len() - 1 implies same_lemma(
                #[trigger] a.drop_last()[i],
                b.drop_last()[i],
            ) by {
                assert(same_lemma(a[i], b[i]));
            }
        }
        lemma_candidates_copies(goal, a.drop_last(), b.drop_last());
        assert(same_lemma(a[a.len() - 1], b[b.len() - 1]));
        assert(a.last().token_set() == b.last().token_set());
    }
}

/// The lemmas of `corpus` in the domain of the lower-case keywords `kws`.
fn domain_corpus(kws: &Vec<Vec<char>>, corpus: &Corpus) -> (r: Corpus)
    ensures
        copies(r.lemmas@, domain_lemmas(vviews(kws@), corpus.lemmas@)),
{
    let ghost kv = vviews(kws@);
    let ghost ls = corpus.lemmas@;
    let mut out: Vec<IndexedLemma> = Vec::new();
    let mut i: usize = 0;
    while i < corpus.lemmas.len()
        invariant
            i <= corpus.lemmas.len(),
            kv == vviews(kws@),
            ls == corpus.lemmas@,
            copies(out@, domain_lemmas(kv, ls.take(i as int))),
        decreases corpus.lemmas.len() - i,
    {
        let lemma = &corpus.lemmas[i];
        let toks = chars_of_all(&lemma.tokens);
        let h = count_hits(kws, &toks);
        proof {
            assert(ls.take(i + 1).drop_last() =~= ls.take(i as int));
            assert(ls.take(i + 1).last() == ls[i as int]);
        }
        if h >= MIN_DOMAIN_HITS {
            let ghost before = out@;
            out.push(lemma.clone());
            proof {
                let d = domain_lemmas(kv, ls.take(i + 1));
                assert forall|m: int| 0 <= m < out@.len() implies same_lemma(#[trigger] out@[m], d[m]) by {
                    if m < before.len() {
                        assert(out@[m] == before[m]);
                    }
                }
            }
        }
        i = i + 1;
    }
    assert(ls.take(corpus.lemmas.len() as int) =~= ls);
    Corpus { lemmas: out }
}

/// The top `k` homes of the goal among the lemmas of `corpus` in the domain
/// of the lower-case keywords `kws`.
fn domain_homes(kws: &Vec<Vec<char>>, goal: &Goal, corpus: &Corpus, k: usize) -> (r: Vec<Home>)
    requires
        goal.well_formed(),
        corpus.well_formed(),
        counts_fit(*goal, *corpus),
    ensures
        ranked_homes(r@, goal.token_set(), domain_lemmas(vviews(kws@), corpus.lemmas@), k as nat),
{
    let filtered = domain_corpus(kws, corpus);
    let ghost kept = domain_lemmas(vviews(kws@), corpus.lemmas@);
    proof {
        lemma_domain_lemmas_from(vviews(kws@), corpus.lemmas@);
        assert forall|i: int| 0 <= i < filtered.lemmas@.len() implies (#[trigger] filtered.lemmas@[i]).well_formed()
            && goal.tokens@.len() + filtered.lemmas@[i].tokens@.len() <= usize::MAX by {
            assert(same_lemma(filtered.lemmas@[i], kept[i]));
            let j = choose|j: int| 0 <= j < corpus.lemmas@.len() && corpus.lemmas@[j] == kept[i];
            assert(corpus.lemmas@[j].well_formed());
            assert(goal.tokens@.len() + corpus.lemmas@[j].tokens@.len() <= usize::MAX);
        }
        lemma_candidates_copies(goal.token_set(), filtered.lemmas@, kept);
    }
    let homes = rank(goal, &filtered, k);
    proof {
        let order = ranking_of(*goal, filtered);
        assert(order == rank_order(candidates(goal.token_set(), kept)));
        assert forall|m: int| 0 <= m < homes@.len() implies 0 <= (#[trigger] order[m]).0 < kept.len()
            && homes@[m].describes(kept[order[m].0], goal.token_set()) by {
            let x = order[m].0;
            assert(homes@[m].describes(filtered.lemmas@[x], goal.token_set()));
            assert(same_lemma(filtered.lemmas@[x], kept[x]));
        }
    }
    homes
}

// ---------------------------------------------------------------------
// Readings and the specialist trait
// ---------------------------------------------------------------------

/// One specialist's reading of a goal: its relevance, a one-line reading,
/// and the ranked candidate homes from its domain of the corpus.
pub struct Reading {
    /// The specialist's name, such as `Algebraist`.
    pub specialist: String,
    /// The specialist's domain, such as `Algebra`.
    pub domain: String,
    /// The specialist's relevance to the goal.
    pub relevance: Relevance,
    /// How the specialist reads the goal.
    pub reading: String,
    /// Ranked candidate homes; empty when the relevance is below the swarm
    /// threshold.
    pub homes: Vec<Home>,
}

impl Reading {
    /// This is the reading of `goal` against `corpus`, with at most `top`
    /// homes, by the specialist with the given name, domain and keywords.
    pub open spec fn reads(
        &self,
        name: Seq<char>,
        domain: Seq<char>,
        kws: Seq<Seq<char>>,
        goal: Goal,
        corpus: Corpus,
        top: nat,
    ) -> bool {
        let lk = lowered(kws);
        &&& self.specialist@ == name
        &&& self.domain@ == domain
        &&& self.relevance.hits == hit_count(lk, goal.token_seq())
        &&& self.relevance.keywords == kws.len()
        &&& self.reading@ == reading_text(domain, witness_list(lk, goal.token_seq()))
        &&& if engages(self.relevance) {
            ranked_homes(self.homes@, goal.token_set(), domain_lemmas(lk, corpus.lemmas@), top)
        } else {
            self.homes@.len() == 0
        }
    }
}

/// The content of a tactic: name, script, description.
pub open spec fn tactic_views(ts: Seq<TacticTemplate>) -> Seq<(Seq<char>, Seq<char>, Seq<char>)> {
    ts.map_values(|t: TacticTemplate| (t.name@, t.script@, t.description@))
}

/// A domain expert. Its keywords decide its relevance to a goal, how it
/// reads the goal, and which corpus lemmas lie in its domain.
pub trait Specialist {
    /// The name.
    spec fn spec_name(&self) -> Seq<char>;

    /// The domain.
    spec fn spec_domain(&self) -> Seq<char>;

    /// The domain keywords.
    spec fn spec_keywords(&self) -> Seq<Seq<char>>;

    /// The tactics of the playbook, in order.
    spec fn spec_tactics(&self) -> Seq<(Seq<char>, Seq<char>, Seq<char>)>;

    fn name(&self) -> (r: &str)
        ensures
            r@ == self.spec_name(),
    ;

    fn domain(&self) -> (r: &str)
        ensures
            r@ == self.spec_domain(),
    ;

    /// Domain keywords, used both for relevance and for corpus filtering.
    fn keywords(&self) -> (r: Vec<&str>)
        ensures
            str_views(r@) == self.spec_keywords(),
    ;

    /// The tactics the specialist tries when attempting a proof.
    fn playbook(&self) -> (r: Playbook)
        ensures
            r.specialist@ == self.spec_name(),
            tactic_views(r.tactics@) == self.spec_tactics(),
    ;

    /// How many of the keywords (in lower case) some goal token matches:
    /// equals, starts with the keyword and `_`, or contains it.
    fn relevance(&self, goal: &Goal) -> (r: Relevance)
        ensures
            r.hits == hit_count(lowered(self.spec_keywords()), goal.token_seq()),
            r.keywords == self.spec_keywords().len(),
    {
        let kws = self.keywords();
        let lk = lower_all(&kws);
        let toks = chars_of_all(&goal.tokens);
        let hits = count_hits(&lk, &toks);
        Relevance { hits, keywords: kws.len() }
    }

    /// One-line reading of the goal in this specialist's vocabulary, citing
    /// for up to five keywords the first token that matches each.
    fn read(&self, goal: &Goal) -> (r: String)
        ensures
            r@ == reading_text(
                self.spec_domain(),
                witness_list(lowered(self.spec_keywords()), goal.token_seq()),
            ),
    {
        let kws = self.keywords();
        let lk = lower_all(&kws);
        let toks = chars_of_all(&goal.tokens);
        let w = witnesses(&lk, &toks, goal);
        let domain = self.domain();
        if w.len() == 0 {
            let d = chars_of(domain);
            let ld = to_lowercase(&d);
            let lds = string_of(&ld);
            reading_sentence(domain, lds.as_str(), None)
        } else {
            let listing = debug_list(&w);
            reading_sentence(domain, "", Some(listing.as_str()))
        }
    }

    /// The corpus restricted to the lemmas in this specialist's domain.
    fn filter(&self, corpus: &Corpus) -> (r: Corpus)
        ensures
            copies(r.lemmas@, domain_lemmas(lowered(self.spec_keywords()), corpus.lemmas@)),
    {
        let kws = self.keywords();
        let lk = lower_all(&kws);
        domain_corpus(&lk, corpus)
    }

    /// The top `top` candidate homes from this specialist's domain.
    fn locate(&self, goal: &Goal, corpus: &Corpus, top: usize) -> (r: Vec<Home>)
        requires
            goal.well_formed(),
            corpus.well_formed(),
            counts_fit(*goal, *corpus),
        ensures
            ranked_homes(
                r@,
                goal.token_set(),
                domain_lemmas(lowered(self.spec_keywords()), corpus.lemmas@),
                top as nat,
            ),
    {
        let kws = self.keywords();
        let lk = lower_all(&kws);
        domain_homes(&lk, goal, corpus, top)
    }

    /// The full reading: relevance, reading, and homes when the relevance
    /// reaches the swarm threshold.
    fn read_goal(&self, goal: &Goal, corpus: &Corpus, top: usize) -> (r: Reading)
        requires
            goal.well_formed(),
            corpus.well_formed(),
            counts_fit(*goal, *corpus),
        ensures
            r.reads(
                self.spec_name(),
                self.spec_domain(),
                self.spec_keywords(),
                *goal,
                *corpus,
                top as nat,
            ),
    {
        let relevance = self.relevance(goal);
        let reading = self.read(goal);
        let homes = if relevance.engages() {
            self.locate(goal, corpus, top)
        } else {
            Vec::new()
        };
        Reading {
            specialist: string_from(self.name()),
            domain: string_from(self.domain()),
            relevance,
            reading,
            homes,
        }
    }
}

// ---------------------------------------------------------------------
// Seed specialists
// ---------------------------------------------------------------------

/// A tactic with the given name, script and description.
fn tactic(name: &str, script: &str, description: &str) -> (r: TacticTemplate)
    ensures
        r.name@ == name@,
        r.script@ == script@,
        r.description@ == description@,
{
    TacticTemplate {
        name: string_from(name),
        script: string_from(script),
        description: string_from(description),
    }
}

/// The domain keywords of `Algebraist`.
pub open spec fn algebraist_keywords() -> Seq<Seq<char>> {
    seq![
        "group"@,
        "ring"@,
        "field"@,
        "semiring"@,
        "monoid"@,
        "semigroup"@,
        "ideal"@,
        "module"@,
        "vector"@,
        "homomorphism"@,
        "isomorphism"@,
        "kernel"@,
        "image"@,
        "quotient"@,
        "polynomial"@,
        "matrix"@,
        "abelian"@,
        "commutative"@,
        "associative"@,
        "distributive"@,
        "identity"@,
        "inverse"@,
        "comm_monoid"@,
        "comm_semiring"@,
        "tropical"@,
        "trop"@,
        "tropm"@,
        "plus"@,
        "mult"@,
        "add"@,
        "mul"@,
        "zero"@,
        "one"@,
        "neginf"@,
        "fin"@,
    ]
}

/// The playbook of `Algebraist`: name, script and description of each tactic.
pub open spec fn algebraist_tactics() -> Seq<(Seq<char>, Seq<char>, Seq<char>)> {
    seq![
        ("simp"@, "by simp"@, "Isabelle simplifier — closes equational arithmetic goals."@),
        ("auto"@, "by auto"@, "Combined simp+blast+intro — broader than simp alone."@),
        ("algebra-simps"@, "by (simp add: algebra_simps)"@, "Simplifier with algebra rewriting rules."@),
        ("ring-arith"@, "by (simp add: field_simps)"@, "Field/ring arithmetic simplification."@),
        ("ac-simps"@, "by (simp add: ac_simps)"@, "Associativity + commutativity rewriting — replaces looping metis chains on +/* monoids."@),
        ("semiring-distrib"@, "by (simp add: distrib_left distrib_right)"@, "Both-sided distributivity for semiring goals."@),
        ("metis-empty"@, "by metis"@, "Equational reasoning without hints — succeeds where simp loses orientation."@),
        ("linarith-after-simp"@, "by (simp; linarith)"@, "Simplifier reduction followed by linear arithmetic — Isabelle 2025-1 omega→linarith drift fallback."@),
        ("comm-monoid-add"@, "by (simp add: ac_simps add.commute)"@, "Commutative-monoid rewriting (add.commute is the post-rebrand name)."@),
        ("transfer-then-simp"@, "by (transfer, simp add: algebra_simps)"@, "Transfer to representation type then simplify — useful for tropical/quotient goals."@),
    ]
}

/// The seed specialist for the domain `Algebra`.
pub struct Algebraist;

impl Specialist for Algebraist {
    open spec fn spec_name(&self) -> Seq<char> {
        "Algebraist"@
    }

    open spec fn spec_domain(&self) -> Seq<char> {
        "Algebra"@
    }

    open spec fn spec_keywords(&self) -> Seq<Seq<char>> {
        algebraist_keywords()
    }

    open spec fn spec_tactics(&self) -> Seq<(Seq<char>, Seq<char>, Seq<char>)> {
        algebraist_tactics()
    }

    fn name(&self) -> (r: &str) {
        "Algebraist"
    }

    fn domain(&self) -> (r: &str) {
        "Algebra"
    }

    fn keywords(&self) -> (r: Vec<&str>) {
        let mut v: Vec<&str> = Vec::new();
        v.push("group");
        v.push("ring");
        v.push("field");
        v.push("semiring");
        v.push("monoid");
        v.push("semigroup");
        v.push("ideal");
        v.push("module");
        v.push("vector");
        v.push("homomorphism");
        v.push("isomorphism");
        v.push("kernel");
        v.push("image");
        v.push("quotient");
        v.push("polynomial");
        v.push("matrix");
        v.push("abelian");
        v.push("commutative");
        v.push("associative");
        v.push("distributive");
        v.push("identity");
        v.push("inverse");
        v.push("comm_monoid");
        v.push("comm_semiring");
        v.push("tropical");
        v.push("trop");
        v.push("tropm");
        v.push("plus");
        v.push("mult");
        v.push("add");
        v.push("mul");
        v.push("zero");
        v.push("one");
        v.push("neginf");
        v.push("fin");
        assert(str_views(v@) =~= algebraist_keywords());
        v
    }

    fn playbook(&self) -> (r: Playbook) {
        let mut t: Vec<TacticTemplate> = Vec::new();
        t.push(tactic("simp", "by simp", "Isabelle simplifier — closes equational arithmetic goals."));
        t.push(tactic("auto", "by auto", "Combined simp+blast+intro — broader than simp alone."));
        t.push(tactic("algebra-simps", "by (simp add: algebra_simps)", "Simplifier with algebra rewriting rules."));
        t.push(tactic("ring-arith", "by (simp add: field_simps)", "Field/ring arithmetic simplification."));
        t.push(tactic("ac-simps", "by (simp add: ac_simps)", "Associativity + commutativity rewriting — replaces looping metis chains on +/* monoids."));
        t.push(tactic("semiring-distrib", "by (simp add: distrib_left distrib_right)", "Both-sided distributivity for semiring goals."));
        t.push(tactic("metis-empty", "by metis", "Equational reasoning without hints — succeeds where simp loses orientation."));
        t.push(tactic("linarith-after-simp", "by (simp; linarith)", "Simplifier reduction followed by linear arithmetic — Isabelle 2025-1 omega→linarith drift fallback."));
        t.push(tactic("comm-monoid-add", "by (simp add: ac_simps add.commute)", "Commutative-monoid rewriting (add.commute is the post-rebrand name)."));
        t.push(tactic("transfer-then-simp", "by (transfer, simp add: algebra_simps)", "Transfer to representation type then simplify — useful for tropical/quotient goals."));
        assert(tactic_views(t@) =~= algebraist_tactics());
        Playbook { specialist: string_from("Algebraist"), tactics: t }
    }
}

/// The domain keywords of `OrderTheorist`.
pub open spec fn order_theorist_keywords() -> Seq<Seq<char>> {
    seq![
        "le"@,
        "leq"@,
        "lt"@,
        "ge"@,
        "geq"@,
        "gt"@,
        "subseteq"@,
        "subset"@,
        "linorder"@,
        "preorder"@,
        "order_bot"@,
        "order_top"@,
        "lattice"@,
        "complete_lattice"@,
        "sup"@,
        "inf"@,
        "monotone"@,
        "mono"@,
        "antitone"@,
        "cofinal"@,
        "fixpoint"@,
        "lfp"@,
        "gfp"@,
        "least"@,
        "greatest"@,
        "well_founded"@,
        "well_order"@,
        "chain"@,
        "directed"@,
        "max"@,
        "min"@,
        "supremum"@,
        "infimum"@,
        "absorb"@,
        "idempotent"@,
    ]
}

/// The playbook of `OrderTheorist`: name, script and description of each tactic.
pub open spec fn order_theorist_tactics() -> Seq<(Seq<char>, Seq<char>, Seq<char>)> {
    seq![
        ("simp"@, "by simp"@, "Simplifier on basic order facts."@),
        ("order-trans"@, "by (rule order_trans)"@, "Transitivity of ≤ (Isabelle 2025-1 canonical name; le_trans was deprecated)."@),
        ("order-auto"@, "by (auto intro: order_trans)"@, "Auto with transitivity hint."@),
        ("subset-decompose"@, "by (auto simp: subset_iff)"@, "Element-wise subset reasoning."@),
        ("linarith"@, "by linarith"@, "Linear arithmetic decision procedure — replaces omega in Isabelle 2025-1."@),
        ("sum-mono"@, "by (rule sum_mono) auto"@, "Pointwise monotonicity of sums (Kleene 237 pattern)."@),
        ("monoI-then-auto"@, "by (intro monoI) auto"@, "Introduce monotonicity then resolve elementwise."@),
        ("force"@, "by force"@, "Stronger than blast for goals needing list/sequence decomposition (Kleene 403 pattern: [v] vs v#[])."@),
        ("meson-order"@, "by (meson order_trans)"@, "Meson with transitive chain — succeeds on multi-hop ≤ goals where blast loops."@),
        ("le-supI"@, "by (auto intro: le_supI1 le_supI2)"@, "Sup introduction on either side — for goals against a join."@),
        ("subset-trans"@, "by (meson subset_trans)"@, "Subset transitivity chain — replaces blast loops on nested ⊆ obligations."@),
        ("order-trans-OF"@, "by (rule order_trans[OF assms]) simp"@, "Apply transitivity with the assumption pre-substituted — often the missing instantiation."@),
    ]
}

/// The seed specialist for the domain `Order Theory`.
pub struct OrderTheorist;

impl Specialist for OrderTheorist {
    open spec fn spec_name(&self) -> Seq<char> {
        "OrderTheorist"@
    }

    open spec fn spec_domain(&self) -> Seq<char> {
        "Order Theory"@
    }

    open spec fn spec_keywords(&self) -> Seq<Seq<char>> {
        order_theorist_keywords()
    }

    open spec fn spec_tactics(&self) -> Seq<(Seq<char>, Seq<char>, Seq<char>)> {
        order_theorist_tactics()
    }

    fn name(&self) -> (r: &str) {
        "OrderTheorist"
    }

    fn domain(&self) -> (r: &str) {
        "Order Theory"
    }

    fn keywords(&self) -> (r: Vec<&str>) {
        let mut v: Vec<&str> = Vec::new();
        v.push("le");
        v.push("leq");
        v.push("lt");
        v.push("ge");
        v.push("geq");
        v.push("gt");
        v.push("subseteq");
        v.push("subset");
        v.push("linorder");
        v.push("preorder");
        v.push("order_bot");
        v.push("order_top");
        v.push("lattice");
        v.push("complete_lattice");
        v.push("sup");
        v.push("inf");
        v.push("monotone");
        v.push("mono");
        v.push("antitone");
        v.push("cofinal");
        v.push("fixpoint");
        v.push("lfp");
        v.push("gfp");
        v.push("least");
        v.push("greatest");
        v.push("well_founded");
        v.push("well_order");
        v.push("chain");
        v.push("directed");
        v.push("max");
        v.push("min");
        v.push("supremum");
        v.push("infimum");
        v.push("absorb");
        v.push("idempotent");
        assert(str_views(v@) =~= order_theorist_keywords());
        v
    }

    fn playbook(&self) -> (r: Playbook) {
        let mut t: Vec<TacticTemplate> = Vec::new();
        t.push(tactic("simp", "by simp", "Simplifier on basic order facts."));
        t.push(tactic("order-trans", "by (rule order_trans)", "Transitivity of ≤ (Isabelle 2025-1 canonical name; le_trans was deprecated)."));
        t.push(tactic("order-auto", "by (auto intro: order_trans)", "Auto with transitivity hint."));
        t.push(tactic("subset-decompose", "by (auto simp: subset_iff)", "Element-wise subset reasoning."));
        t.push(tactic("linarith", "by linarith", "Linear arithmetic decision procedure — replaces omega in Isabelle 2025-1."));
        t.push(tactic("sum-mono", "by (rule sum_mono) auto", "Pointwise monotonicity of sums (Kleene 237 pattern)."));
        t.push(tactic("monoI-then-auto", "by (intro monoI) auto", "Introduce monotonicity then resolve elementwise."));
        t.push(tactic("force", "by force", "Stronger than blast for goals needing list/sequence decomposition (Kleene 403 pattern: [v] vs v#[])."));
        t.push(tactic("meson-order", "by (meson order_trans)", "Meson with transitive chain — succeeds on multi-hop ≤ goals where blast loops."));
        t.push(tactic("le-supI", "by (auto intro: le_supI1 le_supI2)", "Sup introduction on either side — for goals against a join."));
        t.push(tactic("subset-trans", "by (meson subset_trans)", "Subset transitivity chain — replaces blast loops on nested ⊆ obligations."));
        t.push(tactic("order-trans-OF", "by (rule order_trans[OF assms]) simp", "Apply transitivity with the assumption pre-substituted — often the missing instantiation."));
        assert(tactic_views(t@) =~= order_theorist_tactics());
        Playbook { specialist: string_from("OrderTheorist"), tactics: t }
    }
}

/// The domain keywords of `Combinatorialist`.
pub open spec fn combinatorialist_keywords() -> Seq<Seq<char>> {
    seq![
        "finite"@,
        "card"@,
        "sum"@,
        "prod"@,
        "card_eq"@,
        "set"@,
        "list"@,
        "seq"@,
        "permutation"@,
        "perm"@,
        "walk"@,
        "walks"@,
        "path"@,
        "path_weight"@,
        "cycle"@,
        "graph"@,
        "vertex"@,
        "edge"@,
        "tree"@,
        "forest"@,
        "n_choose_k"@,
        "binomial"@,
        "factorial"@,
        "induction"@,
        "induct"@,
        "base"@,
        "step"@,
        "sigma"@,
        "union"@,
        "insert"@,
        "filter"@,
    ]
}

/// The playbook of `Combinatorialist`: name, script and description of each tactic.
pub open spec fn combinatorialist_tactics() -> Seq<(Seq<char>, Seq<char>, Seq<char>)> {
    seq![
        ("simp"@, "by simp"@, "Simplifier on finite-set facts."@),
        ("auto"@, "by auto"@, "General-purpose first attempt."@),
        ("induction-finite"@, "by (induction rule: finite_induct) auto"@, "Modern finite-set induction (NB: induction not induct)."@),
        ("induction-list"@, "by (induction xs) auto"@, "Structural induction on a list named xs."@),
        ("induction-arbitrary"@, "by (induction k arbitrary: j) auto"@, "Generalised induction (Matrices_Full helper pattern: arbitrary: j keeps the IH usable across positions)."@),
        ("cases-list"@, "by (cases w; auto)"@, "Case-split on list constructors then auto — the list-non-empty pattern."@),
        ("sum-insert"@, "by (subst sum.insert) auto"@, "Step a sum at an insert (replaces sum.atLeastAtMost_Suc, deprecated in 2025-1)."@),
        ("sum-distrib"@, "by (simp add: sum.distrib)"@, "Sum distributivity (replaces sum_add_distrib, renamed in 2025-1)."@),
        ("unfolding-walks-def"@, "unfolding walks_def by simp"@, "Unfold walks_def then simp — beats `proof (intro conjI)` because walks_def yields a Collect set."@),
        ("metis-append"@, "by (metis append_Cons append_Nil)"@, "List concatenation lemmas — closes obtain-decompositions of [v]@ys vs v#ys (Kleene 403 pattern)."@),
        ("force"@, "by force"@, "Stronger than blast for list-decomposition obtain goals."@),
        ("permutes-in-image"@, "by (rule permutes_in_image[OF assms])"@, "Permutations as image-preserving — closes Det 153/207 type-class regression goals."@),
        ("transposition-2x2"@, "by (cases a; cases b) (auto simp: Transposition.transpose)"@, "2x2 case split using Transposition.transpose (Fun.swap is input-only in 2025-1)."@),
    ]
}

/// The seed specialist for the domain `Combinatorics`.
pub struct Combinatorialist;

impl Specialist for Combinatorialist {
    open spec fn spec_name(&self) -> Seq<char> {
        "Combinatorialist"@
    }

    open spec fn spec_domain(&self) -> Seq<char> {
        "Combinatorics"@
    }

    open spec fn spec_keywords(&self) -> Seq<Seq<char>> {
        combinatorialist_keywords()
    }

    open spec fn spec_tactics(&self) -> Seq<(Seq<char>, Seq<char>, Seq<char>)> {
        combinatorialist_tactics()
    }

    fn name(&self) -> (r: &str) {
        "Combinatorialist"
    }

    fn domain(&self) -> (r: &str) {
        "Combinatorics"
    }

    fn keywords(&self) -> (r: Vec<&str>) {
        let mut v: Vec<&str> = Vec::new();
        v.push("finite");
        v.push("card");
        v.push("sum");
        v.push("prod");
        v.push("card_eq");
        v.push("set");
        v.push("list");
        v.push("seq");
        v.push("permutation");
        v.push("perm");
        v.push("walk");
        v.push("walks");
        v.push("path");
        v.push("path_weight");
        v.push("cycle");
        v.push("graph");
        v.push("vertex");
        v.push("edge");
        v.push("tree");
        v.push("forest");
        v.push("n_choose_k");
        v.push("binomial");
        v.push("factorial");
        v.push("induction");
        v.push("induct");
        v.push("base");
        v.push("step");
        v.push("sigma");
        v.push("union");
        v.push("insert");
        v.push("filter");
        assert(str_views(v@) =~= combinatorialist_keywords());
        v
    }

    fn playbook(&self) -> (r: Playbook) {
        let mut t: Vec<TacticTemplate> = Vec::new();
        t.push(tactic("simp", "by simp", "Simplifier on finite-set facts."));
        t.push(tactic("auto", "by auto", "General-purpose first attempt."));
        t.push(tactic("induction-finite", "by (induction rule: finite_induct) auto", "Modern finite-set induction (NB: induction not induct)."));
        t.push(tactic("induction-list", "by (induction xs) auto", "Structural induction on a list named xs."));
        t.push(tactic("induction-arbitrary", "by (induction k arbitrary: j) auto", "Generalised induction (Matrices_Full helper pattern: arbitrary: j keeps the IH usable across positions)."));
        t.push(tactic("cases-list", "by (cases w; auto)", "Case-split on list constructors then auto — the list-non-empty pattern."));
        t.push(tactic("sum-insert", "by (subst sum.insert) auto", "Step a sum at an insert (replaces sum.atLeastAtMost_Suc, deprecated in 2025-1)."));
        t.push(tactic("sum-distrib", "by (simp add: sum.distrib)", "Sum distributivity (replaces sum_add_distrib, renamed in 2025-1)."));
        t.push(tactic("unfolding-walks-def", "unfolding walks_def by simp", "Unfold walks_def then simp — beats `proof (intro conjI)` because walks_def yields a Collect set."));
        t.push(tactic("metis-append", "by (metis append_Cons append_Nil)", "List concatenation lemmas — closes obtain-decompositions of [v]@ys vs v#ys (Kleene 403 pattern)."));
        t.push(tactic("force", "by force", "Stronger than blast for list-decomposition obtain goals."));
        t.push(tactic("permutes-in-image", "by (rule permutes_in_image[OF assms])", "Permutations as image-preserving — closes Det 153/207 type-class regression goals."));
        t.push(tactic("transposition-2x2", "by (cases a; cases b) (auto simp: Transposition.transpose)", "2x2 case split using Transposition.transpose (Fun.swap is input-only in 2025-1)."));
        assert(tactic_views(t@) =~= combinatorialist_tactics());
        Playbook { specialist: string_from("Combinatorialist"), tactics: t }
    }
}

// ---------------------------------------------------------------------
// Profiles
// ---------------------------------------------------------------------

/// A specialist held as data: name, domain, keywords and playbook. The
/// swarm keeps its members as profiles.
pub struct Profile {
    pub name: String,
    pub domain: String,
    pub keywords: Vec<String>,
    pub playbook: Playbook,
}

/// A copy of a tactic.
fn copy_tactic(t: &TacticTemplate) -> (r: TacticTemplate)
    ensures
        r.name@ == t.name@,
        r.script@ == t.script@,
        r.description@ == t.description@,
{
    TacticTemplate {
        name: t.name.clone(),
        script: t.script.clone(),
        description: t.description.clone(),
    }
}

/// Copies of the tactics.
fn copy_tactics(ts: &Vec<TacticTemplate>) -> (r: Vec<TacticTemplate>)
    ensures
        tactic_views(r@) == tactic_views(ts@),
{
    let mut out: Vec<TacticTemplate> = Vec::new();
    let mut i: usize = 0;
    while i < ts.len()
        invariant
            i <= ts.len(),
            tactic_views(out@) == tactic_views(ts@).take(i as int),
        decreases ts.len() - i,
    {
        let t = copy_tactic(&ts[i]);
        let ghost before = out@;
        out.push(t);
        assert(tactic_views(out@) =~= tactic_views(before).push(
            (ts@[i as int].name@, ts@[i as int].script@, ts@[i as int].description@),
        ));
        assert(tactic_views(ts@).take(i + 1) =~= tactic_views(ts@).take(i as int).push(
            tactic_views(ts@)[i as int],
        ));
        i = i + 1;
    }
    assert(tactic_views(ts@).take(ts.len() as int) =~= tactic_views(ts@));
    out
}

/// The profile `p` holds the name, domain, keywords and tactics of `s`.
pub open spec fn profile_of<S: Specialist>(p: Profile, s: S) -> bool {
    &&& p.spec_name() == s.spec_name()
    &&& p.spec_domain() == s.spec_domain()
    &&& p.spec_keywords() == s.spec_keywords()
    &&& p.spec_tactics() == s.spec_tactics()
}

impl Profile {
    /// The profile of a specialist.
    pub fn of<S: Specialist>(s: &S) -> (r: Profile)
        ensures
            profile_of(r, *s),
    {
        let kws = s.keywords();
        let mut keywords: Vec<String> = Vec::new();
        let mut i: usize = 0;
        while i < kws.len()
            invariant
                i <= kws.len(),
                views(keywords@) == str_views(kws@).take(i as int),
            decreases kws.len() - i,
        {
            let ghost before = keywords@;
            keywords.push(string_from(kws[i]));
            assert(views(keywords@) =~= views(before).push(kws@[i as int]@));
            assert(str_views(kws@).take(i + 1) =~= str_views(kws@).take(i as int).push(
                kws@[i as int]@,
            ));
            i = i + 1;
        }
        assert(str_views(kws@).take(kws.len() as int) =~= str_views(kws@));
        let pb = s.playbook();
        Profile {
            name: string_from(s.name()),
            domain: string_from(s.domain()),
            keywords,
            playbook: Playbook { specialist: pb.specialist, tactics: pb.tactics },
        }
    }
}

impl Specialist for Profile {
    open spec fn spec_name(&self) -> Seq<char> {
        self.name@
    }

    open spec fn spec_domain(&self) -> Seq<char> {
        self.domain@
    }

    open spec fn spec_keywords(&self) -> Seq<Seq<char>> {
        views(self.keywords@)
    }

    open spec fn spec_tactics(&self) -> Seq<(Seq<char>, Seq<char>, Seq<char>)> {
        tactic_views(self.playbook.tactics@)
    }

    fn name(&self) -> (r: &str) {
        self.name.as_str()
    }

    fn domain(&self) -> (r: &str) {
        self.domain.as_str()
    }

    fn keywords(&self) -> (r: Vec<&str>) {
        let mut out: Vec<&str> = Vec::new();
        let mut i: usize = 0;
        while i < self.keywords.len()
            invariant
                i <= self.keywords.len(),
                str_views(out@) == views(self.keywords@).take(i as int),
            decreases self.keywords.len() - i,
        {
            let ghost before = out@;
            out.push(self.keywords[i].as_str());
            assert(str_views(out@) =~= str_views(before).push(self.keywords@[i as int]@));
            assert(views(self.keywords@).take(i + 1) =~= views(self.keywords@).take(i as int).push(
                self.keywords@[i as int]@,
            ));
            i = i + 1;
        }
        assert(views(self.keywords@).take(self.keywords.len() as int) =~= views(self.keywords@));
        out
    }

    fn playbook(&self) -> (r: Playbook) {
        Playbook { specialist: self.name.clone(), tactics: copy_tactics(&self.playbook.tactics) }
    }
}

// ---------------------------------------------------------------------
// The swarm
// ---------------------------------------------------------------------

/// The relevance entries of the profiles against the goal, in swarm
/// order.
pub open spec fn relevance_entries(ps: Seq<Profile>, goal: Goal) -> Seq<Entry>
    decreases ps.len(),
{
    if ps.len() == 0 {
        seq![]
    } else {
        let p = ps.last();
        let k = p.spec_keywords().len();
        relevance_entries(ps.drop_last(), goal).push(
            (
                ps.len() - 1,
                hit_count(lowered(p.spec_keywords()), goal.token_seq()),
                if k == 0 {
                    1nat
                } else {
                    k
                },
            ),
        )
    }
}

/// The order in which the swarm reports its members' readings: by
/// decreasing relevance, ties in swarm order.
pub open spec fn route_order(ps: Seq<Profile>, goal: Goal) -> Seq<Entry> {
    rank_order(relevance_entries(ps, goal))
}

/// The readings come by non-increasing relevance.
pub open spec fn sorted_by_relevance(rs: Seq<Reading>) -> bool {
    forall|m: int, n: int|
        0 <= m < n < rs.len() ==> !crate::ranking::ranks_above(
            relevance_entry(0, #[trigger] rs[n].relevance),
            relevance_entry(0, #[trigger] rs[m].relevance),
        )
}

proof fn lemma_relevance_entries_shape(ps: Seq<Profile>, goal: Goal)
    ensures
        relevance_entries(ps, goal).len() == ps.len(),
        forall|i: int|
            0 <= i < ps.len() ==> (#[trigger] relevance_entries(ps, goal)[i]).0 == i
                && relevance_entries(ps, goal)[i].2 > 0,
    decreases ps.len(),
{
    if ps.len() > 0 {
        lemma_relevance_entries_shape(ps.drop_last(), goal);
    }
}

/// Law: the swarm's reading order sorts its members by non-increasing
/// relevance, keeps members of equal relevance in swarm order, and lists
/// every member exactly once.
pub proof fn route_order_is_stable_sort(ps: Seq<Profile>, goal: Goal)
    ensures
        crate::ranking::non_increasing(route_order(ps, goal)),
        crate::ranking::ties_in_corpus_order(route_order(ps, goal)),
        route_order(ps, goal).to_multiset() == relevance_entries(ps, goal).to_multiset(),
{
    let c = relevance_entries(ps, goal);
    lemma_relevance_entries_shape(ps, goal);
    assert(crate::ranking::positive_unions(c));
    assert(crate::ranking::increasing_indices(c));
    crate::ranking::rank_order_sorted_stable_permutation(c);
}


/// The content of a playbook: the specialist and its tactics.
pub open spec fn playbook_view(p: Playbook) -> (Seq<char>, Seq<(Seq<char>, Seq<char>, Seq<char>)>) {
    (p.specialist@, tactic_views(p.tactics@))
}

/// The playbooks an attempt runs: those of the members that engage with
/// the goal and carry at least one tactic, in swarm order.
pub open spec fn engaged_plan(ps: Seq<Profile>, goal: Goal) -> Seq<
    (Seq<char>, Seq<(Seq<char>, Seq<char>, Seq<char>)>),
>
    decreases ps.len(),
{
    if ps.len() == 0 {
        seq![]
    } else {
        let prev = engaged_plan(ps.drop_last(), goal);
        let p = ps.last();
        let k = p.spec_keywords().len();
        let h = hit_count(lowered(p.spec_keywords()), goal.token_seq());
        if k > 0 && h * SWARM_RELEVANCE_DIVISOR >= k && p.spec_tactics().len() > 0 {
            prev.push((p.spec_name(), p.spec_tactics()))
        } else {
            prev
        }
    }
}

// ---------------------------------------------------------------------
// Synthesis
// ---------------------------------------------------------------------

/// What one citation of a home weighs: the home's similarity
/// `shared / union` times the citing specialist's relevance
/// `hits / keywords`.
#[derive(Clone, Copy)]
pub struct Contribution {
    pub shared: usize,
    pub union: usize,
    pub hits: usize,
    pub keywords: usize,
}

/// A lemma cited as a home by engaged specialists: where it stands (as
/// first cited), how many citations it received, what each weighs, and
/// which readings cited it.
pub struct ConsensusTally {
    pub lemma_name: String,
    pub file: String,
    pub line: usize,
    pub votes: usize,
    pub contributions: Vec<Contribution>,
    /// The indices of the citing readings, each once, in increasing order.
    pub readers: Vec<usize>,
}

/// The head agent's read of a swarm response.
pub struct Synthesis {
    pub engaged_specialists: Vec<String>,
    pub domains: Vec<String>,
    pub boundary_object: bool,
    pub summary: String,
    /// The consensus homes: the lemmas cited by at least two engaged
    /// readings, in the order of their first citation.
    pub consensus_homes: Vec<ConsensusTally>,
}

/// A citation: lemma name, file, line, weight, and the index of the citing
/// reading.
pub type Citation = (Seq<char>, Seq<char>, usize, Contribution, usize);

/// The content of a tally: lemma name, file, line, votes, weights, citing
/// readings.
pub type TallyView = (Seq<char>, Seq<char>, usize, nat, Seq<Contribution>, Seq<usize>);

/// The readings whose relevance reaches the swarm threshold, in order.
pub open spec fn engaged(rs: Seq<Reading>) -> Seq<Reading>
    decreases rs.len(),
{
    if rs.len() == 0 {
        seq![]
    } else if engages(rs.last().relevance) {
        engaged(rs.drop_last()).push(rs.last())
    } else {
        engaged(rs.drop_last())
    }
}

/// The citation of home `h` by reading `r`, the reading at index `idx`.
pub open spec fn citation(r: Reading, h: Home, idx: usize) -> Citation {
    (
        h.lemma.name@,
        h.lemma.file@,
        h.lemma.line,
        Contribution {
            shared: h.shared_count,
            union: h.union_count,
            hits: r.relevance.hits,
            keywords: r.relevance.keywords,
        },
        idx,
    )
}

/// The citations of the homes of `hs` by reading `r` at index `idx`, in
/// order.
pub open spec fn home_citations(r: Reading, hs: Seq<Home>, idx: usize) -> Seq<Citation> {
    hs.map_values(|h: Home| citation(r, h, idx))
}

/// The citations of all homes of the engaged readings, in order.
pub open spec fn citations(rs: Seq<Reading>) -> Seq<Citation>
    decreases rs.len(),
{
    if rs.len() == 0 {
        seq![]
    } else if engages(rs.last().relevance) {
        citations(rs.drop_last()) + home_citations(
            rs.last(),
            rs.last().homes@,
            (rs.len() - 1) as usize,
        )
    } else {
        citations(rs.drop_last())
    }
}

/// The last index of a tally for lemma `name`.
pub open spec fn find_name(t: Seq<TallyView>, name: Seq<char>) -> Option<int>
    decreases t.len(),
{
    if t.len() == 0 {
        None
    } else if t.last().0 == name {
        Some(t.len() - 1)
    } else {
        find_name(t.drop_last(), name)
    }
}

/// The citing readings after one more citation by reading `r`: `r` is
/// added unless it is the last one already there.
pub open spec fn add_reader(readers: Seq<usize>, r: usize) -> Seq<usize> {
    if readers.len() > 0 && readers.last() == r {
        readers
    } else {
        readers.push(r)
    }
}

/// The tallies after one more citation: a vote, a weight and the citing
/// reading for a lemma already cited, a new tally otherwise.
pub open spec fn tally_step(t: Seq<TallyView>, c: Citation) -> Seq<TallyView> {
    match find_name(t, c.0) {
        Some(j) => t.update(
            j,
            (t[j].0, t[j].1, t[j].2, t[j].3 + 1, t[j].4.push(c.3), add_reader(t[j].5, c.4)),
        ),
        None => t.push((c.0, c.1, c.2, 1nat, seq![c.3], seq![c.4])),
    }
}

/// The tallies of a sequence of citations.
pub open spec fn tally(cs: Seq<Citation>) -> Seq<TallyView>
    decreases cs.len(),
{
    if cs.len() == 0 {
        seq![]
    } else {
        tally_step(tally(cs.drop_last()), cs.last())
    }
}

/// The content of the tallies.
pub open spec fn tally_views(t: Seq<ConsensusTally>) -> Seq<TallyView> {
    t.map_values(
        |x: ConsensusTally|
            (x.lemma_name@, x.file@, x.line, x.votes as nat, x.contributions@, x.readers@),
    )
}

/// The tallies of lemmas cited by at least two readings, in order.
pub open spec fn consensus(t: Seq<TallyView>) -> Seq<TallyView>
    decreases t.len(),
{
    if t.len() == 0 {
        seq![]
    } else if t.last().5.len() >= 2 {
        consensus(t.drop_last()).push(t.last())
    } else {
        consensus(t.drop_last())
    }
}

/// The synthesis summary for the domains of the engaged specialists.
pub open spec fn summary_text(domains: Seq<Seq<char>>) -> Seq<char> {
    if domains.len() == 0 {
        "No specialist engaged. This goal may be a novel construction with no recognised mathematical home."@
    } else if domains.len() >= 2 {
        "Boundary object: this goal lives in the intersection of "@ + join(domains, ", "@)
            + ". Cross-domain readings often suggest the deepest results."@
    } else {
        "Single-domain object: best read as "@ + domains[0] + "."@
    }
}

proof fn lemma_find_name(t: Seq<TallyView>, name: Seq<char>)
    ensures
        match find_name(t, name) {
            Some(j) => 0 <= j < t.len() && t[j].0 == name && forall|m: int|
                j < m < t.len() ==> (#[trigger] t[m]).0 != name,
            None => forall|m: int| 0 <= m < t.len() ==> (#[trigger] t[m]).0 != name,
        },
    decreases t.len(),
{
    if t.len() > 0 {
        lemma_find_name(t.drop_last(), name);
        match find_name(t.drop_last(), name) {
            Some(j) => {},
            None => {},
        }
        if t.last().0 != name {
            assert forall|m: int| 0 <= m < t.len() - 1 implies (#[trigger] t[m]).0 == t.drop_last()[m].0 by {}
        }
    }
}

proof fn lemma_tally_votes(cs: Seq<Citation>)
    ensures
        forall|j: int| 0 <= j < tally(cs).len() ==> (#[trigger] tally(cs)[j]).3 <= cs.len(),
    decreases cs.len(),
{
    if cs.len() > 0 {
        lemma_tally_votes(cs.drop_last());
        lemma_find_name(tally(cs.drop_last()), cs.last().0);
    }
}

proof fn lemma_citations_prefix(rs: Seq<Reading>, i: int)
    requires
        0 <= i <= rs.len(),
    ensures
        citations(rs.take(i)).len() <= citations(rs).len(),
    decreases rs.len(),
{
    if i < rs.len() {
        assert(rs.take(i) =~= rs.drop_last().take(i));
        lemma_citations_prefix(rs.drop_last(), i);
    } else {
        assert(rs.take(i) =~= rs);
    }
}

/// The tallied lemma names are distinct.
pub open spec fn distinct_names(t: Seq<TallyView>) -> bool {
    forall|i: int, j: int| 0 <= i < j < t.len() ==> (#[trigger] t[i]).0 != (#[trigger] t[j]).0
}

/// The total number of votes of the tallies.
pub open spec fn total_votes(t: Seq<TallyView>) -> nat
    decreases t.len(),
{
    if t.len() == 0 {
        0
    } else {
        total_votes(t.drop_last()) + t.last().3
    }
}

proof fn lemma_total_votes_update(t: Seq<TallyView>, j: int, x: TallyView)
    requires
        0 <= j < t.len(),
    ensures
        total_votes(t.update(j, x)) == total_votes(t) - t[j].3 + x.3,
    decreases t.len(),
{
    if j == t.len() - 1 {
        assert(t.update(j, x).drop_last() =~= t.drop_last());
    } else {
        assert(t.update(j, x).drop_last() =~= t.drop_last().update(j, x));
        lemma_total_votes_update(t.drop_last(), j, x);
    }
}

/// Law: the tally counts every citation exactly once: each cited lemma has
/// one tally, whose votes are its number of citations and whose weights
/// are one per citation, and the votes add up to the number of citations.
pub proof fn tally_counts_every_citation(cs: Seq<Citation>)
    ensures
        distinct_names(tally(cs)),
        total_votes(tally(cs)) == cs.len(),
        forall|j: int|
            0 <= j < tally(cs).len() ==> (#[trigger] tally(cs)[j]).3 == tally(cs)[j].4.len()
                && tally(cs)[j].3 >= 1,
    decreases cs.len(),
{
    if cs.len() > 0 {
        let prev = tally(cs.drop_last());
        let c = cs.last();
        tally_counts_every_citation(cs.drop_last());
        lemma_find_name(prev, c.0);
        match find_name(prev, c.0) {
            Some(j) => {
                let x = (
                    prev[j].0,
                    prev[j].1,
                    prev[j].2,
                    prev[j].3 + 1,
                    prev[j].4.push(c.3),
                    add_reader(prev[j].5, c.4),
                );
                lemma_total_votes_update(prev, j, x);
                let t = tally(cs);
                assert(t == prev.update(j, x));
                assert forall|a: int, b: int| 0 <= a < b < t.len() implies (#[trigger] t[a]).0
                    != (#[trigger] t[b]).0 by {
                    assert(prev[a].0 == t[a].0 && prev[b].0 == t[b].0);
                }
            },
            None => {
                let t = tally(cs);
                assert(t == prev.push((c.0, c.1, c.2, 1nat, seq![c.3], seq![c.4])));
                assert(t.drop_last() =~= prev);
                assert forall|a: int, b: int| 0 <= a < b < t.len() implies (#[trigger] t[a]).0
                    != (#[trigger] t[b]).0 by {
                    if b < prev.len() {
                        assert(prev[a].0 == t[a].0 && prev[b].0 == t[b].0);
                    } else {
                        assert(prev[a].0 != c.0);
                    }
                }
            },
        }
    }
}

/// The citing readings are strictly increasing.
pub open spec fn increasing_readers(r: Seq<usize>) -> bool {
    forall|a: int, b: int| 0 <= a < b < r.len() ==> (#[trigger] r[a]) < (#[trigger] r[b])
}

/// The citations come in non-decreasing order of the citing reading.
pub open spec fn readers_in_order(cs: Seq<Citation>) -> bool {
    forall|a: int, b: int| 0 <= a < b < cs.len() ==> (#[trigger] cs[a]).4 <= (#[trigger] cs[b]).4
}

/// Citation `c` is one by reading `c.4` of `rs`: an engaged reading with a
/// home of the cited name.
pub open spec fn cited_by(rs: Seq<Reading>, c: Citation) -> bool {
    &&& c.4 < rs.len()
    &&& engages(rs[c.4 as int].relevance)
    &&& exists|m: int|
        0 <= m < rs[c.4 as int].homes@.len() && (#[trigger] rs[c.4 as int].homes@[m]).lemma.name@
            == c.0
}

proof fn lemma_citations_shape(rs: Seq<Reading>)
    requires
        rs.len() <= usize::MAX,
    ensures
        readers_in_order(citations(rs)),
        forall|k: int| 0 <= k < citations(rs).len() ==> cited_by(rs, #[trigger] citations(rs)[k]),
    decreases rs.len(),
{
    if rs.len() > 0 {
        let d = rs.drop_last();
        lemma_citations_shape(d);
        let cd = citations(d);
        let cs = citations(rs);
        let idx = (rs.len() - 1) as usize;
        assert forall|k: int| 0 <= k < cd.len() implies cited_by(rs, #[trigger] cd[k]) by {
            let c = cd[k];
            assert(cited_by(d, c));
            assert(rs[c.4 as int] == d[c.4 as int]);
            let m = choose|m: int|
                0 <= m < d[c.4 as int].homes@.len() && (#[trigger] d[c.4 as int].homes@[m]).lemma.name@
                    == c.0;
            assert(rs[c.4 as int].homes@[m].lemma.name@ == c.0);
        }
        if engages(rs.last().relevance) {
            let hc = home_citations(rs.last(), rs.last().homes@, idx);
            assert(cs == cd + hc);
            assert forall|k: int| 0 <= k < cs.len() implies cited_by(rs, #[trigger] cs[k]) by {
                if k < cd.len() {
                    assert(cs[k] == cd[k]);
                } else {
                    let m = k - cd.len();
                    assert(cs[k] == hc[m]);
                    assert(rs[idx as int] == rs.last());
                    assert(rs[idx as int].homes@[m].lemma.name@ == cs[k].0);
                }
            }
            assert forall|a: int, b: int| 0 <= a < b < cs.len() implies (#[trigger] cs[a]).4 <= (
            #[trigger] cs[b]).4 by {
                if b < cd.len() {
                    assert(cs[a] == cd[a] && cs[b] == cd[b]);
                } else {
                    assert(cs[b] == hc[b - cd.len()]);
                    if a < cd.len() {
                        assert(cs[a] == cd[a]);
                        assert(cited_by(d, cd[a]));
                    } else {
                        assert(cs[a] == hc[a - cd.len()]);
                    }
                }
            }
        } else {
            assert(cs == cd);
        }
    }
}

/// Some citation of `cs` cites lemma `name` by reading `r`.
pub open spec fn cites_reader(cs: Seq<Citation>, name: Seq<char>, r: usize) -> bool {
    exists|k: int| 0 <= k < cs.len() && (#[trigger] cs[k]).0 == name && cs[k].4 == r
}

/// Every citing reading of tally `e` is the reader of a citation of its
/// lemma in `cs`.
pub open spec fn readers_cite(cs: Seq<Citation>, e: TallyView) -> bool {
    forall|x: int| 0 <= x < e.5.len() ==> cites_reader(cs, e.0, #[trigger] e.5[x])
}

proof fn lemma_cites_reader_extend(d: Seq<Citation>, cs: Seq<Citation>, name: Seq<char>, r: usize)
    requires
        d.len() <= cs.len(),
        forall|k: int| 0 <= k < d.len() ==> #[trigger] d[k] == cs[k],
        cites_reader(d, name, r),
    ensures
        cites_reader(cs, name, r),
{
    let k = choose|k: int| 0 <= k < d.len() && (#[trigger] d[k]).0 == name && d[k].4 == r;
    assert(cs[k] == d[k]);
}

proof fn lemma_tally_readers(cs: Seq<Citation>)
    requires
        readers_in_order(cs),
    ensures
        forall|j: int|
            0 <= j < tally(cs).len() ==> (#[trigger] tally(cs)[j]).5.len() >= 1
                && increasing_readers(tally(cs)[j].5) && readers_cite(cs, tally(cs)[j]),
    decreases cs.len(),
{
    if cs.len() > 0 {
        let d = cs.drop_last();
        let c = cs.last();
        assert(readers_in_order(d)) by {
            assert forall|a: int, b: int| 0 <= a < b < d.len() implies (#[trigger] d[a]).4 <= (
            #[trigger] d[b]).4 by {
                assert(d[a] == cs[a] && d[b] == cs[b]);
            }
        }
        lemma_tally_readers(d);
        let prev = tally(d);
        let t = tally(cs);
        lemma_find_name(prev, c.0);
        // Witnesses found in `d` stay witnesses in `cs`.
        assert forall|j: int| 0 <= j < prev.len() implies readers_cite(cs, #[trigger] prev[j]) by {
            let e = tally(d)[j];
            assert(readers_cite(d, e));
            assert forall|x: int| 0 <= x < e.5.len() implies cites_reader(cs, e.0, #[trigger] e.5[x]) by {
                lemma_cites_reader_extend(d, cs, e.0, e.5[x]);
            }
        }
        match find_name(prev, c.0) {
            Some(j) => {
                let r = prev[j].5;
                let nr = add_reader(r, c.4);
                let x = (prev[j].0, prev[j].1, prev[j].2, prev[j].3 + 1, prev[j].4.push(c.3), nr);
                assert(t == prev.update(j, x));
                // every earlier reader is at most the new one
                assert forall|y: int| 0 <= y < r.len() implies #[trigger] r[y] <= c.4 by {
                    assert(readers_cite(d, prev[j]));
                    assert(cites_reader(d, prev[j].0, r[y]));
                    let k = choose|k: int| 0 <= k < d.len() && (#[trigger] d[k]).0 == prev[j].0 && d[k].4 == r[y];
                    assert(cs[k] == d[k]);
                    assert(cs[k].4 <= cs[cs.len() - 1].4);
                }
                assert(increasing_readers(nr)) by {
                    if !(r.len() > 0 && r.last() == c.4) {
                        assert forall|a: int, b: int| 0 <= a < b < nr.len() implies (#[trigger] nr[a]) < (
                        #[trigger] nr[b]) by {
                            if b < r.len() {
                                assert(nr[a] == r[a] && nr[b] == r[b]);
                            } else {
                                assert(nr[a] == r[a]);
                                assert(r[a] <= c.4);
                                if a < r.len() - 1 {
                                    assert(r[a] < r[r.len() - 1]);
                                    assert(r[r.len() - 1] <= c.4);
                                }
                            }
                        }
                    }
                }
                assert(readers_cite(cs, x)) by {
                    assert forall|y: int| 0 <= y < nr.len() implies cites_reader(cs, x.0, #[trigger] nr[y]) by {
                        if y < r.len() {
                            assert(nr[y] == r[y]);
                            assert(readers_cite(cs, prev[j]));
                            assert(cites_reader(cs, prev[j].0, r[y]));
                        } else {
                            assert(cs[cs.len() - 1].0 == x.0);
                            assert(nr[y] == c.4);
                            assert(cs[cs.len() - 1].4 == c.4);
                        }
                    }
                }
                assert forall|i: int| 0 <= i < t.len() implies (#[trigger] t[i]).5.len() >= 1
                    && increasing_readers(t[i].5) && readers_cite(cs, t[i]) by {
                    if i != j {
                        assert(t[i] == prev[i]);
                    }
                }
            },
            None => {
                let x = (c.0, c.1, c.2, 1nat, seq![c.3], seq![c.4]);
                assert(t == prev.push(x));
                assert(readers_cite(cs, x)) by {
                    assert forall|y: int| 0 <= y < x.5.len() implies cites_reader(cs, x.0, #[trigger] x.5[y]) by {
                        assert(cs[cs.len() - 1] == c);
                    }
                }
                assert forall|i: int| 0 <= i < t.len() implies (#[trigger] t[i]).5.len() >= 1
                    && increasing_readers(t[i].5) && readers_cite(cs, t[i]) by {
                    if i < prev.len() {
                        assert(t[i] == prev[i]);
                    }
                }
            },
        }
    }
}

proof fn lemma_consensus_from(t: Seq<TallyView>)
    ensures
        forall|i: int|
            0 <= i < consensus(t).len() ==> (#[trigger] consensus(t)[i]).5.len() >= 2 && exists|j: int|
                0 <= j < t.len() && t[j] == consensus(t)[i],
    decreases t.len(),
{
    if t.len() > 0 {
        let d = t.drop_last();
        lemma_consensus_from(d);
        assert forall|i: int| 0 <= i < consensus(t).len() implies (#[trigger] consensus(t)[i]).5.len()
            >= 2 && exists|j: int| 0 <= j < t.len() && t[j] == consensus(t)[i] by {
            if i < consensus(d).len() {
                assert(consensus(t)[i] == consensus(d)[i]);
                let j = choose|j: int| 0 <= j < d.len() && d[j] == consensus(d)[i];
                assert(t[j] == d[j]);
            } else {
                assert(consensus(t)[i] == t[t.len() - 1]);
            }
        }
    }
}

/// Law: every consensus home is cited by at least two distinct engaged
/// readings, each of which lists a home of that name; the citing readings
/// are recorded once each, in increasing order.
pub proof fn consensus_homes_have_several_readers(rs: Seq<Reading>)
    requires
        rs.len() <= usize::MAX,
    ensures
        forall|i: int|
            0 <= i < consensus(tally(citations(rs))).len() ==> {
                let e = #[trigger] consensus(tally(citations(rs)))[i];
                &&& e.5.len() >= 2
                &&& increasing_readers(e.5)
                &&& forall|x: int|
                    0 <= x < e.5.len() ==> {
                        let r = #[trigger] e.5[x];
                        &&& r < rs.len()
                        &&& engages(rs[r as int].relevance)
                        &&& exists|m: int|
                            0 <= m < rs[r as int].homes@.len() && (#[trigger] rs[r as int].homes@[m]).lemma.name@
                                == e.0
                    }
            },
{
    let cs = citations(rs);
    lemma_citations_shape(rs);
    lemma_tally_readers(cs);
    let t = tally(cs);
    lemma_consensus_from(t);
    assert forall|i: int| 0 <= i < consensus(t).len() implies {
        let e = #[trigger] consensus(t)[i];
        &&& e.5.len() >= 2
        &&& increasing_readers(e.5)
        &&& forall|x: int|
            0 <= x < e.5.len() ==> {
                let r = #[trigger] e.5[x];
                &&& r < rs.len()
                &&& engages(rs[r as int].relevance)
                &&& exists|m: int|
                    0 <= m < rs[r as int].homes@.len() && (#[trigger] rs[r as int].homes@[m]).lemma.name@
                        == e.0
            }
    } by {
        let e = consensus(t)[i];
        let j = choose|j: int| 0 <= j < t.len() && t[j] == e;
        assert(increasing_readers(t[j].5) && readers_cite(cs, t[j]));
        assert forall|x: int| 0 <= x < e.5.len() implies {
            let r = #[trigger] e.5[x];
            &&& r < rs.len()
            &&& engages(rs[r as int].relevance)
            &&& exists|m: int|
                0 <= m < rs[r as int].homes@.len() && (#[trigger] rs[r as int].homes@[m]).lemma.name@
                    == e.0
        } by {
            assert(cites_reader(cs, e.0, e.5[x]));
            let k = choose|k: int| 0 <= k < cs.len() && (#[trigger] cs[k]).0 == e.0 && cs[k].4 == e.5[x];
            assert(cited_by(rs, cs[k]));
        }
    }
}

/// Law: the summary says which case the engaged readings make: none
/// engaged, a single domain, or a boundary object across several domains.
pub proof fn summary_names_the_case(rs: Seq<Reading>)
    ensures
        ({
            let ds = engaged(rs).map_values(|x: Reading| x.domain@);
            &&& ds.len() == engaged(rs).len()
            &&& engaged(rs).len() == 0 ==> summary_text(ds)
                == "No specialist engaged. This goal may be a novel construction with no recognised mathematical home."@
            &&& engaged(rs).len() == 1 ==> summary_text(ds) == "Single-domain object: best read as "@
                + engaged(rs)[0].domain@ + "."@
            &&& engaged(rs).len() >= 2 ==> summary_text(ds)
                == "Boundary object: this goal lives in the intersection of "@ + join(ds, ", "@)
                + ". Cross-domain readings often suggest the deepest results."@
        }),
{
}

/// Records one citation in the tallies.
fn add_citation(
    tallies: &mut Vec<ConsensusTally>,
    name: &String,
    file: &String,
    line: usize,
    c: Contribution,
    reader: usize,
)
    requires
        forall|j: int| 0 <= j < old(tallies)@.len() ==> (#[trigger] old(tallies)@[j]).votes < usize::MAX,
    ensures
        tally_views(final(tallies)@) == tally_step(
            tally_views(old(tallies)@),
            (name@, file@, line, c, reader),
        ),
{
    let ghost t = tally_views(tallies@);
    proof {
        lemma_find_name(t, name@);
    }
    let mut k: usize = tallies.len();
    while k > 0 && !crate::text::str_eq(tallies[k - 1].lemma_name.as_str(), name.as_str())
        invariant
            k <= tallies@.len(),
            t == tally_views(tallies@),
            forall|m: int| k <= m < tallies@.len() ==> (#[trigger] t[m]).0 != name@,
        decreases k,
    {
        k = k - 1;
    }
    if k == 0 {
        proof {
            assert(find_name(t, name@) is None) by {
                match find_name(t, name@) {
                    Some(j) => {
                        assert(t[j].0 == name@);
                    },
                    None => {},
                }
            }
        }
        let ghost before = tallies@;
        let mut cs: Vec<Contribution> = Vec::new();
        cs.push(c);
        let mut rs: Vec<usize> = Vec::new();
        rs.push(reader);
        tallies.push(
            ConsensusTally {
                lemma_name: name.clone(),
                file: file.clone(),
                line,
                votes: 1,
                contributions: cs,
                readers: rs,
            },
        );
        assert(tally_views(tallies@) =~= t.push((name@, file@, line, 1nat, seq![c], seq![reader])));
    } else {
        let j = k - 1;
        proof {
            assert(t[j as int].0 == name@);
            match find_name(t, name@) {
                Some(x) => {
                    if x != j {
                        assert(t[x].0 == name@);
                    }
                },
                None => {
                    assert(t[j as int].0 == name@);
                },
            }
            assert(find_name(t, name@) == Some(j as int));
        }
        let ghost before = tallies@;
        let mut entry = tallies.remove(j);
        assert(entry == before[j as int]);
        entry.votes = entry.votes + 1;
        entry.contributions.push(c);
        let nr = entry.readers.len();
        if nr == 0 || entry.readers[nr - 1] != reader {
            entry.readers.push(reader);
        }
        assert(entry.readers@ == add_reader(t[j as int].5, reader));
        tallies.insert(j, entry);
        assert(tally_views(tallies@) =~= t.update(
            j as int,
            (
                t[j as int].0,
                t[j as int].1,
                t[j as int].2,
                t[j as int].3 + 1,
                t[j as int].4.push(c),
                add_reader(t[j as int].5, reader),
            ),
        ));
    }
}

/// The head agent's synthesis of the readings.
fn synthesise(readings: &[Reading]) -> (r: Synthesis)
    requires
        citations(readings@).len() <= usize::MAX,
    ensures
        views(r.engaged_specialists@) == engaged(readings@).map_values(|x: Reading| x.specialist@),
        views(r.domains@) == engaged(readings@).map_values(|x: Reading| x.domain@),
        r.boundary_object == (engaged(readings@).len() >= 2),
        r.summary@ == summary_text(views(r.domains@)),
        tally_views(r.consensus_homes@) == consensus(tally(citations(readings@))),
{
    let ghost rs = readings@;
    let mut names: Vec<String> = Vec::new();
    let mut domains: Vec<String> = Vec::new();
    let mut tallies: Vec<ConsensusTally> = Vec::new();
    let mut i: usize = 0;
    while i < readings.len()
        invariant
            i <= readings.len(),
            rs == readings@,
            citations(rs).len() <= usize::MAX,
            views(names@) == engaged(rs.take(i as int)).map_values(|x: Reading| x.specialist@),
            views(domains@) == engaged(rs.take(i as int)).map_values(|x: Reading| x.domain@),
            tally_views(tallies@) == tally(citations(rs.take(i as int))),
        decreases readings.len() - i,
    {
        let rd = &readings[i];
        proof {
            assert(rs.take(i + 1).drop_last() =~= rs.take(i as int));
            assert(rs.take(i + 1).last() == rs[i as int]);
            lemma_citations_prefix(rs, i + 1);
        }
        if rd.relevance.engages() {
            let ghost before_n = names@;
            let ghost before_d = domains@;
            names.push(rd.specialist.clone());
            domains.push(rd.domain.clone());
            assert(views(names@) =~= views(before_n).push(rd.specialist@));
            assert(views(domains@) =~= views(before_d).push(rd.domain@));
            let ghost base = citations(rs.take(i as int));
            let ghost all_here = home_citations(*rd, rd.homes@, i);
            assert(citations(rs.take(i + 1)) == base + all_here);
            let mut j: usize = 0;
            assert(base + all_here.take(0) =~= base);
            while j < rd.homes.len()
                invariant
                    j <= rd.homes.len(),
                    rd == &readings[i as int],
                    all_here == home_citations(*rd, rd.homes@, i),
                    (base + all_here).len() <= usize::MAX,
                    tally_views(tallies@) == tally(base + all_here.take(j as int)),
                decreases rd.homes.len() - j,
            {
                let h = &rd.homes[j];
                let c = Contribution {
                    shared: h.shared_count,
                    union: h.union_count,
                    hits: rd.relevance.hits,
                    keywords: rd.relevance.keywords,
                };
                proof {
                    let cur = base + all_here.take(j as int);
                    lemma_tally_votes(cur);
                    assert((base + all_here.take(j + 1)).drop_last() =~= cur);
                    assert(all_here[j as int] == citation(*rd, *h, i));
                    assert((base + all_here.take(j + 1)).last() == citation(*rd, *h, i));
                    assert forall|m: int| 0 <= m < tallies@.len() implies (#[trigger] tallies@[m]).votes
                        < usize::MAX by {
                        assert(tally_views(tallies@)[m].3 == tallies@[m].votes);
                    }
                }
                add_citation(&mut tallies, &h.lemma.name, &h.lemma.file, h.lemma.line, c, i);
                j = j + 1;
            }
            assert(all_here.take(rd.homes.len() as int) =~= all_here);
        }
        i = i + 1;
    }
    assert(rs.take(readings.len() as int) =~= rs);
    let ghost all_tallies = tally_views(tallies@);
    let mut consensus_homes: Vec<ConsensusTally> = Vec::new();
    for t in it: tallies
        invariant
            all_tallies == tally_views(it.seq()),
            tally_views(consensus_homes@) == consensus(all_tallies.take(it.index() as int)),
    {
        let ghost k = it.index();
        proof {
            assert(all_tallies.take(k + 1).drop_last() =~= all_tallies.take(k));
            assert(all_tallies.take(k + 1).last() == all_tallies[k]);
        }
        if t.readers.len() >= 2 {
            let ghost before = consensus_homes@;
            consensus_homes.push(t);
            assert(tally_views(consensus_homes@) =~= tally_views(before).push(all_tallies[k]));
        }
    }
    assert(all_tallies.take(all_tallies.len() as int) =~= all_tallies);
    let n = domains.len();
    let boundary = n >= 2;
    let summary = if n == 0 {
        string_from(
            "No specialist engaged. This goal may be a novel construction with no recognised mathematical home.",
        )
    } else if boundary {
        let dv = chars_of_all(&domains);
        let mut out = chars_of("Boundary object: this goal lives in the intersection of ");
        let joined = crate::attempt::join_first(&dv, n, ", ");
        assert(first_n(vviews(dv@), n as nat) =~= vviews(dv@));
        append_chars(&mut out, &joined);
        let tail = chars_of(". Cross-domain readings often suggest the deepest results.");
        append_chars(&mut out, &tail);
        string_of(&out)
    } else {
        let mut out = chars_of("Single-domain object: best read as ");
        let d = chars_of(domains[0].as_str());
        append_chars(&mut out, &d);
        let tail = chars_of(".");
        append_chars(&mut out, &tail);
        string_of(&out)
    };
    Synthesis {
        engaged_specialists: names,
        domains,
        boundary_object: boundary,
        summary,
        consensus_homes,
    }
}

/// A swarm of specialists.
pub struct Swarm {
    specialists: Vec<Profile>,
}

impl Swarm {
    /// The members, in the order they were added.
    pub closed spec fn members(&self) -> Seq<Profile> {
        self.specialists@
    }

    /// The swarm of the three seed specialists: `Algebraist`,
    /// `OrderTheorist` and `Combinatorialist`, in that order.
    pub fn new() -> (r: Self)
        ensures
            r.members().len() == 3,
            profile_of(r.members()[0], Algebraist),
            profile_of(r.members()[1], OrderTheorist),
            profile_of(r.members()[2], Combinatorialist),
    {
        let mut v: Vec<Profile> = Vec::new();
        v.push(Profile::of(&Algebraist));
        v.push(Profile::of(&OrderTheorist));
        v.push(Profile::of(&Combinatorialist));
        Swarm { specialists: v }
    }

    /// Adds a specialist.
    pub fn add<S: Specialist>(&mut self, s: &S)
        ensures
            final(self).members().len() == old(self).members().len() + 1,
            final(self).members().take(old(self).members().len() as int) == old(self).members(),
            profile_of(final(self).members().last(), *s),
    {
        let p = Profile::of(s);
        self.specialists.push(p);
        assert(self.specialists@.take(old(self).specialists@.len() as int) =~= old(
            self,
        ).specialists@);
    }

    /// Every member's reading of the goal, most relevant first (members of
    /// equal relevance in swarm order). Members below the swarm threshold
    /// report no homes.
    pub fn route(&self, goal: &Goal, corpus: &Corpus, top: usize) -> (r: Vec<Reading>)
        requires
            goal.well_formed(),
            corpus.well_formed(),
            counts_fit(*goal, *corpus),
        ensures
            r@.len() == self.members().len(),
            sorted_by_relevance(r@),
            forall|m: int|
                0 <= m < r@.len() ==> {
                    let x = #[trigger] route_order(self.members(), *goal)[m].0;
                    &&& 0 <= x < self.members().len()
                    &&& r@[m].reads(
                        self.members()[x].spec_name(),
                        self.members()[x].spec_domain(),
                        self.members()[x].spec_keywords(),
                        *goal,
                        *corpus,
                        top as nat,
                    )
                },
    {
        let ghost ps = self.specialists@;
        let mut sorted: Vec<Reading> = Vec::new();
        let ghost mut order: Seq<Entry> = seq![];
        let mut i: usize = 0;
        while i < self.specialists.len()
            invariant
                i <= self.specialists.len(),
                ps == self.specialists@,
                goal.well_formed(),
                corpus.well_formed(),
                counts_fit(*goal, *corpus),
                order == rank_order(relevance_entries(ps.take(i as int), *goal)),
                sorted@.len() == order.len(),
                sorted@.len() == i,
                forall|m: int|
                    0 <= m < sorted@.len() ==> {
                        let x = #[trigger] order[m].0;
                        &&& 0 <= x < i
                        &&& order[m] == relevance_entry(x, sorted@[m].relevance)
                        &&& sorted@[m].reads(
                            ps[x].spec_name(),
                            ps[x].spec_domain(),
                            ps[x].spec_keywords(),
                            *goal,
                            *corpus,
                            top as nat,
                        )
                    },
            decreases self.specialists.len() - i,
        {
            let rd = self.specialists[i].read_goal(goal, corpus, top);
            let ghost x: Entry = relevance_entry(i as int, rd.relevance);
            proof {
                assert(ps.take(i + 1).drop_last() =~= ps.take(i as int));
                assert(ps.take(i + 1).last() == ps[i as int]);
                assert(relevance_entries(ps.take(i + 1), *goal) == relevance_entries(
                    ps.take(i as int),
                    *goal,
                ).push(x));
                assert(relevance_entries(ps.take(i + 1), *goal).drop_last() =~= relevance_entries(
                    ps.take(i as int),
                    *goal,
                ));
            }
            let mut p: usize = 0;
            while p < sorted.len() && sorted[p].relevance.at_least(&rd.relevance)
                invariant
                    p <= sorted@.len(),
                    sorted@.len() == order.len(),
                    x == relevance_entry(i as int, rd.relevance),
                    forall|m: int|
                        0 <= m < sorted@.len() ==> #[trigger] order[m] == relevance_entry(
                            order[m].0,
                            sorted@[m].relevance,
                        ),
                    forall|m: int| 0 <= m < p ==> !crate::ranking::ranks_above(x, #[trigger] order[m]),
                decreases sorted@.len() - p,
            {
                p = p + 1;
            }
            proof {
                crate::ranking::lemma_insert_ranked_at(order, x, p as int);
            }
            let ghost old_sorted = sorted@;
            sorted.insert(p, rd);
            proof {
                let new_order = order.take(p as int).push(x) + order.skip(p as int);
                assert(rank_order(relevance_entries(ps.take(i + 1), *goal)) == new_order);
                assert forall|m: int| 0 <= m < sorted@.len() implies {
                    let y = #[trigger] new_order[m].0;
                    &&& 0 <= y < i + 1
                    &&& new_order[m] == relevance_entry(y, sorted@[m].relevance)
                    &&& sorted@[m].reads(
                        ps[y].spec_name(),
                        ps[y].spec_domain(),
                        ps[y].spec_keywords(),
                        *goal,
                        *corpus,
                        top as nat,
                    )
                } by {
                    if m < p {
                        assert(sorted@[m] == old_sorted[m]);
                        assert(new_order[m] == order[m]);
                    } else if m == p {
                        assert(new_order[m] == x);
                    } else {
                        assert(sorted@[m] == old_sorted[m - 1]);
                        assert(new_order[m] == order[m - 1]);
                    }
                }
                order = new_order;
            }
            i = i + 1;
        }
        assert(ps.take(self.specialists.len() as int) =~= ps);
        proof {
            route_order_is_stable_sort(ps, *goal);
            assert forall|m: int, n: int| 0 <= m < n < sorted@.len() implies !crate::ranking::ranks_above(
                relevance_entry(0, #[trigger] sorted@[n].relevance),
                relevance_entry(0, #[trigger] sorted@[m].relevance),
            ) by {
                assert(order[m] == relevance_entry(order[m].0, sorted@[m].relevance));
                assert(order[n] == relevance_entry(order[n].0, sorted@[n].relevance));
                assert(!crate::ranking::ranks_above(order[n], order[m]));
            }
        }
        sorted
    }

    /// The playbooks of the members whose relevance reaches the swarm
    /// threshold and whose playbook is not empty, in swarm order: what an
    /// attempt on the goal runs.
    pub fn engaged_playbooks(&self, goal: &Goal) -> (r: Vec<Playbook>)
        ensures
            r@.map_values(|p: Playbook| playbook_view(p)) == engaged_plan(self.members(), *goal),
    {
        let ghost ps = self.specialists@;
        let mut out: Vec<Playbook> = Vec::new();
        let mut i: usize = 0;
        while i < self.specialists.len()
            invariant
                i <= self.specialists.len(),
                ps == self.specialists@,
                out@.map_values(|p: Playbook| playbook_view(p)) == engaged_plan(
                    ps.take(i as int),
                    *goal,
                ),
            decreases self.specialists.len() - i,
        {
            proof {
                assert(ps.take(i + 1).drop_last() =~= ps.take(i as int));
                assert(ps.take(i + 1).last() == ps[i as int]);
            }
            let rel = self.specialists[i].relevance(goal);
            if rel.engages() {
                let pb = self.specialists[i].playbook();
                if pb.tactics.len() > 0 {
                    let ghost before = out@;
                    out.push(pb);
                    assert(out@.map_values(|p: Playbook| playbook_view(p)) =~= before.map_values(
                        |p: Playbook| playbook_view(p),
                    ).push(playbook_view(pb)));
                }
            }
            i = i + 1;
        }
        assert(ps.take(self.specialists.len() as int) =~= ps);
        out
    }

    /// The head agent's synthesis of the readings: which specialists
    /// engaged, in which domains, whether the goal is a boundary object,
    /// and the consensus homes, the lemmas that at least two engaged
    /// specialists cited.
    pub fn synthesise(&self, readings: &[Reading]) -> (r: Synthesis)
        requires
            citations(readings@).len() <= usize::MAX,
        ensures
            views(r.engaged_specialists@) == engaged(readings@).map_values(
                |x: Reading| x.specialist@,
            ),
            views(r.domains@) == engaged(readings@).map_values(|x: Reading| x.domain@),
            r.boundary_object == (engaged(readings@).len() >= 2),
            r.summary@ == summary_text(views(r.domains@)),
            tally_views(r.consensus_homes@) == consensus(tally(citations(readings@))),
    {
        synthesise(readings)
    }
}

/// The ledger records of a routing of a goal: one `proposed` record per
/// reading, in the order of the readings, record `i` made from reading
/// `i`, its relevance as the caller formatted it (`relevance_texts[i]`),
/// id `ids[i]` and timestamp `timestamps[i]`.
pub fn reading_records(
    goal_text: &str,
    readings: &Vec<Reading>,
    relevance_texts: &Vec<String>,
    ids: &Vec<String>,
    timestamps: &Vec<String>,
) -> (r: Vec<LedgerRecord>)
    requires
        relevance_texts@.len() == readings@.len(),
        ids@.len() == readings@.len(),
        timestamps@.len() == readings@.len(),
    ensures
        r@.len() == readings@.len(),
        forall|i: int|
            0 <= i < r@.len() ==> proposal_record(
                #[trigger] r@[i],
                readings@[i].specialist@,
                goal_text@,
                readings@[i].reading@,
                relevance_texts@[i]@,
                ids@[i],
                timestamps@[i],
            ),
{
    let mut out: Vec<LedgerRecord> = Vec::new();
    let mut i: usize = 0;
    while i < readings.len()
        invariant
            i <= readings@.len(),
            relevance_texts@.len() == readings@.len(),
            ids@.len() == readings@.len(),
            timestamps@.len() == readings@.len(),
            out@.len() == i,
            forall|j: int|
                0 <= j < i ==> proposal_record(
                    #[trigger] out@[j],
                    readings@[j].specialist@,
                    goal_text@,
                    readings@[j].reading@,
                    relevance_texts@[j]@,
                    ids@[j],
                    timestamps@[j],
                ),
        decreases readings.len() - i,
    {
        let rd = &readings[i];
        let rec = record_reading(
            rd.specialist.as_str(),
            goal_text,
            rd.reading.as_str(),
            relevance_texts[i].as_str(),
            ids[i].clone(),
            timestamps[i].clone(),
        );
        out.push(rec);
        i = i + 1;
    }
    out
}

impl Default for Swarm {
    fn default() -> (r: Self)
        ensures
            r.members().len() == 3,
            profile_of(r.members()[0], Algebraist),
            profile_of(r.members()[1], OrderTheorist),
            profile_of(r.members()[2], Combinatorialist),
    {
        Swarm::new()
    }
}

} // verus!
