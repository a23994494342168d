//! Goal-to-corpus ranking.
//!
//! The candidate homes of a goal are the corpus lemmas that share at least
//! one signature token with it, ranked by Jaccard similarity of the token
//! sets (shared tokens over all tokens of either), best first; lemmas of
//! equal similarity keep their corpus order.
use crate::corpus::{clone_strings, Corpus, IndexedLemma};
use crate::goal::{member_of, Goal};
use crate::text::{
    chars_of_all, insert_sorted, lemma_sorted_no_duplicates, strictly_sorted, strings_of,
    views, vviews,
};
use vstd::prelude::*;
use vstd::set_lib::lemma_set_intersect_union_lens;

verus! {

/// One candidate home for a goal: an indexed lemma and its similarity.
pub struct Home {
    pub lemma: IndexedLemma,
    /// Number of tokens the goal and the lemma share.
    pub shared_count: usize,
    /// Number of tokens of the goal or the lemma. The Jaccard similarity
    /// is `shared_count / union_count`.
    pub union_count: usize,
    /// The tokens the goal and the lemma share, strictly sorted.
    pub shared_tokens: Vec<String>,
}

/// A ranked entry: corpus index, shared count, union count.
pub type Entry = (int, nat, nat);

/// `a` is strictly more similar than `b` (`a.1 / a.2 > b.1 / b.2`).
pub open spec fn ranks_above(a: Entry, b: Entry) -> bool {
    a.1 * b.2 > b.1 * a.2
}

/// The similarity entries of the lemmas that share a token with the goal,
/// in corpus order.
pub open spec fn candidates(goal: Set<Seq<char>>, lemmas: Seq<IndexedLemma>) -> Seq<Entry>
    decreases lemmas.len(),
{
    if lemmas.len() == 0 {
        seq![]
    } else {
        let prev = candidates(goal, lemmas.drop_last());
        let l = lemmas.last().token_set();
        let s = goal.intersect(l).len();
        let u = (goal + l).len();
        if u > 0 && s > 0 {
            prev.push(((lemmas.len() - 1) as int, s, u))
        } else {
            prev
        }
    }
}

/// `x` placed before the first entry of `sorted` that it ranks above.
pub open spec fn insert_ranked(sorted: Seq<Entry>, x: Entry) -> Seq<Entry>
    decreases sorted.len(),
{
    if sorted.len() == 0 {
        seq![x]
    } else if ranks_above(x, sorted[0]) {
        seq![x] + sorted
    } else {
        seq![sorted[0]] + insert_ranked(sorted.drop_first(), x)
    }
}

/// The stable ordering of entries by decreasing similarity.
pub open spec fn rank_order(c: Seq<Entry>) -> Seq<Entry>
    decreases c.len(),
{
    if c.len() == 0 {
        seq![]
    } else {
        insert_ranked(rank_order(c.drop_last()), c.last())
    }
}

/// Two lemmas with the same fields.
pub open spec fn same_lemma(a: IndexedLemma, b: IndexedLemma) -> bool {
    a.name == b.name && a.statement == b.statement && a.file == b.file && a.line == b.line
        && a.kind == b.kind && a.tokens@ == b.tokens@
}

impl Home {
    /// This home is `l`, scored against the goal tokens `goal`.
    pub open spec fn describes(&self, l: IndexedLemma, goal: Set<Seq<char>>) -> bool {
        &&& same_lemma(self.lemma, l)
        &&& strictly_sorted(views(self.shared_tokens@))
        &&& views(self.shared_tokens@).to_set() == goal.intersect(l.token_set())
        &&& self.shared_count as nat == goal.intersect(l.token_set()).len()
        &&& self.union_count as nat == (goal + l.token_set()).len()
    }
}

/// The ranking of all candidate homes of `goal` in `corpus`.
pub open spec fn ranking_of(goal: Goal, corpus: Corpus) -> Seq<Entry> {
    rank_order(candidates(goal.token_set(), corpus.lemmas@))
}

/// The token counts of the goal and of each lemma fit together in a
/// `usize`.
pub open spec fn counts_fit(goal: Goal, corpus: Corpus) -> bool {
    forall|i: int|
        0 <= i < corpus.lemmas@.len() ==> goal.tokens@.len() + (#[trigger] corpus.lemmas@[i]).tokens@.len()
            <= usize::MAX
}

/// Rank corpus lemmas against a goal, returning the top `k`: the lemmas
/// sharing a token with the goal, by decreasing Jaccard similarity, ties
/// in corpus order.
pub fn rank(goal: &Goal, corpus: &Corpus, k: usize) -> (r: Vec<Home>)
    requires
        goal.well_formed(),
        corpus.well_formed(),
        counts_fit(*goal, *corpus),
    ensures
        r@.len() == if k < ranking_of(*goal, *corpus).len() {
            k as int
        } else {
            ranking_of(*goal, *corpus).len() as int
        },
        forall|m: int|
            0 <= m < r@.len() ==> 0 <= (#[trigger] ranking_of(*goal, *corpus)[m]).0
                < corpus.lemmas@.len(),
        forall|m: int|
            0 <= m < r@.len() ==> (#[trigger] r@[m]).describes(
                corpus.lemmas@[ranking_of(*goal, *corpus)[m].0],
                goal.token_set(),
            ),
        forall|m: int, n: int|
            0 <= m < n < r@.len() ==> (#[trigger] r@[m]).shared_count as int * (
            #[trigger] r@[n]).union_count as int >= r@[n].shared_count as int
                * r@[m].union_count as int,
{
    let gchars = chars_of_all(&goal.tokens);
    let ghost gset = goal.token_set();
    let ghost lemmas = corpus.lemmas@;
    let mut ranked: Vec<Home> = Vec::new();
    let ghost mut order: Seq<Entry> = seq![];
    let mut i: usize = 0;
    while i < corpus.lemmas.len()
        invariant
            i <= corpus.lemmas.len(),
            lemmas == corpus.lemmas@,
            gset == goal.token_set(),
            vviews(gchars@) == goal.token_seq(),
            goal.well_formed(),
            corpus.well_formed(),
            counts_fit(*goal, *corpus),
            order == rank_order(candidates(gset, lemmas.take(i as int))),
            ranked@.len() == order.len(),
            forall|m: int|
                0 <= m < ranked@.len() ==> 0 <= order[m].0 < i && (#[trigger] ranked@[m]).describes(
                    lemmas[order[m].0],
                    gset,
                ) && ranked@[m].shared_count as nat == order[m].1 && ranked@[m].union_count
                    as nat == order[m].2,
        decreases corpus.lemmas.len() - i,
    {
        let lemma = &corpus.lemmas[i];
        let (shared, union_count) = overlap(&gchars, goal, lemma);
        proof {
            assert(lemmas.take(i + 1).drop_last() =~= lemmas.take(i as int));
            assert(lemmas.take(i + 1).last() == lemmas[i as int]);
        }
        proof {
            let c = candidates(gset, lemmas.take(i as int));
            let c2 = candidates(gset, lemmas.take(i + 1));
            let l = lemmas[i as int].token_set();
            if shared@.len() > 0 {
                lemma_len_union_positive(gset, l);
                assert(c2 == c.push((i as int, gset.intersect(l).len(), (gset + l).len())));
                assert(c2.drop_last() =~= c);
            } else {
                assert(c2 == c);
            }
        }
        if shared.len() > 0 {
            let home = Home {
                lemma: lemma.clone(),
                shared_count: shared.len(),
                union_count,
                shared_tokens: shared,
            };
            let ghost x: Entry = (i as int, home.shared_count as nat, home.union_count as nat);
            // find the first entry that the new home ranks above
            let mut p: usize = 0;
            while p < ranked.len() && !outranks(&home, &ranked[p])
                invariant
                    p <= ranked@.len(),
                    ranked@.len() == order.len(),
                    x == (i as int, home.shared_count as nat, home.union_count as nat),
                    forall|m: int|
                        0 <= m < ranked@.len() ==> (#[trigger] ranked@[m]).shared_count as nat
                            == order[m].1 && ranked@[m].union_count as nat == order[m].2,
                    forall|m: int| 0 <= m < p ==> !ranks_above(x, #[trigger] order[m]),
                decreases ranked@.len() - p,
            {
                p = p + 1;
            }
            proof {
                lemma_insert_ranked_at(order, x, p as int);
            }
            let ghost old_ranked = ranked@;
            ranked.insert(p, home);
            proof {
                let new_order = order.take(p as int).push(x) + order.skip(p as int);
                assert forall|m: int| 0 <= m < ranked@.len() implies 0 <= new_order[m].0 < i + 1
                    && (#[trigger] ranked@[m]).describes(lemmas[new_order[m].0], gset)
                    && ranked@[m].shared_count as nat == new_order[m].1
                    && ranked@[m].union_count as nat == new_order[m].2 by {
                    if m < p {
                        assert(ranked@[m] == old_ranked[m]);
                        assert(new_order[m] == order[m]);
                    } else if m == p {
                        assert(new_order[m] == x);
                    } else {
                        assert(ranked@[m] == old_ranked[m - 1]);
                        assert(new_order[m] == order[m - 1]);
                    }
                }
                order = new_order;
            }
        }
        i = i + 1;
    }
    assert(lemmas.take(corpus.lemmas.len() as int) =~= lemmas);
    let ghost full = ranked@;
    ranked.truncate(k);
    proof {
        let ord = ranking_of(*goal, *corpus);
        assert(ord == order);
        assert(full.len() == ord.len());
        if k < ord.len() {
            assert(ranked@.len() == k);
        } else {
            assert(ranked@.len() == ord.len());
        }
        assert forall|m: int| 0 <= m < ranked@.len() implies 0 <= (#[trigger] ord[m]).0
            < corpus.lemmas@.len() by {
            assert(ranked@[m] == full[m]);
        }
        assert forall|m: int| 0 <= m < ranked@.len() implies (#[trigger] ranked@[m]).describes(
            corpus.lemmas@[ord[m].0],
            goal.token_set(),
        ) by {
            assert(ranked@[m] == full[m]);
        }
        ranking_is_sorted_stable_permutation(*goal, *corpus);
        assert forall|m: int, n: int| 0 <= m < n < ranked@.len() implies (
        #[trigger] ranked@[m]).shared_count as int * (#[trigger] ranked@[n]).union_count as int
            >= ranked@[n].shared_count as int * ranked@[m].union_count as int by {
            assert(ranked@[m] == full[m]);
            assert(ranked@[n] == full[n]);
            assert(!ranks_above(ord[n], ord[m]));
        }
    }
    ranked
}

proof fn lemma_len_union_positive(a: Set<Seq<char>>, b: Set<Seq<char>>)
    requires
        a.finite(),
        b.finite(),
        a.intersect(b).len() > 0,
    ensures
        (a + b).len() > 0,
{
    lemma_set_intersect_union_lens(a, b);
    vstd::set_lib::lemma_len_intersect(a, b);
    vstd::set_lib::lemma_len_intersect(b, a);
    assert(a.intersect(b) =~= b.intersect(a));
}

/// Whether `a` ranks strictly above `b`.
fn outranks(a: &Home, b: &Home) -> (r: bool)
    ensures
        r == ranks_above(
            (0, a.shared_count as nat, a.union_count as nat),
            (0, b.shared_count as nat, b.union_count as nat),
        ),
{
    proof {
        lemma_product_fits(a.shared_count, b.union_count);
        lemma_product_fits(b.shared_count, a.union_count);
    }
    let l = (a.shared_count as u128) * (b.union_count as u128);
    let rr = (b.shared_count as u128) * (a.union_count as u128);
    l > rr
}

pub(crate) proof fn lemma_product_fits(a: usize, b: usize)
    ensures
        (a as int) * (b as int) <= u128::MAX,
{
    assert((a as int) * (b as int) <= (usize::MAX as int) * (usize::MAX as int)) by (nonlinear_arith)
        requires
            0 <= a <= usize::MAX,
            0 <= b <= usize::MAX,
    ;
}

/// The tokens that the goal shares with a lemma, strictly sorted, and the
/// number of tokens of either.
fn overlap(gchars: &Vec<Vec<char>>, goal: &Goal, lemma: &IndexedLemma) -> (r: (Vec<String>, usize))
    requires
        vviews(gchars@) == goal.token_seq(),
        goal.well_formed(),
        lemma.well_formed(),
        goal.tokens@.len() + lemma.tokens@.len() <= usize::MAX,
    ensures
        strictly_sorted(views(r.0@)),
        views(r.0@).to_set() == goal.token_set().intersect(lemma.token_set()),
        r.0@.len() == goal.token_set().intersect(lemma.token_set()).len(),
        r.1 as nat == (goal.token_set() + lemma.token_set()).len(),
{
    let lchars = chars_of_all(&lemma.tokens);
    let ghost g = goal.token_seq();
    let ghost lset = lemma.token_set();
    let mut shared: Vec<Vec<char>> = Vec::new();
    let mut i: usize = 0;
    assert(vviews(shared@).to_set() =~= g.take(0).to_set().intersect(lset));
    while i < gchars.len()
        invariant
            i <= gchars.len(),
            vviews(gchars@) == g,
            vviews(lchars@) == lemma.token_seq(),
            lset == lemma.token_set(),
            strictly_sorted(vviews(shared@)),
            vviews(shared@).to_set() == g.take(i as int).to_set().intersect(lset),
        decreases gchars.len() - i,
    {
        let t = &gchars[i];
        let ghost before = vviews(shared@).to_set();
        proof {
            assert(g.take(i + 1) =~= g.take(i as int).push(g[i as int]));
            assert(g[i as int] == t@);
            g.take(i as int).lemma_push_to_set_commute(t@);
        }
        if member_of(&lchars, t) {
            insert_sorted(&mut shared, t.clone());
            assert(vviews(shared@).to_set() =~= g.take(i + 1).to_set().intersect(lset));
        } else {
            assert(vviews(shared@).to_set() =~= g.take(i + 1).to_set().intersect(lset));
        }
        i = i + 1;
    }
    proof {
        assert(g.take(gchars.len() as int) =~= g);
        lemma_sorted_no_duplicates(vviews(shared@));
        vviews(shared@).unique_seq_to_set();
        lemma_sorted_no_duplicates(g);
        g.unique_seq_to_set();
        lemma_sorted_no_duplicates(lemma.token_seq());
        lemma.token_seq().unique_seq_to_set();
        lemma_set_intersect_union_lens(goal.token_set(), lset);
        vstd::set_lib::lemma_len_intersect(goal.token_set(), lset);
    }
    let union_count = (gchars.len() - shared.len()) + lchars.len();
    (strings_of(&shared), union_count)
}

// ---------------------------------------------------------------------
// Lemmas about the ordering
// ---------------------------------------------------------------------

pub(crate) proof fn lemma_insert_ranked_at(s: Seq<Entry>, x: Entry, p: int)
    requires
        0 <= p <= s.len(),
        forall|m: int| 0 <= m < p ==> !ranks_above(x, #[trigger] s[m]),
        p < s.len() ==> ranks_above(x, s[p]),
    ensures
        insert_ranked(s, x) == s.take(p).push(x) + s.skip(p),
    decreases s.len(),
{
    if s.len() == 0 {
        assert(s.take(p).push(x) + s.skip(p) =~= seq![x]);
    } else if p == 0 {
        assert(s.take(0).push(x) + s.skip(0) =~= seq![x] + s);
    } else {
        let t = s.drop_first();
        assert forall|m: int| 0 <= m < p - 1 implies !ranks_above(x, #[trigger] t[m]) by {
            assert(t[m] == s[m + 1]);
        }
        if p - 1 < t.len() {
            assert(t[p - 1] == s[p]);
        }
        lemma_insert_ranked_at(t, x, p - 1);
        assert(s.take(p).push(x) + s.skip(p) =~= seq![s[0]] + (t.take(p - 1).push(x) + t.skip(
            p - 1,
        )));
    }
}


proof fn lemma_insert_ranked_position(s: Seq<Entry>, x: Entry) -> (p: int)
    ensures
        0 <= p <= s.len(),
        insert_ranked(s, x) == s.insert(p, x),
        forall|m: int| 0 <= m < p ==> !ranks_above(x, #[trigger] s[m]),
        p < s.len() ==> ranks_above(x, s[p]),
    decreases s.len(),
{
    if s.len() == 0 {
        assert(s.insert(0, x) =~= seq![x]);
        0
    } else if ranks_above(x, s[0]) {
        assert(s.insert(0, x) =~= seq![x] + s);
        0
    } else {
        let t = s.drop_first();
        let q = lemma_insert_ranked_position(t, x);
        assert(s.insert(q + 1, x) =~= seq![s[0]] + t.insert(q, x));
        assert forall|m: int| 0 <= m < q + 1 implies !ranks_above(x, #[trigger] s[m]) by {
            if m > 0 {
                assert(s[m] == t[m - 1]);
            }
        }
        if q < t.len() {
            assert(s[q + 1] == t[q]);
        }
        q + 1
    }
}

/// Every similarity entry has a positive union count.
pub open spec fn positive_unions(c: Seq<Entry>) -> bool {
    forall|i: int| 0 <= i < c.len() ==> (#[trigger] c[i]).2 > 0
}

/// The entries are ordered by non-increasing similarity.
pub open spec fn non_increasing(s: Seq<Entry>) -> bool {
    forall|i: int, j: int| 0 <= i < j < s.len() ==> !ranks_above(#[trigger] s[j], #[trigger] s[i])
}

/// Entries of equal similarity appear in increasing corpus order.
pub open spec fn ties_in_corpus_order(s: Seq<Entry>) -> bool {
    forall|i: int, j: int|
        0 <= i < j < s.len() && !ranks_above(#[trigger] s[i], #[trigger] s[j]) ==> s[i].0 < s[j].0
}

/// The corpus indices of the entries increase strictly.
pub open spec fn increasing_indices(c: Seq<Entry>) -> bool {
    forall|i: int, j: int| 0 <= i < j < c.len() ==> (#[trigger] c[i]).0 < (#[trigger] c[j]).0
}

proof fn lemma_ratio_chain(x: Entry, y: Entry, z: Entry)
    requires
        x.2 > 0,
        y.2 > 0,
        z.2 > 0,
        ranks_above(x, y),
        !ranks_above(z, y),
    ensures
        ranks_above(x, z),
{
    assert(x.1 * z.2 > z.1 * x.2) by (nonlinear_arith)
        requires
            x.2 > 0,
            y.2 > 0,
            z.2 > 0,
            x.1 * y.2 > y.1 * x.2,
            z.1 * y.2 <= y.1 * z.2,
            x.1 >= 0,
            y.1 >= 0,
            z.1 >= 0,
    ;
}

proof fn lemma_ratio_asymmetric(x: Entry, y: Entry)
    ensures
        ranks_above(x, y) ==> !ranks_above(y, x),
{
    assert(x.1 * y.2 == y.2 * x.1) by (nonlinear_arith);
    assert(y.1 * x.2 == x.2 * y.1) by (nonlinear_arith);
}

/// Law: ranking orders the candidates by non-increasing similarity, keeps
/// candidates of equal similarity in corpus order, and neither drops nor
/// duplicates a candidate.
pub proof fn rank_order_sorted_stable_permutation(c: Seq<Entry>)
    requires
        positive_unions(c),
        increasing_indices(c),
    ensures
        non_increasing(rank_order(c)),
        ties_in_corpus_order(rank_order(c)),
        rank_order(c).to_multiset() == c.to_multiset(),
    decreases c.len(),
{
    broadcast use vstd::seq_lib::group_to_multiset_ensures;

    if c.len() > 0 {
        let d = c.drop_last();
        let x = c.last();
        assert forall|i: int| 0 <= i < d.len() implies (#[trigger] d[i]).2 > 0 by {
            assert(d[i] == c[i]);
        }
        assert forall|i: int, j: int| 0 <= i < j < d.len() implies (#[trigger] d[i]).0 < (
        #[trigger] d[j]).0 by {
            assert(d[i] == c[i] && d[j] == c[j]);
        }
        rank_order_sorted_stable_permutation(d);
        let s = rank_order(d);
        let p = lemma_insert_ranked_position(s, x);
        vstd::seq_lib::to_multiset_insert(s, p, x);
        assert(c =~= d.push(x));
        // every entry of `s` is an entry of `d`
        assert forall|m: int| 0 <= m < s.len() implies (#[trigger] s[m]).2 > 0 && s[m].0 < x.0 by {
            assert(s.to_multiset().count(s[m]) > 0);
            assert(d.to_multiset().count(s[m]) > 0);
            assert(d.contains(s[m]));
            let k = choose|k: int| 0 <= k < d.len() && d[k] == s[m];
            assert(c[k] == d[k]);
            assert(c[k].0 < c[c.len() - 1].0);
        }
        let r = s.insert(p, x);
        assert(x.2 > 0) by {
            assert(c[c.len() - 1] == x);
        }
        assert forall|i: int, j: int| 0 <= i < j < r.len() implies !ranks_above(
            #[trigger] r[j],
            #[trigger] r[i],
        ) && (!ranks_above(r[i], r[j]) ==> r[i].0 < r[j].0) by {
            if j < p {
                assert(r[i] == s[i] && r[j] == s[j]);
            } else if j == p {
                assert(r[j] == x && r[i] == s[i]);
                lemma_ratio_asymmetric(r[i], x);
            } else if i == p {
                assert(r[i] == x && r[j] == s[j - 1]);
                if j - 1 == p {
                    lemma_ratio_asymmetric(x, s[p]);
                } else {
                    lemma_ratio_chain(x, s[p], s[j - 1]);
                    lemma_ratio_asymmetric(x, s[j - 1]);
                }
            } else if i < p {
                assert(r[i] == s[i] && r[j] == s[j - 1]);
            } else {
                assert(r[i] == s[i - 1] && r[j] == s[j - 1]);
            }
        }
    }
}


proof fn lemma_candidates_shape(goal: Set<Seq<char>>, lemmas: Seq<IndexedLemma>)
    ensures
        positive_unions(candidates(goal, lemmas)),
        increasing_indices(candidates(goal, lemmas)),
        forall|i: int|
            0 <= i < candidates(goal, lemmas).len() ==> 0 <= (#[trigger] candidates(
                goal,
                lemmas,
            )[i]).0 < lemmas.len() && candidates(goal, lemmas)[i].1 > 0,
    decreases lemmas.len(),
{
    if lemmas.len() > 0 {
        lemma_candidates_shape(goal, lemmas.drop_last());
    }
}

/// Law: the similarity entry of a candidate lemma holds the number of
/// tokens it shares with the goal and the number of tokens of either, and
/// a lemma is a candidate exactly when it shares a token with the goal.
pub proof fn candidates_are_jaccard_entries(goal: Set<Seq<char>>, lemmas: Seq<IndexedLemma>)
    requires
        goal.finite(),
    ensures
        forall|i: int|
            0 <= i < candidates(goal, lemmas).len() ==> {
                let e = #[trigger] candidates(goal, lemmas)[i];
                &&& 0 <= e.0 < lemmas.len()
                &&& e.1 == goal.intersect(lemmas[e.0].token_set()).len()
                &&& e.2 == (goal + lemmas[e.0].token_set()).len()
            },
        forall|j: int|
            0 <= j < lemmas.len() ==> (goal.intersect(#[trigger] lemmas[j].token_set()).len() > 0
                <==> exists|i: int|
                0 <= i < candidates(goal, lemmas).len() && #[trigger] candidates(goal, lemmas)[i].0
                    == j),
    decreases lemmas.len(),
{
    if lemmas.len() > 0 {
        let prev = lemmas.drop_last();
        candidates_are_jaccard_entries(goal, prev);
        lemma_candidates_shape(goal, prev);
        let c = candidates(goal, lemmas);
        let pc = candidates(goal, prev);
        let l = lemmas.last().token_set();
        assert forall|j: int| 0 <= j < prev.len() implies #[trigger] prev[j] == lemmas[j] by {}
        if goal.intersect(l).len() > 0 {
            vstd::seq_lib::seq_to_set_is_finite(lemmas.last().token_seq());
            lemma_len_union_positive(goal, l);
            assert(c == pc.push(((lemmas.len() - 1) as int, goal.intersect(l).len(), (goal + l).len())));
        } else {
            assert(c == pc);
        }
        assert forall|j: int| 0 <= j < lemmas.len() implies (goal.intersect(
            #[trigger] lemmas[j].token_set(),
        ).len() > 0 <==> exists|i: int|
            0 <= i < c.len() && #[trigger] c[i].0 == j) by {
            if j < prev.len() {
                assert(prev[j] == lemmas[j]);
                if exists|i: int| 0 <= i < c.len() && #[trigger] c[i].0 == j {
                    let i = choose|i: int| 0 <= i < c.len() && #[trigger] c[i].0 == j;
                    if i < pc.len() {
                        assert(c[i] == pc[i]);
                    }
                }
                if exists|i: int| 0 <= i < pc.len() && #[trigger] pc[i].0 == j {
                    let i = choose|i: int| 0 <= i < pc.len() && #[trigger] pc[i].0 == j;
                    assert(c[i] == pc[i]);
                }
            } else {
                if goal.intersect(l).len() > 0 {
                    assert(c[pc.len() as int].0 == j);
                } else {
                    if exists|i: int| 0 <= i < c.len() && #[trigger] c[i].0 == j {
                        let i = choose|i: int| 0 <= i < c.len() && #[trigger] c[i].0 == j;
                        assert(pc[i].0 < prev.len());
                    }
                }
            }
        }
    }
}

/// Law: the candidate homes of a goal, before truncation to the top `k`,
/// come in non-increasing similarity, ties in corpus order, each corpus
/// lemma that shares a token with the goal exactly once.
pub proof fn ranking_is_sorted_stable_permutation(goal: Goal, corpus: Corpus)
    ensures
        non_increasing(ranking_of(goal, corpus)),
        ties_in_corpus_order(ranking_of(goal, corpus)),
        ranking_of(goal, corpus).to_multiset() == candidates(
            goal.token_set(),
            corpus.lemmas@,
        ).to_multiset(),
{
    lemma_candidates_shape(goal.token_set(), corpus.lemmas@);
    rank_order_sorted_stable_permutation(candidates(goal.token_set(), corpus.lemmas@));
}

} // verus!
