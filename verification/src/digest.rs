//! Summaries of ledger records and of attempts, as the command line
//! reports them: counts per specialist, per result status and per cited
//! pattern, and the tally of an attempt's outcomes.
use crate::attempt::{AttemptResult, ProofAttempt};
use crate::ledger::LedgerRecord;
use crate::ranking::{non_increasing, rank_order, ranks_above, ties_in_corpus_order, Entry};
use crate::text::{chars_eq, chars_of, chars_of_all, insert_sorted, strictly_sorted, string_of, views, vviews};
use vstd::prelude::*;

verus! {

/// A key and how many times it occurs.
pub struct KeyCount {
    pub key: String,
    pub count: usize,
}

/// The content of key counts.
pub open spec fn kc_view(v: Seq<KeyCount>) -> Seq<(Seq<char>, nat)> {
    v.map_values(|x: KeyCount| (x.key@, x.count as nat))
}

/// The keys of key counts.
pub open spec fn kc_keys(v: Seq<(Seq<char>, nat)>) -> Seq<Seq<char>> {
    v.map_values(|x: (Seq<char>, nat)| x.0)
}

/// How many times `k` occurs in `keys`.
pub open spec fn occurrences(keys: Seq<Seq<char>>, k: Seq<char>) -> nat
    decreases keys.len(),
{
    if keys.len() == 0 {
        0
    } else {
        occurrences(keys.drop_last(), k) + if keys.last() == k {
            1nat
        } else {
            0nat
        }
    }
}

/// `kc` counts `keys`: each distinct key once, in increasing order, with
/// the number of its occurrences.
pub open spec fn counted(kc: Seq<(Seq<char>, nat)>, keys: Seq<Seq<char>>) -> bool {
    &&& strictly_sorted(kc_keys(kc))
    &&& kc_keys(kc).to_set() == keys.to_set()
    &&& forall|i: int| 0 <= i < kc.len() ==> (#[trigger] kc[i]).1 == occurrences(keys, kc[i].0)
}

/// The count entries of key counts: index, count, and a unit denominator,
/// so that they rank by count.
pub open spec fn count_entries(kc: Seq<(Seq<char>, nat)>) -> Seq<Entry>
    decreases kc.len(),
{
    if kc.len() == 0 {
        seq![]
    } else {
        count_entries(kc.drop_last()).push(((kc.len() - 1) as int, kc.last().1, 1nat))
    }
}

/// The most frequent keys first, keys of equal count in key order.
pub open spec fn by_frequency(kc: Seq<(Seq<char>, nat)>) -> Seq<Entry> {
    rank_order(count_entries(kc))
}

/// The specialist of each record.
pub open spec fn specialists_of(rs: Seq<LedgerRecord>) -> Seq<Seq<char>> {
    rs.map_values(|r: LedgerRecord| r.specialist@)
}

/// The result status of each record that has a result.
pub open spec fn statuses_of(rs: Seq<LedgerRecord>) -> Seq<Seq<char>>
    decreases rs.len(),
{
    if rs.len() == 0 {
        seq![]
    } else {
        match rs.last().result {
            Some(res) => statuses_of(rs.drop_last()).push(res.status@),
            None => statuses_of(rs.drop_last()),
        }
    }
}

/// The extracted pattern of each record that has a learning.
pub open spec fn patterns_of(rs: Seq<LedgerRecord>) -> Seq<Seq<char>>
    decreases rs.len(),
{
    if rs.len() == 0 {
        seq![]
    } else {
        match rs.last().learning {
            Some(l) => patterns_of(rs.drop_last()).push(l.pattern_extracted@),
            None => patterns_of(rs.drop_last()),
        }
    }
}

/// Law: the cited patterns are the extracted patterns of the records that
/// carry a learning, whatever the learning's kind, one per such record and
/// in ledger order; so every learning's pattern is cited.
pub proof fn every_learning_is_cited(rs: Seq<LedgerRecord>)
    ensures
        patterns_of(rs) == rs.filter(|r: LedgerRecord| r.learning is Some).map_values(
            |r: LedgerRecord| r.learning->0.pattern_extracted@,
        ),
        forall|i: int|
            0 <= i < rs.len() ==> ((#[trigger] rs[i]).learning matches Some(l) ==> patterns_of(
                rs,
            ).contains(l.pattern_extracted@)),
    decreases rs.len(),
{
    let has = |r: LedgerRecord| r.learning is Some;
    let pat = |r: LedgerRecord| r.learning->0.pattern_extracted@;
    if rs.len() > 0 {
        let prev = rs.drop_last();
        every_learning_is_cited(prev);
        assert(rs.filter(has) == if has(rs.last()) {
            prev.filter(has).push(rs.last())
        } else {
            prev.filter(has)
        }) by {
            reveal_with_fuel(Seq::filter, 1);
            assert(rs.drop_last() == prev);
        }
        if has(rs.last()) {
            assert(prev.filter(has).push(rs.last()).map_values(pat) =~= prev.filter(has).map_values(
                pat,
            ).push(pat(rs.last())));
        }
        assert forall|i: int| 0 <= i < rs.len() implies ((#[trigger] rs[i]).learning matches Some(
            l,
        ) ==> patterns_of(rs).contains(l.pattern_extracted@)) by {
            if i < prev.len() {
                assert(rs[i] == prev[i]);
                if let Some(l) = rs[i].learning {
                    let k = choose|k: int|
                        0 <= k < patterns_of(prev).len() && patterns_of(prev)[k]
                            == l.pattern_extracted@;
                    if has(rs.last()) {
                        assert(patterns_of(rs)[k] == patterns_of(prev)[k]);
                    }
                }
            } else {
                if let Some(l) = rs[i].learning {
                    assert(patterns_of(rs).last() == l.pattern_extracted@);
                }
            }
        }
    } else {
        assert(rs.filter(has) =~= seq![]) by {
            reveal_with_fuel(Seq::filter, 1);
        }
    }
}

/// Law: the counted statuses are the result statuses of the records that
/// carry a result, one per such record and in ledger order.
pub proof fn every_result_is_counted(rs: Seq<LedgerRecord>)
    ensures
        statuses_of(rs) == rs.filter(|r: LedgerRecord| r.result is Some).map_values(
            |r: LedgerRecord| r.result->0.status@,
        ),
    decreases rs.len(),
{
    let has = |r: LedgerRecord| r.result is Some;
    let st = |r: LedgerRecord| r.result->0.status@;
    if rs.len() > 0 {
        let prev = rs.drop_last();
        every_result_is_counted(prev);
        assert(rs.filter(has) == if has(rs.last()) {
            prev.filter(has).push(rs.last())
        } else {
            prev.filter(has)
        }) by {
            reveal_with_fuel(Seq::filter, 1);
        }
        if has(rs.last()) {
            assert(prev.filter(has).push(rs.last()).map_values(st) =~= prev.filter(has).map_values(
                st,
            ).push(st(rs.last())));
        }
    } else {
        assert(rs.filter(has) =~= seq![]) by {
            reveal_with_fuel(Seq::filter, 1);
        }
    }
}

/// The ledger digest.
pub struct Digest {
    /// Number of records.
    pub records: usize,
    /// Records per specialist, by specialist name.
    pub by_specialist: Vec<KeyCount>,
    /// Records per result status, by status.
    pub by_status: Vec<KeyCount>,
    /// The ten most cited patterns, most cited first, patterns cited
    /// equally often in key order.
    pub top_patterns: Vec<KeyCount>,
}

proof fn lemma_occurrences_bound(keys: Seq<Seq<char>>, k: Seq<char>)
    ensures
        occurrences(keys, k) <= keys.len(),
    decreases keys.len(),
{
    if keys.len() > 0 {
        lemma_occurrences_bound(keys.drop_last(), k);
    }
}

/// How many times `k` occurs in `keys`.
fn count_equal(keys: &Vec<Vec<char>>, k: &Vec<char>) -> (r: usize)
    ensures
        r == occurrences(vviews(keys@), k@),
{
    let ghost kv = vviews(keys@);
    let mut n: usize = 0;
    let mut i: usize = 0;
    while i < keys.len()
        invariant
            i <= keys.len(),
            kv == vviews(keys@),
            n == occurrences(kv.take(i as int), k@),
            n <= i,
        decreases keys.len() - i,
    {
        assert(kv.take(i + 1).drop_last() =~= kv.take(i as int));
        assert(kv.take(i + 1).last() == keys@[i as int]@);
        if chars_eq(&keys[i], k) {
            n = n + 1;
        }
        i = i + 1;
    }
    assert(kv.take(keys.len() as int) =~= kv);
    n
}

/// The counts of the keys, in key order.
pub fn count_keys(keys: &Vec<String>) -> (r: Vec<KeyCount>)
    ensures
        counted(kc_view(r@), views(keys@)),
{
    let kv = chars_of_all(keys);
    let ghost ks = views(keys@);
    let mut names: Vec<Vec<char>> = Vec::new();
    let mut i: usize = 0;
    while i < kv.len()
        invariant
            i <= kv.len(),
            vviews(kv@) == ks,
            strictly_sorted(vviews(names@)),
            vviews(names@).to_set() == ks.take(i as int).to_set(),
        decreases kv.len() - i,
    {
        proof {
            assert(ks.take(i + 1) =~= ks.take(i as int).push(ks[i as int]));
            ks.take(i as int).lemma_push_to_set_commute(ks[i as int]);
        }
        insert_sorted(&mut names, kv[i].clone());
        i = i + 1;
    }
    assert(ks.take(kv.len() as int) =~= ks);
    let mut out: Vec<KeyCount> = Vec::new();
    let mut j: usize = 0;
    while j < names.len()
        invariant
            j <= names.len(),
            vviews(kv@) == ks,
            kc_keys(kc_view(out@)) == vviews(names@).take(j as int),
            forall|m: int| 0 <= m < out@.len() ==> (#[trigger] kc_view(out@)[m]).1 == occurrences(ks, kc_view(out@)[m].0),
        decreases names.len() - j,
    {
        let c = count_equal(&kv, &names[j]);
        let ghost before = out@;
        out.push(KeyCount { key: string_of(&names[j]), count: c });
        assert(kc_view(out@) =~= kc_view(before).push((names@[j as int]@, c as nat)));
        assert(kc_keys(kc_view(out@)) =~= kc_keys(kc_view(before)).push(names@[j as int]@));
        assert(vviews(names@).take(j + 1) =~= vviews(names@).take(j as int).push(names@[j as int]@));
        j = j + 1;
    }
    assert(vviews(names@).take(names.len() as int) =~= vviews(names@));
    out
}

/// The ten most frequent of the key counts `kc`, most frequent first,
/// equal counts in the order of `kc`.
pub fn top_by_count(kc: &Vec<KeyCount>, limit: usize) -> (r: Vec<KeyCount>)
    ensures
        r@.len() == if limit < kc@.len() {
            limit as int
        } else {
            kc@.len() as int
        },
        forall|m: int|
            0 <= m < r@.len() ==> {
                let x = #[trigger] by_frequency(kc_view(kc@))[m].0;
                0 <= x < kc@.len() && kc_view(r@)[m] == kc_view(kc@)[x]
            },
{
    let ghost kv = kc_view(kc@);
    let mut sorted: Vec<KeyCount> = Vec::new();
    let ghost mut order: Seq<Entry> = seq![];
    let mut i: usize = 0;
    while i < kc.len()
        invariant
            i <= kc.len(),
            kv == kc_view(kc@),
            order == rank_order(count_entries(kv.take(i as int))),
            sorted@.len() == order.len(),
            sorted@.len() == i,
            forall|m: int|
                0 <= m < sorted@.len() ==> {
                    let x = #[trigger] order[m].0;
                    &&& 0 <= x < i
                    &&& order[m] == (x, sorted@[m].count as nat, 1nat)
                    &&& kc_view(sorted@)[m] == kv[x]
                },
        decreases kc.len() - i,
    {
        let ci = kc[i].count;
        let ghost x: Entry = (i as int, ci as nat, 1nat);
        proof {
            assert(kv.take(i + 1).drop_last() =~= kv.take(i as int));
            assert(kv.take(i + 1).last() == kv[i as int]);
            assert(count_entries(kv.take(i + 1)).drop_last() =~= count_entries(kv.take(i as int)));
        }
        let mut p: usize = 0;
        while p < sorted.len() && sorted[p].count >= ci
            invariant
                p <= sorted@.len(),
                sorted@.len() == order.len(),
                x == (i as int, ci as nat, 1nat),
                forall|m: int|
                    0 <= m < sorted@.len() ==> #[trigger] order[m] == (
                        order[m].0,
                        sorted@[m].count as nat,
                        1nat,
                    ),
                forall|m: int| 0 <= m < p ==> !ranks_above(x, #[trigger] order[m]),
            decreases sorted@.len() - p,
        {
            proof {
                let o = order[p as int];
                assert(o == (o.0, sorted@[p as int].count as nat, 1nat));
                assert(x.1 * o.2 == x.1 && o.1 * x.2 == o.1) by (nonlinear_arith)
                    requires
                        o.2 == 1,
                        x.2 == 1,
                ;
            }
            p = p + 1;
        }
        proof {
            if p < sorted@.len() {
                let o = order[p as int];
                assert(o == (o.0, sorted@[p as int].count as nat, 1nat));
                assert(x.1 * o.2 == x.1 && o.1 * x.2 == o.1) by (nonlinear_arith)
                    requires
                        o.2 == 1,
                        x.2 == 1,
                ;
            }
            crate::ranking::lemma_insert_ranked_at(order, x, p as int);
        }
        let ghost old_sorted = sorted@;
        let item = KeyCount { key: kc[i].key.clone(), count: kc[i].count };
        sorted.insert(p, item);
        proof {
            let new_order = order.take(p as int).push(x) + order.skip(p as int);
            assert forall|m: int| 0 <= m < sorted@.len() implies {
                let y = #[trigger] new_order[m].0;
                &&& 0 <= y < i + 1
                &&& new_order[m] == (y, sorted@[m].count as nat, 1nat)
                &&& kc_view(sorted@)[m] == kv[y]
            } by {
                if m < p {
                    assert(sorted@[m] == old_sorted[m]);
                    assert(new_order[m] == order[m]);
                } else if m == p {
                    assert(new_order[m] == x);
                } else {
                    assert(sorted@[m] == old_sorted[m - 1]);
                    assert(new_order[m] == order[m - 1]);
                }
            }
            order = new_order;
        }
        i = i + 1;
    }
    assert(kv.take(kc.len() as int) =~= kv);
    let ghost full = sorted@;
    sorted.truncate(limit);
    proof {
        assert forall|m: int| 0 <= m < sorted@.len() implies {
            let x = #[trigger] by_frequency(kv)[m].0;
            0 <= x < kc@.len() && kc_view(sorted@)[m] == kv[x]
        } by {
            assert(sorted@[m] == full[m]);
        }
    }
    sorted
}

proof fn lemma_count_entries_shape(kc: Seq<(Seq<char>, nat)>)
    ensures
        count_entries(kc).len() == kc.len(),
        forall|i: int|
            0 <= i < kc.len() ==> (#[trigger] count_entries(kc)[i]) == (i, kc[i].1, 1nat),
    decreases kc.len(),
{
    if kc.len() > 0 {
        lemma_count_entries_shape(kc.drop_last());
    }
}

/// Law: the frequency order puts more frequent keys first, keeps keys of
/// equal frequency in their order, and lists every key exactly once.
pub proof fn by_frequency_is_stable_sort(kc: Seq<(Seq<char>, nat)>)
    ensures
        non_increasing(by_frequency(kc)),
        ties_in_corpus_order(by_frequency(kc)),
        by_frequency(kc).to_multiset() == count_entries(kc).to_multiset(),
{
    lemma_count_entries_shape(kc);
    crate::ranking::rank_order_sorted_stable_permutation(count_entries(kc));
}

/// The ledger digest of the records: their number, the counts per
/// specialist and per result status, and the ten most cited patterns.
pub fn digest(records: &Vec<LedgerRecord>) -> (r: Digest)
    ensures
        r.records == records@.len(),
        counted(kc_view(r.by_specialist@), specialists_of(records@)),
        counted(kc_view(r.by_status@), statuses_of(records@)),
        exists|pc: Seq<(Seq<char>, nat)>|
            {
                &&& counted(pc, patterns_of(records@))
                &&& r.top_patterns@.len() == if 10 < pc.len() {
                    10
                } else {
                    pc.len() as int
                }
                &&& forall|m: int|
                    0 <= m < r.top_patterns@.len() ==> {
                        let x = #[trigger] by_frequency(pc)[m].0;
                        0 <= x < pc.len() && kc_view(r.top_patterns@)[m] == pc[x]
                    }
            },
{
    let ghost rs = records@;
    let mut specs: Vec<String> = Vec::new();
    let mut statuses: Vec<String> = Vec::new();
    let mut patterns: Vec<String> = Vec::new();
    let mut i: usize = 0;
    while i < records.len()
        invariant
            i <= records.len(),
            rs == records@,
            views(specs@) == specialists_of(rs.take(i as int)),
            views(statuses@) == statuses_of(rs.take(i as int)),
            views(patterns@) == patterns_of(rs.take(i as int)),
        decreases records.len() - i,
    {
        let r = &records[i];
        proof {
            assert(rs.take(i + 1).drop_last() =~= rs.take(i as int));
            assert(rs.take(i + 1).last() == rs[i as int]);
        }
        let ghost b1 = specs@;
        specs.push(r.specialist.clone());
        assert(views(specs@) =~= views(b1).push(r.specialist@));
        assert(specialists_of(rs.take(i + 1)) =~= specialists_of(rs.take(i as int)).push(
            r.specialist@,
        ));
        match &r.result {
            Some(res) => {
                let ghost b2 = statuses@;
                statuses.push(res.status.clone());
                assert(views(statuses@) =~= views(b2).push(res.status@));
            },
            None => {},
        }
        match &r.learning {
            Some(l) => {
                let ghost b3 = patterns@;
                patterns.push(l.pattern_extracted.clone());
                assert(views(patterns@) =~= views(b3).push(l.pattern_extracted@));
            },
            None => {},
        }
        i = i + 1;
    }
    assert(rs.take(records.len() as int) =~= rs);
    let by_specialist = count_keys(&specs);
    let by_status = count_keys(&statuses);
    let pattern_counts = count_keys(&patterns);
    let top_patterns = top_by_count(&pattern_counts, 10);
    Digest { records: records.len(), by_specialist, by_status, top_patterns }
}

// ---------------------------------------------------------------------
// Attempt summaries
// ---------------------------------------------------------------------

/// The tally of an attempt's outcomes.
pub struct AttemptSummary {
    /// Number of attempts.
    pub attempts: usize,
    /// Number of distinct specialists that attempted.
    pub specialists: usize,
    pub succeeded: usize,
    /// Failures and timeouts.
    pub failed: usize,
    pub skipped: usize,
}

/// The number of attempts whose outcome satisfies `f`.
pub open spec fn count_where(a: Seq<ProofAttempt>, f: spec_fn(AttemptResult) -> bool) -> nat
    decreases a.len(),
{
    if a.len() == 0 {
        0
    } else {
        count_where(a.drop_last(), f) + if f(a.last().result) {
            1nat
        } else {
            0nat
        }
    }
}

/// The outcome counts as a failure: it failed or timed out.
pub open spec fn is_failure(r: AttemptResult) -> bool {
    r is Failed || r is Timeout
}

/// The specialists of the attempts.
pub open spec fn attempt_specialists(a: Seq<ProofAttempt>) -> Set<Seq<char>> {
    a.map_values(|x: ProofAttempt| x.specialist@).to_set()
}

proof fn lemma_count_where_bound(a: Seq<ProofAttempt>, f: spec_fn(AttemptResult) -> bool)
    ensures
        count_where(a, f) <= a.len(),
    decreases a.len(),
{
    if a.len() > 0 {
        lemma_count_where_bound(a.drop_last(), f);
    }
}

/// The tally of the attempts: how many succeeded, failed (or timed out)
/// and were skipped, and how many specialists took part.
pub fn summarise_attempts(attempts: &Vec<ProofAttempt>) -> (r: AttemptSummary)
    ensures
        r.attempts == attempts@.len(),
        r.specialists == attempt_specialists(attempts@).len(),
        r.succeeded == count_where(attempts@, |x: AttemptResult| x is Succeeded),
        r.failed == count_where(attempts@, |x: AttemptResult| is_failure(x)),
        r.skipped == count_where(attempts@, |x: AttemptResult| x is Skipped),
{
    let ghost a = attempts@;
    let ghost fs = |x: AttemptResult| x is Succeeded;
    let ghost ff = |x: AttemptResult| is_failure(x);
    let ghost fk = |x: AttemptResult| x is Skipped;
    let mut names: Vec<Vec<char>> = Vec::new();
    let mut succeeded: usize = 0;
    let mut failed: usize = 0;
    let mut skipped: usize = 0;
    let mut i: usize = 0;
    while i < attempts.len()
        invariant
            i <= attempts.len(),
            a == attempts@,
            fs == (|x: AttemptResult| x is Succeeded),
            ff == (|x: AttemptResult| is_failure(x)),
            fk == (|x: AttemptResult| x is Skipped),
            succeeded == count_where(a.take(i as int), fs),
            failed == count_where(a.take(i as int), ff),
            skipped == count_where(a.take(i as int), fk),
            succeeded <= i,
            failed <= i,
            skipped <= i,
            strictly_sorted(vviews(names@)),
            vviews(names@).to_set() == attempt_specialists(a.take(i as int)),
        decreases attempts.len() - i,
    {
        let at = &attempts[i];
        proof {
            assert(a.take(i + 1).drop_last() =~= a.take(i as int));
            assert(a.take(i + 1).last() == a[i as int]);
            lemma_count_where_bound(a.take(i as int), fs);
            lemma_count_where_bound(a.take(i as int), ff);
            lemma_count_where_bound(a.take(i as int), fk);
            let sv = a.take(i as int).map_values(|x: ProofAttempt| x.specialist@);
            assert(a.take(i + 1).map_values(|x: ProofAttempt| x.specialist@) =~= sv.push(
                at.specialist@,
            ));
            sv.lemma_push_to_set_commute(at.specialist@);
        }
        match &at.result {
            AttemptResult::Succeeded { .. } => {
                succeeded = succeeded + 1;
            },
            AttemptResult::Skipped { .. } => {
                skipped = skipped + 1;
            },
            _ => {
                failed = failed + 1;
            },
        }
        let sc = chars_of(at.specialist.as_str());
        insert_sorted(&mut names, sc);
        i = i + 1;
    }
    assert(a.take(attempts.len() as int) =~= a);
    proof {
        crate::text::lemma_sorted_no_duplicates(vviews(names@));
        vviews(names@).unique_seq_to_set();
    }
    AttemptSummary {
        attempts: attempts.len(),
        specialists: names.len(),
        succeeded,
        failed,
        skipped,
    }
}

} // verus!
