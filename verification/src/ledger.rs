//! The Burrow Ledger: an append-only log of every approach a specialist
//! tried, with its result and what was learned.
//!
//! Records are stored one per line as JSON by the host program; this
//! module holds the record types and the queries over a ledger's records.
use crate::format::{
    decimal, decimal_chars, decimal_padded, decimal_padded_chars, decimal_padded_denotes, digits_value,
    hex_chars, hex_digits, is_digit,
};
use crate::text::{append_str, chars_of, str_eq, string_from, string_of};
use std::hash::{Hash, Hasher};
use vstd::prelude::*;

verus! {

/// How an approach was attempted.
pub struct Approach {
    pub description: String,
    pub tactics_attempted: Vec<String>,
    pub preconditions_assumed: Vec<String>,
}

/// The outcome of an approach: `succeeded`, `failed`, `partial`,
/// `abandoned`, `proposed`, and the oracle's `blocked` and `advisory`.
pub struct RecordResult {
    pub status: String,
    pub explanation: String,
    pub artifacts: Vec<String>,
}

/// A lesson extracted from an approach.
pub struct Learning {
    pub pattern_extracted: String,
    /// `positive`, `anti-pattern`, `specialisation`, `boundary`, or one of
    /// the oracle's kinds.
    pub pattern_kind: String,
    pub generalisation: String,
    /// Specialist names that should see this learning; empty means all.
    pub visible_to: Vec<String>,
}

/// One ledger record.
pub struct LedgerRecord {
    /// Unique time-orderable id (millis since epoch and a sequence number).
    pub id: String,
    /// `epoch:<seconds>`.
    pub timestamp: String,
    /// Eight hexadecimal digits of the goal text's hash.
    pub goal_hash: String,
    /// The first 200 characters of the goal text.
    pub goal_excerpt: String,
    /// The specialist that authored the record.
    pub specialist: String,
    pub approach: Option<Approach>,
    pub result: Option<RecordResult>,
    pub learning: Option<Learning>,
}

/// The ledger handle: where the records are stored.
pub struct Ledger {
    path: String,
}

impl Ledger {
    /// A handle on the ledger stored at `path`.
    pub fn new(path: &str) -> (r: Self)
        ensures
            r.path_view() == path@,
    {
        Ledger { path: string_from(path) }
    }

    /// The storage path as text.
    pub closed spec fn path_view(&self) -> Seq<char> {
        self.path@
    }

    /// The storage path.
    pub fn path(&self) -> (r: &str)
        ensures
            r@ == self.path_view(),
    {
        self.path.as_str()
    }

    /// The `limit` most recent records, newest first.
    pub fn recent(records: Vec<LedgerRecord>, limit: usize) -> (r: Vec<LedgerRecord>)
        ensures
            r@ == records@.reverse().take(
                if limit < records@.len() {
                    limit as int
                } else {
                    records@.len() as int
                },
            ),
    {
        let ghost all = records@;
        let mut rest = records;
        let mut out: Vec<LedgerRecord> = Vec::new();
        while out.len() < limit && rest.len() > 0
            invariant
                out@.len() <= limit,
                out@.len() + rest@.len() == all.len(),
                rest@ == all.take(rest@.len() as int),
                out@ == all.reverse().take(out@.len() as int),
            decreases rest@.len(),
        {
            let ghost n = rest@.len();
            let r = rest.pop().unwrap();
            assert(r == all[n - 1]);
            let ghost before = out@;
            out.push(r);
            assert(rest@ =~= all.take(n - 1));
            assert(out@ =~= all.reverse().take(out@.len() as int)) by {
                assert forall|i: int| 0 <= i < out@.len() implies out@[i] == all.reverse()[i] by {
                    if i < before.len() {
                        assert(out@[i] == before[i]);
                    }
                }
            }
        }
        proof {
            if out@.len() < limit {
                assert(rest@.len() == 0);
            }
        }
        out
    }

    /// The records for which `predicate` answered `true`, in ledger order.
    pub fn query<F: Fn(&LedgerRecord) -> bool>(records: Vec<LedgerRecord>, predicate: F) -> (r: Vec<
        LedgerRecord,
    >)
        requires
            forall|x: &LedgerRecord| #[trigger] predicate.requires((x,)),
        ensures
            exists|answers: Seq<bool>|
                {
                    &&& answers.len() == records@.len()
                    &&& forall|i: int|
                        0 <= i < answers.len() ==> predicate.ensures(
                            (&records@[i],),
                            #[trigger] answers[i],
                        )
                    &&& r@ == selected(records@, answers)
                },
    {
        let ghost all = records@;
        let ghost mut answers: Seq<bool> = seq![];
        let mut out: Vec<LedgerRecord> = Vec::new();
        for rec in it: records
            invariant
                it.seq() == all,
                forall|x: &LedgerRecord| #[trigger] predicate.requires((x,)),
                answers.len() == it.index(),
                forall|i: int|
                    0 <= i < answers.len() ==> predicate.ensures((&all[i],), #[trigger] answers[i]),
                out@ == selected(all.take(it.index() as int), answers),
        {
            let ghost k = it.index();
            let keep = predicate(&rec);
            proof {
                assert(all.take(k + 1).drop_last() =~= all.take(k));
                assert(all.take(k + 1).last() == rec);
                let next = answers.push(keep);
                assert(next.drop_last() =~= answers);
                assert forall|i: int| 0 <= i < next.len() implies predicate.ensures(
                    (&all[i],),
                    #[trigger] next[i],
                ) by {
                    if i < answers.len() {
                        assert(next[i] == answers[i]);
                    }
                }
                answers = next;
            }
            if keep {
                out.push(rec);
            }
        }
        proof {
            assert(all.take(all.len() as int) =~= all);
        }
        out
    }

    /// The records authored by `name`, in ledger order.
    pub fn by_specialist(records: Vec<LedgerRecord>, name: &str) -> (r: Vec<LedgerRecord>)
        ensures
            r@ == records_by_specialist(records@, name@),
    {
        let ghost all = records@;
        let mut out: Vec<LedgerRecord> = Vec::new();
        for rec in it: records
            invariant
                it.seq() == all,
                out@ == records_by_specialist(all.take(it.index() as int), name@),
        {
            let ghost k = it.index();
            proof {
                assert(all.take(k + 1).drop_last() =~= all.take(k));
                assert(all.take(k + 1).last() == rec);
            }
            if str_eq(rec.specialist.as_str(), name) {
                out.push(rec);
            }
        }
        proof {
            assert(all.take(all.len() as int) =~= all);
        }
        out
    }

    /// The records about the goal whose hash is `hash`, in ledger order.
    pub fn by_goal_hash(records: Vec<LedgerRecord>, hash: &str) -> (r: Vec<LedgerRecord>)
        ensures
            r@ == records_by_goal_hash(records@, hash@),
    {
        let ghost all = records@;
        let mut out: Vec<LedgerRecord> = Vec::new();
        for rec in it: records
            invariant
                it.seq() == all,
                out@ == records_by_goal_hash(all.take(it.index() as int), hash@),
        {
            let ghost k = it.index();
            proof {
                assert(all.take(k + 1).drop_last() =~= all.take(k));
                assert(all.take(k + 1).last() == rec);
            }
            if str_eq(rec.goal_hash.as_str(), hash) {
                out.push(rec);
            }
        }
        proof {
            assert(all.take(all.len() as int) =~= all);
        }
        out
    }

    /// The anti-patterns among the records' learnings that `specialist`
    /// may see: those visible to all, and those naming it.
    pub fn anti_patterns_for(records: Vec<LedgerRecord>, specialist: &str) -> (r: Vec<Learning>)
        ensures
            r@ == anti_patterns_spec(records@, specialist@),
    {
        let ghost all = records@;
        let mut out: Vec<Learning> = Vec::new();
        for rec in it: records
            invariant
                it.seq() == all,
                out@ == anti_patterns_spec(all.take(it.index() as int), specialist@),
        {
            let ghost k = it.index();
            proof {
                assert(all.take(k + 1).drop_last() =~= all.take(k));
                assert(all.take(k + 1).last() == rec);
            }
            match rec.learning {
                Some(l) => {
                    if str_eq(l.pattern_kind.as_str(), "anti-pattern") && visible_to(
                        &l,
                        specialist,
                    ) {
                        out.push(l);
                    }
                },
                None => {},
            }
        }
        proof {
            assert(all.take(all.len() as int) =~= all);
        }
        out
    }
}

/// The records whose answer is `true`, in order.
pub open spec fn selected(recs: Seq<LedgerRecord>, answers: Seq<bool>) -> Seq<LedgerRecord>
    decreases recs.len(),
{
    if recs.len() == 0 || answers.len() == 0 {
        seq![]
    } else {
        let prev = selected(recs.drop_last(), answers.drop_last());
        if answers.last() {
            prev.push(recs.last())
        } else {
            prev
        }
    }
}

/// The records of `recs` authored by `name`, in order.
pub open spec fn records_by_specialist(recs: Seq<LedgerRecord>, name: Seq<char>) -> Seq<LedgerRecord>
    decreases recs.len(),
{
    if recs.len() == 0 {
        seq![]
    } else {
        let prev = records_by_specialist(recs.drop_last(), name);
        if recs.last().specialist@ == name {
            prev.push(recs.last())
        } else {
            prev
        }
    }
}

/// The records of `recs` whose goal hash is `hash`, in order.
pub open spec fn records_by_goal_hash(recs: Seq<LedgerRecord>, hash: Seq<char>) -> Seq<LedgerRecord>
    decreases recs.len(),
{
    if recs.len() == 0 {
        seq![]
    } else {
        let prev = records_by_goal_hash(recs.drop_last(), hash);
        if recs.last().goal_hash@ == hash {
            prev.push(recs.last())
        } else {
            prev
        }
    }
}

/// `l` may be seen by `who`: it names no audience, or names `who`.
pub open spec fn visible(l: Learning, who: Seq<char>) -> bool {
    l.visible_to@.len() == 0 || exists|i: int|
        0 <= i < l.visible_to@.len() && (#[trigger] l.visible_to@[i])@ == who
}

/// The anti-pattern learnings of `recs` that `who` may see, in order.
pub open spec fn anti_patterns_spec(recs: Seq<LedgerRecord>, who: Seq<char>) -> Seq<Learning>
    decreases recs.len(),
{
    if recs.len() == 0 {
        seq![]
    } else {
        let prev = anti_patterns_spec(recs.drop_last(), who);
        match recs.last().learning {
            Some(l) => if l.pattern_kind@ == "anti-pattern"@ && visible(l, who) {
                prev.push(l)
            } else {
                prev
            },
            None => prev,
        }
    }
}

/// Whether `who` may see `l`.
pub fn visible_to(l: &Learning, who: &str) -> (r: bool)
    ensures
        r == visible(*l, who@),
{
    if l.visible_to.len() == 0 {
        return true;
    }
    let mut i: usize = 0;
    while i < l.visible_to.len()
        invariant
            i <= l.visible_to@.len(),
            forall|j: int| 0 <= j < i ==> (#[trigger] l.visible_to@[j])@ != who@,
        decreases l.visible_to@.len() - i,
    {
        if str_eq(l.visible_to[i].as_str(), who) {
            return true;
        }
        i = i + 1;
    }
    false
}

// ---------------------------------------------------------------------
// Goal hashes, ids, timestamps
// ---------------------------------------------------------------------

/// What `DefaultHasher::new()` yields for the goal text `s` hashed with
/// `Hash::hash`. `DefaultHasher::new` is documented to give the same
/// output for the same input within one Rust release.
pub uninterp spec fn goal_hash_value(s: Seq<char>) -> u64;

/// Hashes `text` with the standard library's `DefaultHasher`.
#[verifier::external_body]
fn hash_text(text: &str) -> (r: u64)
    ensures
        r == goal_hash_value(text@),
{
    let mut h = std::collections::hash_map::DefaultHasher::new();
    text.hash(&mut h);
    h.finish()
}

/// The goal hash of a text: the eight lowercase hexadecimal digits of the
/// low 32 bits of its 64-bit hash.
pub fn goal_hash(goal_text: &str) -> (r: String)
    ensures
        r@ == hex_digits(goal_hash_value(goal_text@) as nat, 8),
{
    let h = hash_text(goal_text);
    let digits = hex_chars(h, 8);
    string_of(&digits)
}

/// The first 200 characters of `text`.
pub fn excerpt(text: &str) -> (r: String)
    ensures
        r@ == text@.take(if text@.len() < 200 { text@.len() as int } else { 200 }),
{
    let cs = chars_of(text);
    let n = if cs.len() < 200 {
        cs.len()
    } else {
        200
    };
    let part = crate::text::slice_chars(&cs, 0, n);
    assert(part@ =~= text@.take(n as int));
    string_of(&part)
}

/// A record id: milliseconds, padded to thirteen digits, a dash, and a
/// sequence number padded to four digits.
pub open spec fn id_text(millis: nat, seq_no: nat) -> Seq<char> {
    decimal_padded(millis, 13) + "-"@ + decimal_padded(seq_no, 4)
}

/// The record id for a millisecond time and a sequence number.
pub fn format_id(millis: u64, seq_no: u64) -> (r: String)
    ensures
        r@ == id_text(millis as nat, seq_no as nat),
{
    let mut v = decimal_padded_chars(millis, 13);
    append_str(&mut v, "-");
    let tail = decimal_padded_chars(seq_no, 4);
    crate::text::append_chars(&mut v, &tail);
    string_of(&v)
}

/// Milliseconds since the Unix epoch by the system clock (0 when the
/// clock is set before the epoch).
#[verifier::external_body]
fn clock_millis() -> u64 {
    std::time::SystemTime::now()
        .duration_since(std::time::UNIX_EPOCH)
        .map(|d| d.as_millis() as u64)
        .unwrap_or(0)
}

/// Seconds since the Unix epoch by the system clock (0 when the clock is
/// set before the epoch).
#[verifier::external_body]
fn clock_secs() -> u64 {
    std::time::SystemTime::now()
        .duration_since(std::time::UNIX_EPOCH)
        .map(|d| d.as_secs())
        .unwrap_or(0)
}

/// A new record id from the clock and the caller's sequence number; the
/// caller keeps the sequence counter, one number per id.
pub fn new_id(seq_no: u64) -> (r: String)
    ensures
        exists|millis: nat| millis <= u64::MAX && r@ == id_text(millis, seq_no as nat),
{
    let ms = clock_millis();
    format_id(ms, seq_no)
}

/// A process's source of record ids: the clock and a sequence number that
/// advances by one (wrapping) with every id drawn.
pub struct IdSequence {
    next: u64,
}

impl IdSequence {
    /// The sequence number of the next id.
    pub closed spec fn next_seq(&self) -> u64 {
        self.next
    }

    /// A sequence that starts at zero.
    pub fn new() -> (r: Self)
        ensures
            r.next_seq() == 0,
    {
        IdSequence { next: 0 }
    }

    /// Draws the next id: the clock's milliseconds and this sequence's next
    /// number.
    pub fn next_id(&mut self) -> (r: String)
        ensures
            exists|millis: nat| millis <= u64::MAX && r@ == id_text(millis, old(self).next_seq() as nat),
            final(self).next_seq() as nat == (old(self).next_seq() as nat + 1) % 0x1_0000_0000_0000_0000,
    {
        let id = new_id(self.next);
        self.next = self.next.wrapping_add(1);
        id
    }
}

/// Law: two ids drawn one after the other from a sequence differ, whatever
/// the clock reads.
pub proof fn consecutive_ids_differ(m1: nat, m2: nat, s: u64)
    ensures
        id_text(m1, s as nat) != id_text(m2, (s as nat + 1) % 0x1_0000_0000_0000_0000),
{
    if id_text(m1, s as nat) == id_text(m2, (s as nat + 1) % 0x1_0000_0000_0000_0000) {
        id_text_injective(m1, s as nat, m2, (s as nat + 1) % 0x1_0000_0000_0000_0000);
    }
}

/// Law: two ids drawn from a sequence with fewer than 2^64 draws between
/// them differ, whatever the clock reads at either draw.
pub proof fn draws_apart_differ(m1: nat, m2: nat, s: u64, n: nat)
    requires
        0 < n < 0x1_0000_0000_0000_0000,
    ensures
        id_text(m1, s as nat) != id_text(m2, (s as nat + n) % 0x1_0000_0000_0000_0000),
{
    let later = (s as nat + n) % 0x1_0000_0000_0000_0000;
    if id_text(m1, s as nat) == id_text(m2, later) {
        id_text_injective(m1, s as nat, m2, later);
        if s as nat + n < 0x1_0000_0000_0000_0000 {
            assert(later == s as nat + n);
        } else {
            assert(later == s as nat + n - 0x1_0000_0000_0000_0000);
        }
    }
}

/// A timestamp `epoch:<seconds>` for a given number of seconds.
pub fn format_epoch(secs: u64) -> (r: String)
    ensures
        r@ == "epoch:"@ + decimal(secs as nat),
{
    let mut v = chars_of("epoch:");
    let d = decimal_chars(secs);
    crate::text::append_chars(&mut v, &d);
    string_of(&v)
}

/// The current timestamp `epoch:<seconds>`.
pub fn now_iso() -> (r: String)
    ensures
        exists|secs: nat| secs <= u64::MAX && r@ == "epoch:"@ + decimal(secs),
{
    let s = clock_secs();
    format_epoch(s)
}

/// `r` is the ledger record of `specialist`'s reading of a goal, with id
/// `id` and timestamp `timestamp`: status `proposed`, and the relevance
/// (as the caller formatted it) and the reading in the explanation.
pub open spec fn proposal_record(
    r: LedgerRecord,
    specialist: Seq<char>,
    goal_text: Seq<char>,
    reading: Seq<char>,
    relevance_text: Seq<char>,
    id: String,
    timestamp: String,
) -> bool {
    &&& r.id == id
    &&& r.timestamp == timestamp
    &&& r.goal_hash@ == hex_digits(goal_hash_value(goal_text) as nat, 8)
    &&& r.goal_excerpt@ == goal_text.take(
        if goal_text.len() < 200 {
            goal_text.len() as int
        } else {
            200
        },
    )
    &&& r.specialist@ == specialist
    &&& r.approach matches Some(a) && a.description@ == "read goal in "@ + specialist
        + " vocabulary"@ && a.tactics_attempted@.len() == 0 && a.preconditions_assumed@.len() == 0
    &&& r.result matches Some(res) && res.status@ == "proposed"@ && res.explanation@
        == "relevance="@ + relevance_text + ", reading: "@ + reading && res.artifacts@.len() == 0
    &&& r.learning is None
}

/// The ledger record of a specialist's reading of a goal, with the given
/// id and timestamp: status `proposed`, the relevance (as the caller
/// formatted it) and the reading in the explanation.
pub fn record_reading(
    specialist: &str,
    goal_text: &str,
    reading: &str,
    relevance_text: &str,
    id: String,
    timestamp: String,
) -> (r: LedgerRecord)
    ensures
        proposal_record(r, specialist@, goal_text@, reading@, relevance_text@, id, timestamp),
{
    let mut desc = chars_of("read goal in ");
    append_str(&mut desc, specialist);
    append_str(&mut desc, " vocabulary");
    let mut expl = chars_of("relevance=");
    append_str(&mut expl, relevance_text);
    append_str(&mut expl, ", reading: ");
    append_str(&mut expl, reading);
    LedgerRecord {
        id,
        timestamp,
        goal_hash: goal_hash(goal_text),
        goal_excerpt: excerpt(goal_text),
        specialist: string_from(specialist),
        approach: Some(
            Approach {
                description: string_of(&desc),
                tactics_attempted: Vec::new(),
                preconditions_assumed: Vec::new(),
            },
        ),
        result: Some(
            RecordResult {
                status: string_from("proposed"),
                explanation: string_of(&expl),
                artifacts: Vec::new(),
            },
        ),
        learning: None,
    }
}

/// Law: two goal texts get the same goal hash exactly when their 64-bit
/// hash values agree in their low 32 bits (the eight hexadecimal digits).
pub proof fn goal_hash_agrees_iff_low_bits_agree(a: Seq<char>, b: Seq<char>)
    ensures
        (hex_digits(goal_hash_value(a) as nat, 8) == hex_digits(goal_hash_value(b) as nat, 8)) == (
        goal_hash_value(a) as nat % 0x1_0000_0000 == goal_hash_value(b) as nat % 0x1_0000_0000),
{
    assert(crate::format::pow16(8) == 0x1_0000_0000) by {
        reveal_with_fuel(crate::format::pow16, 9);
    }
    crate::format::hex_digits_agree_iff_congruent(goal_hash_value(a) as nat, goal_hash_value(b) as nat, 8);
}

/// Law: distinct (time, sequence number) pairs give distinct record ids,
/// so ids drawn with distinct sequence numbers never collide.
pub proof fn id_text_injective(m1: nat, s1: nat, m2: nat, s2: nat)
    requires
        id_text(m1, s1) == id_text(m2, s2),
    ensures
        m1 == m2,
        s1 == s2,
{
    reveal_strlit("-");
    let a = decimal_padded(m1, 13);
    let b = decimal_padded(s1, 4);
    let c = decimal_padded(m2, 13);
    let d = decimal_padded(s2, 4);
    decimal_padded_denotes(m1, 13);
    decimal_padded_denotes(s1, 4);
    decimal_padded_denotes(m2, 13);
    decimal_padded_denotes(s2, 4);
    let x = id_text(m1, s1);
    assert(x == a + "-"@ + b);
    assert(x == c + "-"@ + d);
    assert(x[a.len() as int] == '-');
    assert(x[c.len() as int] == '-');
    if a.len() < c.len() {
        assert(x[a.len() as int] == c[a.len() as int]);
        assert(is_digit(c[a.len() as int]));
    }
    if c.len() < a.len() {
        assert(x[c.len() as int] == a[c.len() as int]);
        assert(is_digit(a[c.len() as int]));
    }
    assert(a.len() == c.len());
    assert(a =~= x.take(a.len() as int));
    assert(c =~= x.take(c.len() as int));
    assert(b =~= x.skip(a.len() as int + 1));
    assert(d =~= x.skip(c.len() as int + 1));
}

} // verus!
