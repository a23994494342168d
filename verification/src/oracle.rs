//! Pre-proof oracle.
//!
//! When a goal can be checked numerically, an oracle process runs before
//! any proof attempt and prints verdict lines `oracle: <verdict> ...`. A
//! `disagree` or `fuzz-counter` verdict blocks the attempt: the statement
//! itself is suspect. This module interprets the oracle's output and turns
//! a verdict into a ledger record; the host program runs the process.
use crate::ledger::{excerpt, goal_hash, Approach, Learning, LedgerRecord, RecordResult};
use crate::format::decimal;
use crate::text::{
    debug_quoted, debug_str,
    append_chars, append_str, chars_of, lines, lines_seq, slice_chars, starts_with_seq,
    starts_with_str, string_from, string_of, trim, trim_seq,
};
use vstd::prelude::*;

verus! {

/// Oracle invocation parameters.
pub struct OracleConfig {
    /// Path of the oracle script.
    pub script: String,
    /// Path of the descriptor that the oracle checks.
    pub descriptor: String,
    /// Path of the interpreter that runs the script.
    pub julia: String,
    /// Optional project directory handed to the interpreter.
    pub project: Option<String>,
}

/// Verdict parsed from the oracle's output.
#[derive(Debug)]
pub enum OracleVerdict {
    /// The oracle agreed with the statement; safe to proceed.
    Agree { detail: String },
    /// The oracle disagreed: the statement is suspect; do not attempt it.
    Disagree { detail: String },
    /// The oracle's own fuzz pass found an inconsistency.
    FuzzCounter { detail: String },
    /// The oracle is self-consistent but says nothing about this statement.
    FuzzClean { detail: String },
    /// The oracle could not interpret the descriptor.
    Inapplicable { reason: String },
    /// The oracle process failed.
    SubprocessError { reason: String },
}

/// The variants of a verdict.
pub enum VerdictKind {
    Agree,
    Disagree,
    FuzzCounter,
    FuzzClean,
    Inapplicable,
    SubprocessError,
}

impl OracleVerdict {
    /// The verdict's variant.
    pub open spec fn kind(&self) -> VerdictKind {
        match self {
            OracleVerdict::Agree { .. } => VerdictKind::Agree,
            OracleVerdict::Disagree { .. } => VerdictKind::Disagree,
            OracleVerdict::FuzzCounter { .. } => VerdictKind::FuzzCounter,
            OracleVerdict::FuzzClean { .. } => VerdictKind::FuzzClean,
            OracleVerdict::Inapplicable { .. } => VerdictKind::Inapplicable,
            OracleVerdict::SubprocessError { .. } => VerdictKind::SubprocessError,
        }
    }

    /// The verdict's detail or reason text.
    pub open spec fn text(&self) -> Seq<char> {
        match self {
            OracleVerdict::Agree { detail } => detail@,
            OracleVerdict::Disagree { detail } => detail@,
            OracleVerdict::FuzzCounter { detail } => detail@,
            OracleVerdict::FuzzClean { detail } => detail@,
            OracleVerdict::Inapplicable { reason } => reason@,
            OracleVerdict::SubprocessError { reason } => reason@,
        }
    }

    /// True iff the swarm should skip the proof attempt: the statement is
    /// suspect or the oracle is inconsistent.
    pub fn blocks_attempt(&self) -> (r: bool)
        ensures
            r == blocking(self.kind()),
    {
        match self {
            OracleVerdict::Disagree { .. } => true,
            OracleVerdict::FuzzCounter { .. } => true,
            _ => false,
        }
    }

    /// The ledger pattern kind for this verdict.
    pub fn pattern_kind(&self) -> (r: &'static str)
        ensures
            r@ == pattern_kind_of(self.kind()),
    {
        match self {
            OracleVerdict::Disagree { .. } => "oracle-counter-example",
            OracleVerdict::FuzzCounter { .. } => "oracle-fuzz-counter",
            OracleVerdict::Agree { .. } => "oracle-agree",
            OracleVerdict::FuzzClean { .. } => "oracle-fuzz-clean",
            OracleVerdict::Inapplicable { .. } => "oracle-inapplicable",
            OracleVerdict::SubprocessError { .. } => "oracle-subprocess-error",
        }
    }
}

/// Verdicts that block a proof attempt.
pub open spec fn blocking(k: VerdictKind) -> bool {
    k is Disagree || k is FuzzCounter
}

/// The ledger pattern kind of a verdict variant.
pub open spec fn pattern_kind_of(k: VerdictKind) -> Seq<char> {
    match k {
        VerdictKind::Disagree => "oracle-counter-example"@,
        VerdictKind::FuzzCounter => "oracle-fuzz-counter"@,
        VerdictKind::Agree => "oracle-agree"@,
        VerdictKind::FuzzClean => "oracle-fuzz-clean"@,
        VerdictKind::Inapplicable => "oracle-inapplicable"@,
        VerdictKind::SubprocessError => "oracle-subprocess-error"@,
    }
}

// ---------------------------------------------------------------------
// Parsing the oracle's output
// ---------------------------------------------------------------------

/// The verdict that one payload (the text after `oracle:`) states.
pub open spec fn classify(payload: Seq<char>) -> (VerdictKind, Seq<char>) {
    if starts_with_seq(payload, "agree"@) {
        (VerdictKind::Agree, payload)
    } else if starts_with_seq(payload, "disagree"@) {
        (VerdictKind::Disagree, payload)
    } else if starts_with_seq(payload, "fuzz-counter"@) {
        (VerdictKind::FuzzCounter, payload)
    } else if starts_with_seq(payload, "fuzz-clean"@) {
        (VerdictKind::FuzzClean, payload)
    } else if starts_with_seq(payload, "inapplicable"@) {
        (VerdictKind::Inapplicable, payload)
    } else {
        (VerdictKind::Inapplicable, "unparsed verdict shape: "@ + payload)
    }
}

/// The verdict of one output line, if it is a verdict line: after
/// trimming, it starts with `oracle:`, and the rest, trimmed, is the
/// payload.
pub open spec fn line_verdict(line: Seq<char>) -> Option<(VerdictKind, Seq<char>)> {
    let t = trim_seq(line);
    if starts_with_seq(t, "oracle:"@) {
        Some(classify(trim_seq(t.skip("oracle:"@.len() as int))))
    } else {
        None
    }
}

/// The verdict of a sequence of lines: the first blocking verdict line's,
/// or, when no verdict line blocks, the first verdict line's.
pub open spec fn verdict_of_lines(ls: Seq<Seq<char>>) -> Option<(VerdictKind, Seq<char>)>
    decreases ls.len(),
{
    if ls.len() == 0 {
        None
    } else {
        let prev = verdict_of_lines(ls.drop_last());
        match line_verdict(ls.last()) {
            None => prev,
            Some(v) => match prev {
                None => Some(v),
                Some(p) => if blocking(v.0) && !blocking(p.0) {
                    Some(v)
                } else {
                    Some(p)
                },
            },
        }
    }
}

/// The verdict of the oracle's whole output.
pub open spec fn verdict_of_output(stdout: Seq<char>) -> (VerdictKind, Seq<char>) {
    match verdict_of_lines(lines_seq(stdout)) {
        Some(v) => v,
        None => (VerdictKind::Inapplicable, "no `oracle:` line in stdout"@),
    }
}

/// The verdict one payload states.
fn classify_payload(payload: &Vec<char>) -> (r: OracleVerdict)
    ensures
        (r.kind(), r.text()) == classify(payload@),
{
    if starts_with_str(payload, "agree") {
        OracleVerdict::Agree { detail: string_of(payload) }
    } else if starts_with_str(payload, "disagree") {
        OracleVerdict::Disagree { detail: string_of(payload) }
    } else if starts_with_str(payload, "fuzz-counter") {
        OracleVerdict::FuzzCounter { detail: string_of(payload) }
    } else if starts_with_str(payload, "fuzz-clean") {
        OracleVerdict::FuzzClean { detail: string_of(payload) }
    } else if starts_with_str(payload, "inapplicable") {
        OracleVerdict::Inapplicable { reason: string_of(payload) }
    } else {
        let mut text = chars_of("unparsed verdict shape: ");
        append_chars(&mut text, payload);
        OracleVerdict::Inapplicable { reason: string_of(&text) }
    }
}

/// The spec view of an optional verdict.
pub open spec fn opt_verdict(o: Option<OracleVerdict>) -> Option<(VerdictKind, Seq<char>)> {
    match o {
        Some(v) => Some((v.kind(), v.text())),
        None => None,
    }
}

/// Parse the oracle's output: the first verdict line wins, except that a
/// blocking verdict is preferred over non-blocking ones (the first blocking
/// line wins); without a verdict line the oracle is inapplicable.
pub fn parse_verdict(stdout: &str) -> (r: OracleVerdict)
    ensures
        (r.kind(), r.text()) == verdict_of_output(stdout@),
{
    let text = chars_of(stdout);
    let ls = lines(&text);
    let ghost lsv = ls@.map_values(|l: Vec<char>| l@);
    let prefix = chars_of("oracle:");
    let mut last: Option<OracleVerdict> = None;
    let mut i: usize = 0;
    while i < ls.len()
        invariant
            i <= ls.len(),
            lsv == ls@.map_values(|l: Vec<char>| l@),
            prefix@ == "oracle:"@,
            opt_verdict(last) == verdict_of_lines(lsv.take(i as int)),
        decreases ls.len() - i,
    {
        proof {
            assert(lsv.take(i + 1).drop_last() =~= lsv.take(i as int));
            assert(lsv.take(i + 1).last() == ls@[i as int]@);
        }
        let line = trim(&ls[i]);
        if crate::text::starts_with(&line, &prefix) {
            let rest = slice_chars(&line, prefix.len(), line.len());
            assert(rest@ =~= line@.skip("oracle:"@.len() as int));
            let payload = trim(&rest);
            let verdict = classify_payload(&payload);
            last = match last {
                None => Some(verdict),
                Some(prev) => if verdict.blocks_attempt() && !prev.blocks_attempt() {
                    Some(verdict)
                } else {
                    Some(prev)
                },
            };
        }
        i = i + 1;
    }
    assert(lsv.take(ls.len() as int) =~= lsv);
    match last {
        Some(v) => v,
        None => OracleVerdict::Inapplicable { reason: string_from("no `oracle:` line in stdout") },
    }
}

/// A verdict line that blocks the attempt.
pub open spec fn line_blocks(line: Seq<char>) -> bool {
    match line_verdict(line) {
        Some(w) => blocking(w.0),
        None => false,
    }
}

/// An outcome that blocks the attempt.
pub open spec fn outcome_blocks(o: Option<(VerdictKind, Seq<char>)>) -> bool {
    match o {
        Some(v) => blocking(v.0),
        None => false,
    }
}

/// Law: the parsed verdict blocks the attempt exactly when some verdict
/// line of the output blocks it.
pub proof fn verdict_blocks_iff_some_line_blocks(ls: Seq<Seq<char>>)
    ensures
        outcome_blocks(verdict_of_lines(ls)) <==> exists|i: int|
            0 <= i < ls.len() && #[trigger] line_blocks(ls[i]),
    decreases ls.len(),
{
    if ls.len() > 0 {
        let d = ls.drop_last();
        verdict_blocks_iff_some_line_blocks(d);
        assert forall|i: int| 0 <= i < d.len() implies #[trigger] line_blocks(d[i])
            == line_blocks(ls[i]) by {
            assert(d[i] == ls[i]);
        }
        if outcome_blocks(verdict_of_lines(d)) {
            let i = choose|i: int| 0 <= i < d.len() && #[trigger] line_blocks(d[i]);
            assert(line_blocks(ls[i]));
        }
        if exists|i: int| 0 <= i < ls.len() && #[trigger] line_blocks(ls[i]) {
            let i = choose|i: int| 0 <= i < ls.len() && #[trigger] line_blocks(ls[i]);
            if i < d.len() {
                assert(line_blocks(d[i]));
            }
        }
        assert(ls.last() == ls[ls.len() - 1]);
        if line_blocks(ls.last()) {
            assert(line_blocks(ls[ls.len() - 1]));
        }
    }
}

/// Law: when some verdict line blocks, the first blocking line decides.
pub proof fn first_blocking_verdict_wins(ls: Seq<Seq<char>>, i: int)
    requires
        0 <= i < ls.len(),
        line_blocks(ls[i]),
        forall|j: int| 0 <= j < i ==> !(#[trigger] line_blocks(ls[j])),
    ensures
        verdict_of_lines(ls) == line_verdict(ls[i]),
    decreases ls.len(),
{
    let d = ls.drop_last();
    if i < ls.len() - 1 {
        assert forall|j: int| 0 <= j < i implies !(#[trigger] line_blocks(d[j])) by {
            assert(d[j] == ls[j]);
        }
        assert(d[i] == ls[i]);
        first_blocking_verdict_wins(d, i);
    } else {
        assert forall|j: int| 0 <= j < d.len() implies !(#[trigger] line_blocks(d[j])) by {
            assert(d[j] == ls[j]);
        }
        lemma_no_blocking_outcome(d);
        assert(ls.last() == ls[i]);
    }
}

proof fn lemma_no_blocking_outcome(ls: Seq<Seq<char>>)
    requires
        forall|j: int| 0 <= j < ls.len() ==> !(#[trigger] line_blocks(ls[j])),
    ensures
        !outcome_blocks(verdict_of_lines(ls)),
{
    verdict_blocks_iff_some_line_blocks(ls);
}

/// Law: when no verdict line blocks, the first verdict line decides.
pub proof fn first_verdict_wins_without_blocking(ls: Seq<Seq<char>>, i: int)
    requires
        0 <= i < ls.len(),
        line_verdict(ls[i]) is Some,
        forall|j: int| 0 <= j < i ==> line_verdict(#[trigger] ls[j]) is None,
        forall|j: int| 0 <= j < ls.len() ==> !(#[trigger] line_blocks(ls[j])),
    ensures
        verdict_of_lines(ls) == line_verdict(ls[i]),
    decreases ls.len(),
{
    let d = ls.drop_last();
    if i < ls.len() - 1 {
        assert forall|j: int| 0 <= j < i implies line_verdict(#[trigger] d[j]) is None by {
            assert(d[j] == ls[j]);
        }
        assert forall|j: int| 0 <= j < d.len() implies !(#[trigger] line_blocks(d[j])) by {
            assert(d[j] == ls[j]);
        }
        assert(d[i] == ls[i]);
        first_verdict_wins_without_blocking(d, i);
        assert(ls.last() == ls[ls.len() - 1]);
        assert(!line_blocks(ls[ls.len() - 1]));
    } else {
        assert forall|j: int| 0 <= j < d.len() implies line_verdict(#[trigger] d[j]) is None by {
            assert(d[j] == ls[j]);
        }
        lemma_no_verdict_lines(d);
        assert(ls.last() == ls[i]);
    }
}

proof fn lemma_no_verdict_lines(ls: Seq<Seq<char>>)
    requires
        forall|j: int| 0 <= j < ls.len() ==> line_verdict(#[trigger] ls[j]) is None,
    ensures
        verdict_of_lines(ls) is None,
    decreases ls.len(),
{
    if ls.len() > 0 {
        let d = ls.drop_last();
        assert forall|j: int| 0 <= j < d.len() implies line_verdict(#[trigger] d[j]) is None by {
            assert(d[j] == ls[j]);
        }
        lemma_no_verdict_lines(d);
        assert(line_verdict(ls[ls.len() - 1]) is None);
    }
}

// ---------------------------------------------------------------------
// The oracle process
// ---------------------------------------------------------------------

/// The arguments the oracle interpreter is started with: the optional
/// `--project=<dir>`, the script, the descriptor.
pub open spec fn oracle_args_spec(c: OracleConfig) -> Seq<Seq<char>> {
    match c.project {
        Some(p) => seq!["--project="@ + p@, c.script@, c.descriptor@],
        None => seq![c.script@, c.descriptor@],
    }
}

/// The arguments to start the oracle interpreter with.
pub fn oracle_args(config: &OracleConfig) -> (r: Vec<String>)
    ensures
        crate::text::views(r@) == oracle_args_spec(*config),
{
    let mut out: Vec<String> = Vec::new();
    match &config.project {
        Some(p) => {
            let mut v = chars_of("--project=");
            append_str(&mut v, p.as_str());
            out.push(string_of(&v));
        },
        None => {},
    }
    out.push(config.script.clone());
    out.push(config.descriptor.clone());
    assert(crate::text::views(out@) =~= oracle_args_spec(*config));
    out
}

/// The verdict when the oracle process could not be started.
pub fn spawn_failure(message: &str) -> (r: OracleVerdict)
    ensures
        r.kind() is SubprocessError,
        r.text() == "failed to spawn julia: "@ + message@,
{
    let mut v = chars_of("failed to spawn julia: ");
    append_str(&mut v, message);
    OracleVerdict::SubprocessError { reason: string_of(&v) }
}

/// Decimal text of a signed exit code.
pub open spec fn signed_decimal(n: int) -> Seq<char> {
    if n < 0 {
        "-"@ + decimal((-n) as nat)
    } else {
        decimal(n as nat)
    }
}

/// The last line of `s`, or nothing when it has no line.
pub open spec fn last_line(s: Seq<char>) -> Seq<char> {
    if lines_seq(s).len() == 0 {
        seq![]
    } else {
        lines_seq(s).last()
    }
}

/// The verdict of a finished oracle process: a failure report when it did
/// not exit successfully, naming the exit code (-1 when killed by a
/// signal) and the first 160 characters of the last line of its error
/// output; otherwise the verdict of its standard output.
pub open spec fn process_verdict(success: bool, code: Option<i32>, stdout: Seq<char>, stderr: Seq<char>)
    -> (VerdictKind, Seq<char>) {
    if !success {
        let c: int = match code {
            Some(c) => c as int,
            None => -1,
        };
        let tail = last_line(stderr);
        (
            VerdictKind::SubprocessError,
            "julia exit "@ + signed_decimal(c) + " \u{2014} stderr tail: "@ + tail.take(
                if tail.len() < 160 {
                    tail.len() as int
                } else {
                    160
                },
            ),
        )
    } else {
        verdict_of_output(stdout)
    }
}

/// The verdict of a finished oracle process.
pub fn verdict_from_process(success: bool, code: Option<i32>, stdout: &str, stderr: &str) -> (r:
    OracleVerdict)
    ensures
        (r.kind(), r.text()) == process_verdict(success, code, stdout@, stderr@),
{
    if !success {
        let c: i64 = match code {
            Some(c) => c as i64,
            None => -1,
        };
        let mut v = chars_of("julia exit ");
        if c < 0 {
            v.push('-');
            let d = crate::format::decimal_chars((0 - c) as u64);
            append_chars(&mut v, &d);
        } else {
            let d = crate::format::decimal_chars(c as u64);
            append_chars(&mut v, &d);
        }
        append_str(&mut v, " \u{2014} stderr tail: ");
        let err = chars_of(stderr);
        let ls = lines(&err);
        let ghost lsv = ls@.map_values(|l: Vec<char>| l@);
        let tail: Vec<char> = if ls.len() == 0 {
            Vec::new()
        } else {
            assert(lsv.last() == ls@[ls.len() - 1]@);
            ls[ls.len() - 1].clone()
        };
        let n = if tail.len() < 160 {
            tail.len()
        } else {
            160
        };
        let part = slice_chars(&tail, 0, n);
        append_chars(&mut v, &part);
        proof {
            reveal_strlit("-");
            let cc: int = match code {
                Some(c) => c as int,
                None => -1,
            };
            assert(cc == c);
            assert(part@ =~= last_line(stderr@).take(n as int));
            let expect = process_verdict(success, code, stdout@, stderr@);
            assert(v@ =~= expect.1);
        }
        OracleVerdict::SubprocessError { reason: string_of(&v) }
    } else {
        parse_verdict(stdout)
    }
}

// ---------------------------------------------------------------------
// Ledger record of a verdict
// ---------------------------------------------------------------------

/// The name of a verdict variant.
pub open spec fn variant_name(k: VerdictKind) -> Seq<char> {
    match k {
        VerdictKind::Agree => "Agree"@,
        VerdictKind::Disagree => "Disagree"@,
        VerdictKind::FuzzCounter => "FuzzCounter"@,
        VerdictKind::FuzzClean => "FuzzClean"@,
        VerdictKind::Inapplicable => "Inapplicable"@,
        VerdictKind::SubprocessError => "SubprocessError"@,
    }
}

/// The name of the text field of a verdict variant.
pub open spec fn field_name(k: VerdictKind) -> Seq<char> {
    match k {
        VerdictKind::Inapplicable | VerdictKind::SubprocessError => "reason"@,
        _ => "detail"@,
    }
}

/// A verdict as its `Debug` form shows it: the variant, and its text field
/// with the text quoted and escaped, as in `Agree { detail: "..." }`.
pub open spec fn verdict_debug_text(v: OracleVerdict) -> Seq<char> {
    variant_name(v.kind()) + " { "@ + field_name(v.kind()) + ": "@ + debug_quoted(v.text())
        + " }"@
}

/// Renders a verdict as its `Debug` form shows it.
pub fn debug_text(v: &OracleVerdict) -> (r: String)
    ensures
        r@ == verdict_debug_text(*v),
{
    let (name, field, text): (&str, &str, &String) = match v {
        OracleVerdict::Agree { detail } => ("Agree", "detail", detail),
        OracleVerdict::Disagree { detail } => ("Disagree", "detail", detail),
        OracleVerdict::FuzzCounter { detail } => ("FuzzCounter", "detail", detail),
        OracleVerdict::FuzzClean { detail } => ("FuzzClean", "detail", detail),
        OracleVerdict::Inapplicable { reason } => ("Inapplicable", "reason", reason),
        OracleVerdict::SubprocessError { reason } => ("SubprocessError", "reason", reason),
    };
    let quoted = debug_str(text.as_str());
    let mut out = chars_of(name);
    append_str(&mut out, " { ");
    append_str(&mut out, field);
    append_str(&mut out, ": ");
    append_str(&mut out, quoted.as_str());
    append_str(&mut out, " }");
    string_of(&out)
}

/// The generalisation a verdict records.
pub open spec fn generalisation_of(k: VerdictKind, text: Seq<char>) -> Seq<char> {
    match k {
        VerdictKind::Disagree => "LEMMA SUSPECT: oracle disagreed \u{2014} "@ + text
            + "; skip proof attempt."@,
        VerdictKind::FuzzCounter => "ORACLE INCONSISTENT: fuzz pass found counter-example \u{2014} "@
            + text + "."@,
        VerdictKind::Agree => "Oracle ground-truthed lemma statement: "@ + text + "."@,
        VerdictKind::FuzzClean => "Oracle is self-consistent on this family: "@ + text + "."@,
        VerdictKind::Inapplicable => "Oracle had nothing to say: "@ + text + "."@,
        VerdictKind::SubprocessError => "Oracle subprocess failed: "@ + text + "."@,
    }
}

fn generalisation(v: &OracleVerdict) -> (r: String)
    ensures
        r@ == generalisation_of(v.kind(), v.text()),
{
    let (head, text, tail): (&str, &String, &str) = match v {
        OracleVerdict::Disagree { detail } => (
            "LEMMA SUSPECT: oracle disagreed \u{2014} ",
            detail,
            "; skip proof attempt.",
        ),
        OracleVerdict::FuzzCounter { detail } => (
            "ORACLE INCONSISTENT: fuzz pass found counter-example \u{2014} ",
            detail,
            ".",
        ),
        OracleVerdict::Agree { detail } => ("Oracle ground-truthed lemma statement: ", detail, "."),
        OracleVerdict::FuzzClean { detail } => (
            "Oracle is self-consistent on this family: ",
            detail,
            ".",
        ),
        OracleVerdict::Inapplicable { reason } => ("Oracle had nothing to say: ", reason, "."),
        OracleVerdict::SubprocessError { reason } => ("Oracle subprocess failed: ", reason, "."),
    };
    let mut out = chars_of(head);
    append_str(&mut out, text.as_str());
    append_str(&mut out, tail);
    string_of(&out)
}

/// The ledger record of an oracle verdict about a goal, with the given id
/// and timestamp.
pub fn oracle_record(
    goal_raw: &str,
    config: &OracleConfig,
    verdict: &OracleVerdict,
    id: String,
    timestamp: String,
) -> (r: LedgerRecord)
    ensures
        r.id == id,
        r.timestamp == timestamp,
        r.goal_hash@ == crate::format::hex_digits(
            crate::ledger::goal_hash_value(goal_raw@) as nat,
            8,
        ),
        r.goal_excerpt@ == goal_raw@.take(
            if goal_raw@.len() < 200 {
                goal_raw@.len() as int
            } else {
                200
            },
        ),
        r.specialist@ == "Oracle"@,
        r.approach matches Some(a) && a.description@ == "ran julia-oracle.jl on descriptor "@
            + config.descriptor@ && crate::text::views(a.tactics_attempted@) == seq![
            "julia-oracle"@,
        ] && a.preconditions_assumed@.len() == 0,
        r.result matches Some(res) && res.status@ == (if blocking(verdict.kind()) {
            "blocked"@
        } else {
            "advisory"@
        }) && res.explanation@ == verdict_debug_text(*verdict) && res.artifacts@.len() == 0,
        r.learning matches Some(l) && l.pattern_extracted@ == "oracle-"@ + config.descriptor@
            && l.pattern_kind@ == pattern_kind_of(verdict.kind()) && l.generalisation@
            == generalisation_of(verdict.kind(), verdict.text()) && l.visible_to@.len() == 0,
{
    let mut pe = chars_of("oracle-");
    append_str(&mut pe, config.descriptor.as_str());
    let learning = Learning {
        pattern_extracted: string_of(&pe),
        pattern_kind: string_from(verdict.pattern_kind()),
        generalisation: generalisation(verdict),
        visible_to: Vec::new(),
    };
    let mut desc = chars_of("ran julia-oracle.jl on descriptor ");
    append_str(&mut desc, config.descriptor.as_str());
    let mut tactics: Vec<String> = Vec::new();
    tactics.push(string_from("julia-oracle"));
    assert(crate::text::views(tactics@) =~= seq!["julia-oracle"@]);
    let status = if verdict.blocks_attempt() {
        string_from("blocked")
    } else {
        string_from("advisory")
    };
    LedgerRecord {
        id,
        timestamp,
        goal_hash: goal_hash(goal_raw),
        goal_excerpt: excerpt(goal_raw),
        specialist: string_from("Oracle"),
        approach: Some(
            Approach {
                description: string_of(&desc),
                tactics_attempted: tactics,
                preconditions_assumed: Vec::new(),
            },
        ),
        result: Some(
            RecordResult {
                status,
                explanation: debug_text(verdict),
                artifacts: Vec::new(),
            },
        ),
        learning: Some(learning),
    }
}

} // verus!
