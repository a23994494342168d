//! Proof attempts.
//!
//! Each specialist carries a playbook of tactics. An attempt wraps the
//! goal and one tactic into a self-contained Isabelle probe theory, hands
//! it to the prover backend, classifies the backend's output, and records
//! the outcome, with a lesson where one can be drawn, in the ledger. The
//! host program writes the probe and runs the prover; this module holds
//! everything that decides.
use crate::format::{decimal, decimal_chars};
use crate::ledger::{excerpt, Approach, Learning, LedgerRecord, RecordResult};
use crate::text::{
    alphanumeric, append_chars, append_str, chars_of, contains, contains_seq, contains_str,
    find, first_occurrence, is_alphanumeric, lines, lines_seq, slice_chars, starts_with_seq,
    starts_with_str, str_eq, string_from, string_of, trim, trim_seq, trim_start, trim_start_seq,
    views,
};
use vstd::prelude::*;

verus! {

/// One tactic that a specialist knows how to try.
pub struct TacticTemplate {
    /// Short name for ledger reporting, such as `simp`.
    pub name: String,
    /// The Isabelle proof script, such as `by simp`.
    pub script: String,
    /// One-line description of what the tactic does.
    pub description: String,
}

/// A specialist's playbook: the tactics it tries, in order.
pub struct Playbook {
    pub specialist: String,
    pub tactics: Vec<TacticTemplate>,
}

/// Configuration of the prover backend.
pub struct ProverConfig {
    /// Path of the `echidna` binary.
    pub echidna_path: String,
    /// Per-attempt timeout in seconds.
    pub timeout_secs: u32,
    /// Directory for probe files; `/tmp/burrower_probes` when unset.
    pub workdir: Option<String>,
    /// Project root handed to the prover, if any.
    pub project_root: Option<String>,
    /// Sandbox the prover runs in; `none` by default.
    pub sandbox: String,
}

impl Default for ProverConfig {
    fn default() -> (r: Self)
        ensures
            r.echidna_path@ == "echidna"@,
            r.timeout_secs == 60,
            r.workdir is None,
            r.project_root is None,
            r.sandbox@ == "none"@,
    {
        ProverConfig {
            echidna_path: string_from("echidna"),
            timeout_secs: 60,
            workdir: None,
            project_root: None,
            sandbox: string_from("none"),
        }
    }
}

/// Outcome of one proof attempt.
pub enum AttemptResult {
    Succeeded { duration_ms: u64 },
    Failed { error: String, duration_ms: u64 },
    Timeout,
    /// The prover binary is missing, the probe could not be written, etc.
    Skipped { reason: String },
}

impl AttemptResult {
    /// Whether the attempt succeeded.
    pub fn is_success(&self) -> (r: bool)
        ensures
            r == (self is Succeeded),
    {
        match self {
            AttemptResult::Succeeded { .. } => true,
            _ => false,
        }
    }

    /// The ledger status of the outcome.
    pub fn status_string(&self) -> (r: &'static str)
        ensures
            r@ == status_of(*self),
    {
        match self {
            AttemptResult::Succeeded { .. } => "succeeded",
            AttemptResult::Failed { .. } => "failed",
            AttemptResult::Timeout => "timeout",
            AttemptResult::Skipped { .. } => "skipped",
        }
    }
}

/// The ledger status of an outcome.
pub open spec fn status_of(r: AttemptResult) -> Seq<char> {
    match r {
        AttemptResult::Succeeded { .. } => "succeeded"@,
        AttemptResult::Failed { .. } => "failed"@,
        AttemptResult::Timeout => "timeout"@,
        AttemptResult::Skipped { .. } => "skipped"@,
    }
}

/// One end-to-end attempt.
pub struct ProofAttempt {
    pub specialist: String,
    pub tactic_name: String,
    pub goal_excerpt: String,
    pub result: AttemptResult,
}

// ---------------------------------------------------------------------
// Probe generation
// ---------------------------------------------------------------------

/// The index of the first occurrence of `p` in `s`, if any.
pub open spec fn find_spec(s: Seq<char>, p: Seq<char>) -> Option<int> {
    if exists|i: int| first_occurrence(s, p, i) {
        Some(choose|i: int| first_occurrence(s, p, i))
    } else {
        None
    }
}

proof fn lemma_first_occurrence_unique(s: Seq<char>, p: Seq<char>, i: int, j: int)
    requires
        first_occurrence(s, p, i),
        first_occurrence(s, p, j),
    ensures
        i == j,
{
}

proof fn lemma_find_spec(s: Seq<char>, p: Seq<char>, i: int)
    requires
        first_occurrence(s, p, i),
    ensures
        find_spec(s, p) == Some(i),
{
    let j = choose|j: int| first_occurrence(s, p, j);
    lemma_first_occurrence_unique(s, p, i, j);
}

/// `str::find` with the spec of `find_spec`.
fn find_first(s: &Vec<char>, p: &Vec<char>) -> (r: Option<usize>)
    ensures
        match r {
            Some(i) => find_spec(s@, p@) == Some(i as int) && first_occurrence(s@, p@, i as int),
            None => find_spec(s@, p@) is None,
        },
{
    let r = find(s, p);
    proof {
        if let Some(i) = r {
            lemma_find_spec(s@, p@, i as int);
        }
    }
    r
}

/// The lemma keywords after which a statement's colon is searched.
pub open spec fn statement_keywords() -> Seq<Seq<char>> {
    seq!["lemma "@, "theorem "@, "Lemma "@, "Theorem "@]
}

/// The text after the first colon that follows the first keyword (tried in
/// order) that is followed by a colon.
pub open spec fn after_colon(t: Seq<char>, kws: Seq<Seq<char>>) -> Option<Seq<char>>
    decreases kws.len(),
{
    if kws.len() == 0 {
        None
    } else {
        match find_spec(t, kws[0]) {
            Some(start) => {
                let rest = t.skip(start + kws[0].len());
                match find_spec(rest, ":"@) {
                    Some(c) => Some(rest.skip(c + 1)),
                    None => after_colon(t, kws.drop_first()),
                }
            },
            None => after_colon(t, kws.drop_first()),
        }
    }
}

/// Whether a line opens the proof (after its indentation).
pub open spec fn opens_proof(line: Seq<char>) -> bool {
    let t = trim_start_seq(line);
    starts_with_seq(t, "by "@) || starts_with_seq(t, "proof"@) || starts_with_seq(t, ":="@)
}

/// The leading lines that do not open the proof.
pub open spec fn lines_before_proof(ls: Seq<Seq<char>>) -> Seq<Seq<char>>
    decreases ls.len(),
{
    if ls.len() == 0 || opens_proof(ls[0]) {
        seq![]
    } else {
        seq![ls[0]] + lines_before_proof(ls.drop_first())
    }
}

/// The pieces of `parts` joined by `sep`.
pub open spec fn join(parts: Seq<Seq<char>>, sep: Seq<char>) -> Seq<char>
    decreases parts.len(),
{
    if parts.len() == 0 {
        seq![]
    } else if parts.len() == 1 {
        parts[0]
    } else {
        join(parts.drop_last(), sep) + sep + parts.last()
    }
}

/// The index of the last quotation mark of `s`.
pub open spec fn last_quote(s: Seq<char>) -> Option<int>
    decreases s.len(),
{
    if s.len() == 0 {
        None
    } else if s.last() == '"' {
        Some(s.len() - 1)
    } else {
        last_quote(s.drop_last())
    }
}

/// `s` up to the first occurrence of `p`, or all of `s`.
pub open spec fn before_first(s: Seq<char>, p: Seq<char>) -> Seq<char> {
    match find_spec(s, p) {
        Some(k) => s.take(k),
        None => s,
    }
}

/// The statement of a goal, as the probe states it. The goal's text after
/// the lemma's colon, up to the line that opens the proof, is kept whole
/// up to its last quotation mark when it holds at least two, so that
/// assumptions and every conclusion stay; otherwise the text before any
/// `:=` is quoted.
pub open spec fn statement_of(goal_text: Seq<char>) -> Seq<char> {
    let body = trim_seq(
        match after_colon(goal_text, statement_keywords()) {
            Some(a) => a,
            None => goal_text,
        },
    );
    let pre = join(lines_before_proof(lines_seq(body)), "\n"@);
    let quote = seq!['"'];
    match (find_spec(pre, quote), last_quote(pre)) {
        (Some(q1), Some(q2)) if q1 < q2 => pre.take(q2 + 1),
        _ => quote + trim_seq(before_first(pre, ":="@)) + quote,
    }
}

fn statement_keyword_list() -> (r: Vec<Vec<char>>)
    ensures
        crate::text::vviews(r@) == statement_keywords(),
{
    let mut v: Vec<Vec<char>> = Vec::new();
    v.push(chars_of("lemma "));
    v.push(chars_of("theorem "));
    v.push(chars_of("Lemma "));
    v.push(chars_of("Theorem "));
    assert(crate::text::vviews(v@) =~= statement_keywords());
    v
}

/// The text after the statement's colon.
fn after_colon_exec(t: &Vec<char>) -> (r: Option<Vec<char>>)
    ensures
        match r {
            Some(a) => after_colon(t@, statement_keywords()) == Some(a@),
            None => after_colon(t@, statement_keywords()) is None,
        },
{
    let kws = statement_keyword_list();
    let ghost all = crate::text::vviews(kws@);
    let colon = chars_of(":");
    let mut k: usize = 0;
    assert(all.skip(0) =~= all);
    while k < kws.len()
        invariant
            k <= kws.len(),
            all == crate::text::vviews(kws@),
            all == statement_keywords(),
            colon@ == ":"@,
            after_colon(t@, all) == after_colon(t@, all.skip(k as int)),
        decreases kws.len() - k,
    {
        let ghost sk = all.skip(k as int);
        assert(sk[0] == kws@[k as int]@);
        assert(sk.drop_first() =~= all.skip(k + 1));
        match find_first(t, &kws[k]) {
            Some(start) => {
                assert(crate::text::occurs_at(t@, kws[k as int]@, start as int));
                assert(start + kws[k as int]@.len() <= t.len());
                let from = start + kws[k].len();
                let rest = slice_chars(t, from, t.len());
                assert(rest@ =~= t@.skip(from as int));
                match find_first(&rest, &colon) {
                    Some(c) => {
                        assert(crate::text::occurs_at(rest@, colon@, c as int));
                        proof {
                            reveal_strlit(":");
                        }
                        assert(c + 1 <= rest.len());
                        let a = slice_chars(&rest, c + 1, rest.len());
                        assert(a@ =~= rest@.skip(c + 1));
                        return Some(a);
                    },
                    None => {},
                }
            },
            None => {},
        }
        k = k + 1;
    }
    None
}

/// The index of the last quotation mark of `s`.
fn last_quote_index(s: &Vec<char>) -> (r: Option<usize>)
    ensures
        match r {
            Some(k) => k < s.len() && last_quote(s@) == Some(k as int),
            None => last_quote(s@) is None,
        },
{
    let mut k: usize = s.len();
    assert(s@.take(k as int) =~= s@);
    while k > 0 && s[k - 1] != '"'
        invariant
            k <= s.len(),
            last_quote(s@) == last_quote(s@.take(k as int)),
        decreases k,
    {
        assert(s@.take(k as int).drop_last() =~= s@.take(k - 1));
        k = k - 1;
    }
    if k == 0 {
        assert(s@.take(0) =~= Seq::<char>::empty());
        None
    } else {
        assert(s@.take(k as int).last() == s@[k - 1]);
        Some(k - 1)
    }
}

/// The statement of a goal, as the probe states it: the goal text after
/// the lemma's colon up to the proof, kept whole up to its last quotation
/// mark, or, without two quotation marks, the text before `:=` quoted.
pub fn extract_statement(goal_text: &str) -> (r: String)
    ensures
        r@ == statement_of(goal_text@),
{
    let t = chars_of(goal_text);
    let source = match after_colon_exec(&t) {
        Some(a) => a,
        None => t,
    };
    let body = trim(&source);
    let ls = lines(&body);
    let pre = join_before_proof(&ls);
    let quote = chars_of("\"");
    proof {
        reveal_strlit("\"");
        assert(quote@ =~= seq!['"']);
    }
    match (find_first(&pre, &quote), last_quote_index(&pre)) {
        (Some(q1), Some(q2)) => {
            if q1 < q2 {
                let kept = slice_chars(&pre, 0, q2 + 1);
                assert(kept@ =~= pre@.take(q2 + 1));
                return string_of(&kept);
            }
        },
        _ => {},
    }
    let assign = chars_of(":=");
    let cut = match find_first(&pre, &assign) {
        Some(k) => {
            assert(crate::text::occurs_at(pre@, assign@, k as int));
            let c = slice_chars(&pre, 0, k);
            assert(c@ =~= pre@.take(k as int));
            c
        },
        None => pre,
    };
    let inner = trim(&cut);
    let mut out = quote.clone();
    append_chars(&mut out, &inner);
    append_chars(&mut out, &quote);
    string_of(&out)
}

/// Whether a line opens the proof.
fn opens_proof_exec(line: &Vec<char>) -> (r: bool)
    ensures
        r == opens_proof(line@),
{
    let t = trim_start(line);
    starts_with_str(&t, "by ") || starts_with_str(&t, "proof") || starts_with_str(&t, ":=")
}

/// The lines before the proof, joined by line feeds.
fn join_before_proof(ls: &Vec<Vec<char>>) -> (r: Vec<char>)
    ensures
        r@ == join(lines_before_proof(ls@.map_values(|l: Vec<char>| l@)), "\n"@),
{
    let ghost lsv = ls@.map_values(|l: Vec<char>| l@);
    let mut out: Vec<char> = Vec::new();
    let mut i: usize = 0;
    proof {
        reveal_strlit("\n");
    }
    assert(lsv.skip(0) =~= lsv);
    assert(lines_before_proof(lsv) =~= lines_before_proof(lsv).take(0) + lines_before_proof(
        lsv.skip(0),
    ));
    while i < ls.len() && !opens_proof_exec(&ls[i])
        invariant
            i <= ls.len(),
            lsv == ls@.map_values(|l: Vec<char>| l@),
            lines_before_proof(lsv) == lsv.take(i as int) + lines_before_proof(lsv.skip(i as int)),
            forall|j: int| 0 <= j < i ==> !opens_proof(#[trigger] lsv[j]),
            out@ == join(lsv.take(i as int), "\n"@),
            "\n"@ == seq!['\n'],
        decreases ls.len() - i,
    {
        proof {
            let sk = lsv.skip(i as int);
            assert(sk[0] == ls@[i as int]@);
            assert(sk.drop_first() =~= lsv.skip(i + 1));
            assert(lsv.take(i + 1) =~= lsv.take(i as int).push(lsv[i as int]));
            assert(lsv.take(i as int) + lines_before_proof(sk) =~= lsv.take(i + 1)
                + lines_before_proof(lsv.skip(i + 1)));
            assert(lsv.take(i + 1).drop_last() =~= lsv.take(i as int));
        }
        if i > 0 {
            out.push('\n');
        }
        append_chars(&mut out, &ls[i]);
        proof {
            if i == 0 {
                assert(out@ =~= join(lsv.take(1), "\n"@));
            } else {
                assert(out@ =~= join(lsv.take(i as int), "\n"@) + "\n"@ + lsv[i as int]);
            }
        }
        i = i + 1;
    }
    proof {
        if i < ls.len() {
            assert(lsv.skip(i as int)[0] == ls@[i as int]@);
        }
        assert(lines_before_proof(lsv.skip(i as int)) =~= Seq::<Seq<char>>::empty());
        assert(lines_before_proof(lsv) =~= lsv.take(i as int));
    }
    out
}

/// The probe theory for a goal and a tactic: the goal's statement as
/// `probe_lemma`, proved by the tactic's script, in a theory importing
/// `Main`.
pub open spec fn probe_text(goal_text: Seq<char>, script: Seq<char>) -> Seq<char> {
    "(* SPDX-License-Identifier: PMPL-1.0-or-later *)\n(* Burrower probe \u{2014} auto-generated, do not edit. *)\ntheory Probe\nimports Main\nbegin\n\nlemma probe_lemma: "@
        + statement_of(goal_text) + "\n  "@ + script + "\n\nend\n"@
}

/// Generate a self-contained Isabelle probe theory for a goal and a tactic.
pub fn generate_probe(goal_text: &str, tactic: &TacticTemplate) -> (r: String)
    ensures
        r@ == probe_text(goal_text@, tactic.script@),
{
    let stmt = extract_statement(goal_text);
    let mut out = chars_of(
        "(* SPDX-License-Identifier: PMPL-1.0-or-later *)\n(* Burrower probe \u{2014} auto-generated, do not edit. *)\ntheory Probe\nimports Main\nbegin\n\nlemma probe_lemma: ",
    );
    append_str(&mut out, stmt.as_str());
    append_str(&mut out, "\n  ");
    append_str(&mut out, tactic.script.as_str());
    append_str(&mut out, "\n\nend\n");
    string_of(&out)
}

// ---------------------------------------------------------------------
// Running a probe: what the host is told to do, and what its output means
// ---------------------------------------------------------------------

/// Characters kept in a probe file name.
pub open spec fn keeps_in_filename(c: char) -> bool {
    alphanumeric(c) || c == '_'
}

/// `s` with every character but alphanumerics and underscores removed.
pub open spec fn sanitized(s: Seq<char>) -> Seq<char>
    decreases s.len(),
{
    if s.len() == 0 {
        seq![]
    } else if keeps_in_filename(s.last()) {
        sanitized(s.drop_last()).push(s.last())
    } else {
        sanitized(s.drop_last())
    }
}

/// `s` with every character but alphanumerics and underscores removed.
pub fn sanitize_filename(s: &str) -> (r: String)
    ensures
        r@ == sanitized(s@),
{
    let cs = chars_of(s);
    let mut out: Vec<char> = Vec::new();
    let mut i: usize = 0;
    while i < cs.len()
        invariant
            i <= cs.len(),
            out@ == sanitized(cs@.take(i as int)),
        decreases cs.len() - i,
    {
        assert(cs@.take(i + 1).drop_last() =~= cs@.take(i as int));
        if is_alphanumeric(cs[i]) || cs[i] == '_' {
            out.push(cs[i]);
        }
        i = i + 1;
    }
    assert(cs@.take(cs.len() as int) =~= cs@);
    string_of(&out)
}

/// The probe file name for tactic number `index` of a specialist's
/// playbook.
pub fn probe_filename(specialist: &str, index: usize) -> (r: String)
    ensures
        r@ == "probe_"@ + sanitized(specialist@) + "_"@ + decimal(index as nat) + ".thy"@,
{
    let mut out = chars_of("probe_");
    let s = sanitize_filename(specialist);
    append_str(&mut out, s.as_str());
    append_str(&mut out, "_");
    let d = decimal_chars(index as u64);
    append_chars(&mut out, &d);
    append_str(&mut out, ".thy");
    string_of(&out)
}

/// One probe to run: the file name it is written to and its theory text.
pub struct Probe {
    pub filename: String,
    pub text: String,
}

/// The probes of a playbook for a goal, one per tactic in order: tactic
/// number `i` is written to `probe_filename(specialist, i)` and holds the
/// probe theory for the goal and that tactic.
pub fn playbook_probes(goal_raw: &str, playbook: &Playbook) -> (r: Vec<Probe>)
    ensures
        r@.len() == playbook.tactics@.len(),
        forall|i: int|
            0 <= i < r@.len() ==> (#[trigger] r@[i]).filename@ == "probe_"@ + sanitized(
                playbook.specialist@,
            ) + "_"@ + decimal(i as nat) + ".thy"@ && r@[i].text@ == probe_text(
                goal_raw@,
                playbook.tactics@[i].script@,
            ),
{
    let mut out: Vec<Probe> = Vec::new();
    let mut i: usize = 0;
    while i < playbook.tactics.len()
        invariant
            i <= playbook.tactics.len(),
            out@.len() == i,
            forall|j: int|
                0 <= j < i ==> (#[trigger] out@[j]).filename@ == "probe_"@ + sanitized(
                    playbook.specialist@,
                ) + "_"@ + decimal(j as nat) + ".thy"@ && out@[j].text@ == probe_text(
                    goal_raw@,
                    playbook.tactics@[j].script@,
                ),
        decreases playbook.tactics.len() - i,
    {
        let text = generate_probe(goal_raw, &playbook.tactics[i]);
        let filename = probe_filename(playbook.specialist.as_str(), i);
        out.push(Probe { filename, text });
        i = i + 1;
    }
    out
}

/// The directory probes are written to.
pub fn probe_workdir(config: &ProverConfig) -> (r: String)
    ensures
        r@ == match config.workdir {
            Some(w) => w@,
            None => "/tmp/burrower_probes"@,
        },
{
    match &config.workdir {
        Some(w) => w.clone(),
        None => string_from("/tmp/burrower_probes"),
    }
}

/// The arguments the prover backend is started with: the probe, the
/// prover, the timeout, the project root when one is set, and the sandbox.
pub open spec fn prover_args_spec(probe_path: Seq<char>, c: ProverConfig) -> Seq<Seq<char>> {
    seq!["prove"@, probe_path, "--prover"@, "Isabelle"@, "-t"@, decimal(c.timeout_secs as nat)]
        + match c.project_root {
        Some(p) => seq!["--project-root"@, p@],
        None => seq![],
    } + seq!["--sandbox"@, c.sandbox@]
}

/// The arguments the prover backend is started with.
pub fn prover_args(probe_path: &str, config: &ProverConfig) -> (r: Vec<String>)
    ensures
        views(r@) == prover_args_spec(probe_path@, *config),
{
    let mut out: Vec<String> = Vec::new();
    out.push(string_from("prove"));
    out.push(string_from(probe_path));
    out.push(string_from("--prover"));
    out.push(string_from("Isabelle"));
    out.push(string_from("-t"));
    let d = decimal_chars(config.timeout_secs as u64);
    out.push(string_of(&d));
    match &config.project_root {
        Some(p) => {
            out.push(string_from("--project-root"));
            out.push(p.clone());
        },
        None => {},
    }
    out.push(string_from("--sandbox"));
    out.push(config.sandbox.clone());
    assert(views(out@) =~= prover_args_spec(probe_path@, *config));
    out
}

/// A probe file name the probe directory can hold: not empty, not `.` or
/// `..`, and without a path separator or a NUL character.
pub open spec fn valid_probe_name(name: Seq<char>) -> bool {
    name.len() > 0 && name != "."@ && name != ".."@ && !name.contains('/') && !name.contains(
        '\\',
    ) && !name.contains('\0')
}

/// Whether `name` is a probe file name the probe directory can hold.
pub fn is_valid_probe_name(name: &str) -> (r: bool)
    ensures
        r == valid_probe_name(name@),
{
    let cs = chars_of(name);
    if cs.len() == 0 || crate::text::str_eq(name, ".") || crate::text::str_eq(name, "..") {
        return false;
    }
    let mut i: usize = 0;
    while i < cs.len()
        invariant
            i <= cs.len(),
            cs@ == name@,
            forall|j: int| 0 <= j < i ==> cs@[j] != '/' && cs@[j] != '\\' && cs@[j] != '\0',
        decreases cs.len() - i,
    {
        if cs[i] == '/' || cs[i] == '\\' || cs[i] == '\0' {
            assert(cs@[i as int] == cs@[i as int]);
            return false;
        }
        i = i + 1;
    }
    true
}

/// The name of the private directory of one probe run: the process id and
/// the run's sequence number within the process.
pub open spec fn run_dir_text(pid: nat, seq_no: nat) -> Seq<char> {
    "burrower-run-"@ + decimal(pid) + "-"@ + decimal(seq_no)
}

/// The private directory name of probe run `seq_no` of process `pid`.
pub fn run_dir_name(pid: u32, seq_no: u64) -> (r: String)
    ensures
        r@ == run_dir_text(pid as nat, seq_no as nat),
{
    let mut out = chars_of("burrower-run-");
    let p = decimal_chars(pid as u64);
    append_chars(&mut out, &p);
    append_str(&mut out, "-");
    let q = decimal_chars(seq_no);
    append_chars(&mut out, &q);
    string_of(&out)
}

proof fn lemma_digits_split(a: Seq<char>, b: Seq<char>, c: Seq<char>, d: Seq<char>)
    requires
        forall|i: int| 0 <= i < a.len() ==> crate::format::is_digit(#[trigger] a[i]),
        forall|i: int| 0 <= i < c.len() ==> crate::format::is_digit(#[trigger] c[i]),
        a + seq!['-'] + b == c + seq!['-'] + d,
    ensures
        a == c,
        b == d,
{
    let x = a + seq!['-'] + b;
    assert(x[a.len() as int] == '-');
    assert(x[c.len() as int] == '-');
    if a.len() < c.len() {
        assert(x[a.len() as int] == c[a.len() as int]);
    }
    if c.len() < a.len() {
        assert(x[c.len() as int] == a[c.len() as int]);
    }
    assert(a =~= x.take(a.len() as int));
    assert(c =~= x.take(c.len() as int));
    assert(b =~= x.skip(a.len() as int + 1));
    assert(d =~= x.skip(c.len() as int + 1));
}

/// Law: distinct (process, run) pairs give distinct run directories, so
/// no two probe runs share a directory.
pub proof fn run_dir_text_injective(p1: nat, s1: nat, p2: nat, s2: nat)
    requires
        run_dir_text(p1, s1) == run_dir_text(p2, s2),
    ensures
        p1 == p2,
        s1 == s2,
{
    reveal_strlit("burrower-run-");
    reveal_strlit("-");
    let pre = "burrower-run-"@;
    crate::format::lemma_decimal_digits(p1);
    crate::format::lemma_decimal_digits(s1);
    crate::format::lemma_decimal_digits(p2);
    crate::format::lemma_decimal_digits(s2);
    let u = decimal(p1) + seq!['-'] + decimal(s1);
    let v = decimal(p2) + seq!['-'] + decimal(s2);
    assert(run_dir_text(p1, s1) =~= pre + u);
    assert(run_dir_text(p2, s2) =~= pre + v);
    assert(u =~= run_dir_text(p1, s1).skip(pre.len() as int));
    assert(v =~= run_dir_text(p2, s2).skip(pre.len() as int));
    lemma_digits_split(decimal(p1), decimal(s1), decimal(p2), decimal(s2));
}

/// The stage at which running a probe could not proceed.
pub enum SkipStage {
    /// The probe file name would leave the probe directory.
    InvalidName,
    /// The probe directory could not be created.
    WorkdirCreate,
    /// The probe file could not be written.
    ProbeWrite,
    /// The prover binary does not exist.
    MissingProver,
    /// The prover process could not be started.
    Spawn,
}

/// The reason recorded for a skipped attempt.
pub open spec fn skip_reason(stage: SkipStage, detail: Seq<char>) -> Seq<char> {
    match stage {
        SkipStage::InvalidName => "invalid probe filename: "@ + detail,
        SkipStage::WorkdirCreate => "workdir create failed: "@ + detail,
        SkipStage::ProbeWrite => "probe write failed: "@ + detail,
        SkipStage::MissingProver => "echidna binary not found at "@ + detail,
        SkipStage::Spawn => "subprocess failed: "@ + detail,
    }
}

/// The outcome of an attempt that could not proceed; `detail` is the
/// error message, or the prover path when the prover is missing.
pub fn skipped(stage: SkipStage, detail: &str) -> (r: AttemptResult)
    ensures
        r matches AttemptResult::Skipped { reason } && reason@ == skip_reason(stage, detail@),
{
    let head = match stage {
        SkipStage::InvalidName => "invalid probe filename: ",
        SkipStage::WorkdirCreate => "workdir create failed: ",
        SkipStage::ProbeWrite => "probe write failed: ",
        SkipStage::MissingProver => "echidna binary not found at ",
        SkipStage::Spawn => "subprocess failed: ",
    };
    let mut out = chars_of(head);
    append_str(&mut out, detail);
    AttemptResult::Skipped { reason: string_of(&out) }
}

/// A diagnostic line: one that mentions `***`, `Failed` or `error`.
pub open spec fn is_diagnostic(line: Seq<char>) -> bool {
    contains_seq(line, "***"@) || contains_seq(line, "Failed"@) || contains_seq(line, "error"@)
}

/// The diagnostic lines among `ls`, in order.
pub open spec fn diagnostics(ls: Seq<Seq<char>>) -> Seq<Seq<char>>
    decreases ls.len(),
{
    if ls.len() == 0 {
        seq![]
    } else if is_diagnostic(ls.last()) {
        diagnostics(ls.drop_last()).push(ls.last())
    } else {
        diagnostics(ls.drop_last())
    }
}

/// The first `n` elements of `s`, or all of it.
pub open spec fn first_n<A>(s: Seq<A>, n: nat) -> Seq<A> {
    if s.len() <= n {
        s
    } else {
        s.take(n as int)
    }
}

/// What a prover run's output means: success when either output reports a
/// verified proof; a failure with up to three diagnostic lines when it
/// reports a failure or an error; otherwise a failure quoting the start of
/// the output.
pub open spec fn outcome_of(stdout: Seq<char>, stderr: Seq<char>, elapsed_ms: u64) -> AttemptResultView {
    if contains_seq(stdout, "Proof verified successfully"@) || contains_seq(
        stderr,
        "Proof verified successfully"@,
    ) {
        AttemptResultView::Succeeded(elapsed_ms)
    } else if contains_seq(stdout, "Proof verification failed"@) || contains_seq(stderr, "FAILED"@)
        || contains_seq(stderr, "error"@) {
        let ex = join(first_n(diagnostics(lines_seq(stdout) + lines_seq(stderr)), 3), " | "@);
        AttemptResultView::Failed(
            if ex.len() == 0 {
                "non-success exit; no diagnostic captured"@
            } else {
                ex
            },
            elapsed_ms,
        )
    } else {
        AttemptResultView::Failed(
            "inconclusive output (first 200 chars): "@ + first_n(stdout, 200),
            elapsed_ms,
        )
    }
}

/// The content of an outcome.
pub enum AttemptResultView {
    Succeeded(u64),
    Failed(Seq<char>, u64),
    Timeout,
    Skipped(Seq<char>),
}

impl AttemptResult {
    /// The content of this outcome.
    pub open spec fn view_of(&self) -> AttemptResultView {
        match self {
            AttemptResult::Succeeded { duration_ms } => AttemptResultView::Succeeded(*duration_ms),
            AttemptResult::Failed { error, duration_ms } => AttemptResultView::Failed(
                error@,
                *duration_ms,
            ),
            AttemptResult::Timeout => AttemptResultView::Timeout,
            AttemptResult::Skipped { reason } => AttemptResultView::Skipped(reason@),
        }
    }
}

/// The diagnostic lines of `ls`.
fn diagnostic_lines(ls: &Vec<Vec<char>>) -> (r: Vec<Vec<char>>)
    ensures
        crate::text::vviews(r@) == diagnostics(ls@.map_values(|l: Vec<char>| l@)),
{
    let ghost lsv = ls@.map_values(|l: Vec<char>| l@);
    let mut out: Vec<Vec<char>> = Vec::new();
    let mut i: usize = 0;
    while i < ls.len()
        invariant
            i <= ls.len(),
            lsv == ls@.map_values(|l: Vec<char>| l@),
            crate::text::vviews(out@) == diagnostics(lsv.take(i as int)),
        decreases ls.len() - i,
    {
        assert(lsv.take(i + 1).drop_last() =~= lsv.take(i as int));
        assert(lsv.take(i + 1).last() == ls@[i as int]@);
        let l = &ls[i];
        if contains_str(l, "***") || contains_str(l, "Failed") || contains_str(l, "error") {
            let ghost before = out@;
            out.push(l.clone());
            assert(crate::text::vviews(out@) =~= crate::text::vviews(before).push(l@));
        }
        i = i + 1;
    }
    assert(lsv.take(ls.len() as int) =~= lsv);
    out
}

/// The first `n` pieces of `parts` joined by `sep`.
pub(crate) fn join_first(parts: &Vec<Vec<char>>, n: usize, sep: &str) -> (r: Vec<char>)
    ensures
        r@ == join(first_n(crate::text::vviews(parts@), n as nat), sep@),
{
    let ghost pv = crate::text::vviews(parts@);
    let m = if parts.len() <= n {
        parts.len()
    } else {
        n
    };
    let sepv = chars_of(sep);
    let mut out: Vec<char> = Vec::new();
    let mut i: usize = 0;
    while i < m
        invariant
            i <= m,
            m <= parts.len(),
            pv == crate::text::vviews(parts@),
            sepv@ == sep@,
            out@ == join(pv.take(i as int), sep@),
        decreases m - i,
    {
        assert(pv.take(i + 1).drop_last() =~= pv.take(i as int));
        assert(pv.take(i + 1).last() == parts@[i as int]@);
        if i > 0 {
            append_chars(&mut out, &sepv);
        }
        append_chars(&mut out, &parts[i]);
        proof {
            if i == 0 {
                assert(out@ =~= join(pv.take(1), sep@));
            }
        }
        i = i + 1;
    }
    proof {
        if pv.len() <= n {
            assert(pv.take(m as int) =~= pv);
        }
    }
    out
}

/// What a prover run's output means.
pub fn classify_output(stdout: &str, stderr: &str, elapsed_ms: u64) -> (r: AttemptResult)
    ensures
        r.view_of() == outcome_of(stdout@, stderr@, elapsed_ms),
{
    let out = chars_of(stdout);
    let err = chars_of(stderr);
    if contains_str(&out, "Proof verified successfully") || contains_str(
        &err,
        "Proof verified successfully",
    ) {
        return AttemptResult::Succeeded { duration_ms: elapsed_ms };
    }
    if contains_str(&out, "Proof verification failed") || contains_str(&err, "FAILED")
        || contains_str(&err, "error") {
        let mut all = lines(&out);
        let mut err_lines = lines(&err);
        let ghost a = all@.map_values(|l: Vec<char>| l@);
        let ghost b = err_lines@.map_values(|l: Vec<char>| l@);
        all.append(&mut err_lines);
        assert(all@.map_values(|l: Vec<char>| l@) =~= a + b);
        let diags = diagnostic_lines(&all);
        let ex = join_first(&diags, 3, " | ");
        let error = if ex.len() == 0 {
            string_from("non-success exit; no diagnostic captured")
        } else {
            string_of(&ex)
        };
        return AttemptResult::Failed { error, duration_ms: elapsed_ms };
    }
    let mut msg = chars_of("inconclusive output (first 200 chars): ");
    let n = if out.len() <= 200 {
        out.len()
    } else {
        200
    };
    let head = slice_chars(&out, 0, n);
    proof {
        if out@.len() <= 200 {
            assert(head@ =~= out@);
        } else {
            assert(head@ =~= out@.take(200));
        }
    }
    append_chars(&mut msg, &head);
    AttemptResult::Failed { error: string_of(&msg), duration_ms: elapsed_ms }
}

// ---------------------------------------------------------------------
// Recording an attempt
// ---------------------------------------------------------------------

/// The explanation recorded for an outcome.
pub open spec fn explanation_of(r: AttemptResultView) -> Seq<char> {
    match r {
        AttemptResultView::Succeeded(ms) => "verified in "@ + decimal(ms as nat) + " ms"@,
        AttemptResultView::Failed(e, ms) => "failed in "@ + decimal(ms as nat) + " ms: "@ + e,
        AttemptResultView::Timeout => "exceeded timeout"@,
        AttemptResultView::Skipped(reason) => "skipped: "@ + reason,
    }
}

/// The explanation recorded for an outcome.
pub fn explain(r: &AttemptResult) -> (s: String)
    ensures
        s@ == explanation_of(r.view_of()),
{
    match r {
        AttemptResult::Succeeded { duration_ms } => {
            let mut out = chars_of("verified in ");
            let d = decimal_chars(*duration_ms);
            append_chars(&mut out, &d);
            append_str(&mut out, " ms");
            string_of(&out)
        },
        AttemptResult::Failed { error, duration_ms } => {
            let mut out = chars_of("failed in ");
            let d = decimal_chars(*duration_ms);
            append_chars(&mut out, &d);
            append_str(&mut out, " ms: ");
            append_str(&mut out, error.as_str());
            string_of(&out)
        },
        AttemptResult::Timeout => string_from("exceeded timeout"),
        AttemptResult::Skipped { reason } => {
            let mut out = chars_of("skipped: ");
            append_str(&mut out, reason.as_str());
            string_of(&out)
        },
    }
}

/// The next tactic to suggest after `name` fails.
pub open spec fn suggestion_for(name: Seq<char>) -> Seq<char> {
    if name == "simp"@ {
        "auto, blast, or fastforce"@
    } else if name == "auto"@ {
        "explicit case split + simp"@
    } else if name == "induct"@ {
        "induction (modern variant)"@
    } else if name == "induction"@ {
        "induct (classical variant) or rule: finite_induct"@
    } else {
        "alternative tactic from the playbook"@
    }
}

/// The next tactic to suggest after `t` fails.
pub fn suggest_next(t: &TacticTemplate) -> (r: String)
    ensures
        r@ == suggestion_for(t.name@),
{
    let n = t.name.as_str();
    if str_eq(n, "simp") {
        string_from("auto, blast, or fastforce")
    } else if str_eq(n, "auto") {
        string_from("explicit case split + simp")
    } else if str_eq(n, "induct") {
        string_from("induction (modern variant)")
    } else if str_eq(n, "induction") {
        string_from("induct (classical variant) or rule: finite_induct")
    } else {
        string_from("alternative tactic from the playbook")
    }
}

/// The flavour of a failure, by its error text.
pub open spec fn failure_kind(error: Seq<char>) -> Seq<char> {
    if contains_seq(error, "Undefined fact"@) || contains_seq(error, "Unknown"@) {
        "undefined-reference"@
    } else if contains_seq(error, "Failed to apply"@) || contains_seq(error, "Failed to finish"@)
        || contains_seq(error, "Failed to refine"@) || contains_seq(error, "no unifiers"@) {
        "tactic-mismatch"@
    } else if contains_seq(error, "Bad context"@) {
        "structural-mismatch"@
    } else {
        "generic-failure"@
    }
}

fn failure_kind_exec(error: &str) -> (r: &'static str)
    ensures
        r@ == failure_kind(error@),
{
    let e = chars_of(error);
    if contains_str(&e, "Undefined fact") || contains_str(&e, "Unknown") {
        "undefined-reference"
    } else if contains_str(&e, "Failed to apply") || contains_str(&e, "Failed to finish")
        || contains_str(&e, "Failed to refine") || contains_str(&e, "no unifiers") {
        "tactic-mismatch"
    } else if contains_str(&e, "Bad context") {
        "structural-mismatch"
    } else {
        "generic-failure"
    }
}

/// The content of a learning: pattern, kind, generalisation, audience.
pub open spec fn learning_view(l: Learning) -> (Seq<char>, Seq<char>, Seq<char>, Seq<Seq<char>>) {
    (l.pattern_extracted@, l.pattern_kind@, l.generalisation@, views(l.visible_to@))
}

/// The content of an optional learning.
pub open spec fn opt_learning_view(o: Option<Learning>) -> Option<
    (Seq<char>, Seq<char>, Seq<char>, Seq<Seq<char>>),
> {
    match o {
        Some(l) => Some(learning_view(l)),
        None => None,
    }
}

/// Law: how a failure is classified by its error text.
/// - Errors naming an undefined fact or something unknown are undefined
///   references.
/// - Otherwise, errors reporting that a tactic failed to apply, to finish
///   or to refine, or found no unifiers, are tactic mismatches.
/// - Otherwise, a bad context is a structural mismatch.
/// - Any other error is a generic failure.
///
/// The anti-pattern a failed attempt teaches names the tactic and this
/// classification.
pub proof fn failure_kinds(error: Seq<char>, specialist: Seq<char>, tactic: TacticTemplate, ms: u64)
    ensures
        contains_seq(error, "Undefined fact"@) || contains_seq(error, "Unknown"@) ==> failure_kind(
            error,
        ) == "undefined-reference"@,
        !contains_seq(error, "Undefined fact"@) && !contains_seq(error, "Unknown"@) && (contains_seq(
            error,
            "Failed to apply"@,
        ) || contains_seq(error, "Failed to finish"@) || contains_seq(error, "Failed to refine"@)
            || contains_seq(error, "no unifiers"@)) ==> failure_kind(error) == "tactic-mismatch"@,
        !contains_seq(error, "Undefined fact"@) && !contains_seq(error, "Unknown"@) && !contains_seq(
            error,
            "Failed to apply"@,
        ) && !contains_seq(error, "Failed to finish"@) && !contains_seq(error, "Failed to refine"@)
            && !contains_seq(error, "no unifiers"@) && contains_seq(error, "Bad context"@)
            ==> failure_kind(error) == "structural-mismatch"@,
        !contains_seq(error, "Undefined fact"@) && !contains_seq(error, "Unknown"@) && !contains_seq(
            error,
            "Failed to apply"@,
        ) && !contains_seq(error, "Failed to finish"@) && !contains_seq(error, "Failed to refine"@)
            && !contains_seq(error, "no unifiers"@) && !contains_seq(error, "Bad context"@)
            ==> failure_kind(error) == "generic-failure"@,
        forall|e: String|
            e@ == error ==> ((#[trigger] lesson_of(
                specialist,
                tactic,
                (AttemptResult::Failed { error: e, duration_ms: ms }),
            )) matches Some(l) && l.0 == tactic.name@ + "-tactic-fails-"@ + failure_kind(error)
                && l.1 == "anti-pattern"@ && l.3 == seq![specialist]),
{
}

/// The lesson an outcome teaches: a positive pattern for a success, an
/// anti-pattern visible to the specialist, classified by the error, for a
/// failure; nothing otherwise.
pub open spec fn lesson_of(specialist: Seq<char>, tactic: TacticTemplate, result: AttemptResult) -> Option<
    (Seq<char>, Seq<char>, Seq<char>, Seq<Seq<char>>),
> {
    match result {
        AttemptResult::Succeeded { .. } => Some(
            (
                tactic.name@ + "-tactic-works"@,
                "positive"@,
                "Specialist "@ + specialist + " succeeds with `"@ + tactic.script@ + "` ("@
                    + tactic.description@ + ") on goals of this shape."@,
                seq![],
            ),
        ),
        AttemptResult::Failed { error, .. } => Some(
            (
                tactic.name@ + "-tactic-fails-"@ + failure_kind(error@),
                "anti-pattern"@,
                "Specialist "@ + specialist + " fails with `"@ + tactic.script@ + "` ("@
                    + failure_kind(error@) + "); consider "@ + suggestion_for(tactic.name@) + "."@,
                seq![specialist],
            ),
        ),
        _ => None,
    }
}

/// The lesson an outcome teaches.
pub fn derive_learning(specialist: &str, tactic: &TacticTemplate, result: &AttemptResult) -> (r:
    Option<Learning>)
    ensures
        opt_learning_view(r) == lesson_of(specialist@, *tactic, *result),
{
    match result {
        AttemptResult::Succeeded { .. } => {
            let mut pe = chars_of(tactic.name.as_str());
            append_str(&mut pe, "-tactic-works");
            let mut g = chars_of("Specialist ");
            append_str(&mut g, specialist);
            append_str(&mut g, " succeeds with `");
            append_str(&mut g, tactic.script.as_str());
            append_str(&mut g, "` (");
            append_str(&mut g, tactic.description.as_str());
            append_str(&mut g, ") on goals of this shape.");
            let l = Learning {
                pattern_extracted: string_of(&pe),
                pattern_kind: string_from("positive"),
                generalisation: string_of(&g),
                visible_to: Vec::new(),
            };
            assert(views(l.visible_to@) =~= Seq::<Seq<char>>::empty());
            Some(l)
        },
        AttemptResult::Failed { error, .. } => {
            let kind = failure_kind_exec(error.as_str());
            let mut pe = chars_of(tactic.name.as_str());
            append_str(&mut pe, "-tactic-fails-");
            append_str(&mut pe, kind);
            let mut g = chars_of("Specialist ");
            append_str(&mut g, specialist);
            append_str(&mut g, " fails with `");
            append_str(&mut g, tactic.script.as_str());
            append_str(&mut g, "` (");
            append_str(&mut g, kind);
            append_str(&mut g, "); consider ");
            let s = suggest_next(tactic);
            append_str(&mut g, s.as_str());
            append_str(&mut g, ".");
            let mut vis: Vec<String> = Vec::new();
            vis.push(string_from(specialist));
            assert(views(vis@) =~= seq![specialist@]);
            Some(
                Learning {
                    pattern_extracted: string_of(&pe),
                    pattern_kind: string_from("anti-pattern"),
                    generalisation: string_of(&g),
                    visible_to: vis,
                },
            )
        },
        _ => None,
    }
}

/// The attempt report for a tactic of a playbook.
pub fn proof_attempt(playbook: &Playbook, tactic: &TacticTemplate, goal_raw: &str, result: AttemptResult) -> (r:
    ProofAttempt)
    ensures
        r.specialist == playbook.specialist,
        r.tactic_name == tactic.name,
        r.goal_excerpt@ == first_n(goal_raw@, 200),
        r.result == result,
{
    let ex = excerpt(goal_raw);
    proof {
        if goal_raw@.len() <= 200 {
            assert(goal_raw@.take(goal_raw@.len() as int) =~= goal_raw@);
        }
    }
    ProofAttempt {
        specialist: playbook.specialist.clone(),
        tactic_name: tactic.name.clone(),
        goal_excerpt: ex,
        result,
    }
}

/// `r` is the ledger record of an attempt of `tactic` from `playbook` on a
/// goal whose hash is `goal_hash`, with outcome `result`, id `id` and
/// timestamp `timestamp`: it names the tactic and its script, carries the
/// outcome's status and explanation, and the lesson drawn from it.
pub open spec fn attempt_record_of(
    r: LedgerRecord,
    goal_raw: Seq<char>,
    goal_hash: Seq<char>,
    playbook: Playbook,
    tactic: TacticTemplate,
    result: AttemptResult,
    id: String,
    timestamp: String,
) -> bool {
    &&& r.id == id
    &&& r.timestamp == timestamp
    &&& r.goal_hash@ == goal_hash
    &&& r.goal_excerpt@ == first_n(goal_raw, 200)
    &&& r.specialist == playbook.specialist
    &&& r.approach matches Some(a) && a.description@ == "tried `"@ + tactic.name@ + "`: "@
        + tactic.description@ && views(a.tactics_attempted@) == seq![tactic.script@]
        && a.preconditions_assumed@.len() == 0
    &&& r.result matches Some(res) && res.status@ == status_of(result) && res.explanation@
        == explanation_of(result.view_of()) && res.artifacts@.len() == 0
    &&& opt_learning_view(r.learning) == lesson_of(playbook.specialist@, tactic, result)
}

/// The attempt reports of a playbook run on a goal: one per tactic, in
/// playbook order, tactic `i` with outcome `outcomes[i]`.
pub fn playbook_attempts(goal_raw: &str, playbook: &Playbook, outcomes: Vec<AttemptResult>) -> (r:
    Vec<ProofAttempt>)
    requires
        outcomes@.len() == playbook.tactics@.len(),
    ensures
        r@.len() == playbook.tactics@.len(),
        forall|i: int|
            0 <= i < r@.len() ==> (#[trigger] r@[i]).specialist == playbook.specialist
                && r@[i].tactic_name == playbook.tactics@[i].name && r@[i].goal_excerpt@
                == first_n(goal_raw@, 200) && r@[i].result == outcomes@[i],
{
    let ghost all = outcomes@;
    let n: usize = outcomes.len();
    let mut out: Vec<ProofAttempt> = Vec::new();
    let mut i: usize = 0;
    for o in it: outcomes
        invariant
            it.seq() == all,
            all.len() == playbook.tactics@.len(),
            i == it.index(),
            i <= all.len(),
            all.len() == n,
            out@.len() == i,
            forall|j: int|
                0 <= j < i ==> (#[trigger] out@[j]).specialist == playbook.specialist
                    && out@[j].tactic_name == playbook.tactics@[j].name && out@[j].goal_excerpt@
                    == first_n(goal_raw@, 200) && out@[j].result == all[j],
    {
        let a = proof_attempt(playbook, &playbook.tactics[i], goal_raw, o);
        out.push(a);
        i = i + 1;
    }
    out
}

/// The ledger records of a playbook run on a goal whose hash is
/// `goal_hash`: one per tactic, in playbook order, record `i` made from
/// tactic `i`, outcome `outcomes[i]`, id `ids[i]` and timestamp
/// `timestamps[i]`.
pub fn playbook_records(
    goal_raw: &str,
    goal_hash: &str,
    playbook: &Playbook,
    outcomes: &Vec<AttemptResult>,
    ids: &Vec<String>,
    timestamps: &Vec<String>,
) -> (r: Vec<LedgerRecord>)
    requires
        outcomes@.len() == playbook.tactics@.len(),
        ids@.len() == playbook.tactics@.len(),
        timestamps@.len() == playbook.tactics@.len(),
    ensures
        r@.len() == playbook.tactics@.len(),
        forall|i: int|
            0 <= i < r@.len() ==> attempt_record_of(
                #[trigger] r@[i],
                goal_raw@,
                goal_hash@,
                *playbook,
                playbook.tactics@[i],
                outcomes@[i],
                ids@[i],
                timestamps@[i],
            ),
{
    let mut out: Vec<LedgerRecord> = Vec::new();
    let mut i: usize = 0;
    while i < playbook.tactics.len()
        invariant
            i <= playbook.tactics@.len(),
            outcomes@.len() == playbook.tactics@.len(),
            ids@.len() == playbook.tactics@.len(),
            timestamps@.len() == playbook.tactics@.len(),
            out@.len() == i,
            forall|j: int|
                0 <= j < i ==> attempt_record_of(
                    #[trigger] out@[j],
                    goal_raw@,
                    goal_hash@,
                    *playbook,
                    playbook.tactics@[j],
                    outcomes@[j],
                    ids@[j],
                    timestamps@[j],
                ),
        decreases playbook.tactics.len() - i,
    {
        let rec = attempt_record(
            goal_raw,
            goal_hash,
            playbook,
            &playbook.tactics[i],
            &outcomes[i],
            ids[i].clone(),
            timestamps[i].clone(),
        );
        out.push(rec);
        i = i + 1;
    }
    out
}

/// Law: in a playbook run, the records and the attempt reports correspond
/// one to one: record `i` and report `i` name the same specialist and goal
/// excerpt (the whole goal when it has at most 200 characters), the
/// record's status is that of report `i`'s outcome, and records drawn with
/// distinct ids have distinct ids.
pub proof fn run_records_match_attempts(
    goal_raw: Seq<char>,
    goal_hash: Seq<char>,
    playbook: Playbook,
    outcomes: Seq<AttemptResult>,
    ids: Seq<String>,
    timestamps: Seq<String>,
    records: Seq<LedgerRecord>,
    attempts: Seq<ProofAttempt>,
)
    requires
        outcomes.len() == playbook.tactics@.len(),
        ids.len() == playbook.tactics@.len(),
        timestamps.len() == playbook.tactics@.len(),
        records.len() == playbook.tactics@.len(),
        forall|i: int|
            0 <= i < records.len() ==> attempt_record_of(
                #[trigger] records[i],
                goal_raw,
                goal_hash,
                playbook,
                playbook.tactics@[i],
                outcomes[i],
                ids[i],
                timestamps[i],
            ),
        attempts.len() == playbook.tactics@.len(),
        forall|i: int|
            0 <= i < attempts.len() ==> (#[trigger] attempts[i]).specialist == playbook.specialist
                && attempts[i].tactic_name == playbook.tactics@[i].name && attempts[i].goal_excerpt@
                == first_n(goal_raw, 200) && attempts[i].result == outcomes[i],
    ensures
        records.len() == attempts.len(),
        forall|i: int|
            0 <= i < records.len() ==> (#[trigger] records[i]).specialist == attempts[i].specialist
                && records[i].goal_excerpt@ == attempts[i].goal_excerpt@ && records[i].goal_hash@
                == goal_hash && (records[i].result matches Some(res) && res.status@ == status_of(
                attempts[i].result)),
        goal_raw.len() <= 200 ==> forall|i: int|
            0 <= i < records.len() ==> (#[trigger] records[i]).goal_excerpt@ == goal_raw,
        (forall|i: int, j: int| 0 <= i < j < ids.len() ==> ids[i] != ids[j]) ==> forall|
            i: int,
            j: int,
        | 0 <= i < j < records.len() ==> (#[trigger] records[i]).id != (#[trigger] records[j]).id,
{
    assert forall|i: int| 0 <= i < records.len() implies (#[trigger] records[i]).specialist
        == attempts[i].specialist && records[i].goal_excerpt@ == attempts[i].goal_excerpt@
        && records[i].goal_hash@ == goal_hash && (records[i].result matches Some(res)
        && res.status@ == status_of(attempts[i].result)) by {
        assert(attempt_record_of(
            records[i],
            goal_raw,
            goal_hash,
            playbook,
            playbook.tactics@[i],
            outcomes[i],
            ids[i],
            timestamps[i],
        ));
        assert(attempts[i].result == outcomes[i]);
    }
    if forall|i: int, j: int| 0 <= i < j < ids.len() ==> ids[i] != ids[j] {
        assert forall|i: int, j: int| 0 <= i < j < records.len() implies (#[trigger] records[i]).id
            != (#[trigger] records[j]).id by {
            assert(records[i].id == ids[i]);
            assert(records[j].id == ids[j]);
        }
    }
}

/// The ledger record of one attempt of a playbook's tactic on a goal whose
/// hash is `goal_hash`, with the given id and timestamp.
pub fn attempt_record(
    goal_raw: &str,
    goal_hash: &str,
    playbook: &Playbook,
    tactic: &TacticTemplate,
    result: &AttemptResult,
    id: String,
    timestamp: String,
) -> (r: LedgerRecord)
    ensures
        attempt_record_of(r, goal_raw@, goal_hash@, *playbook, *tactic, *result, id, timestamp),
{
    let learning = derive_learning(playbook.specialist.as_str(), tactic, result);
    let mut desc = chars_of("tried `");
    append_str(&mut desc, tactic.name.as_str());
    append_str(&mut desc, "`: ");
    append_str(&mut desc, tactic.description.as_str());
    let mut tactics: Vec<String> = Vec::new();
    tactics.push(tactic.script.clone());
    assert(views(tactics@) =~= seq![tactic.script@]);
    let ex = excerpt(goal_raw);
    proof {
        if goal_raw@.len() <= 200 {
            assert(goal_raw@.take(goal_raw@.len() as int) =~= goal_raw@);
        }
    }
    LedgerRecord {
        id,
        timestamp,
        goal_hash: string_from(goal_hash),
        goal_excerpt: ex,
        specialist: playbook.specialist.clone(),
        approach: Some(
            Approach {
                description: string_of(&desc),
                tactics_attempted: tactics,
                preconditions_assumed: Vec::new(),
            },
        ),
        result: Some(
            RecordResult {
                status: string_from(result.status_string()),
                explanation: explain(result),
                artifacts: Vec::new(),
            },
        ),
        learning,
    }
}

} // verus!
