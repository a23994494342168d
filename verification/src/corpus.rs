//! Corpus indexing.
//!
//! A `Corpus` is a collection of lemmas extracted from library source
//! files. Each lemma is found by its keyword at the start of a line; its
//! statement runs until a proof marker, a blank line or the next lemma.
use crate::goal::{goal_tokens, parse_goal, Goal};
use crate::text::{
    append_chars, chars_of, is_white_space, is_whitespace, lines, lines_seq, starts_with,
    starts_with_seq, string_from, string_of, strictly_sorted, trim_start, trim_start_seq, views,
    vviews, slice_chars,
};
use vstd::prelude::*;

verus! {

/// Recognised source languages.
#[derive(Clone, Copy, PartialEq, Eq, Structural, Debug, Hash)]
pub enum LibraryKind {
    Isabelle,
    Coq,
    Lean,
}

/// What `Path::extension` gives for the path `p`, as text.
pub uninterp spec fn path_extension(p: Seq<char>) -> Option<Seq<char>>;

/// Calls `std::path::Path::extension` and keeps the extension when it is
/// valid UTF-8. The contract names the result by `path_extension`; the
/// path grammar behind it is not restated.
#[verifier::external_body]
fn extension_of(path: &str) -> (r: Option<String>)
    ensures
        match r {
            Some(e) => path_extension(path@) == Some(e@),
            None => path_extension(path@) is None,
        },
{
    match std::path::Path::new(path).extension().and_then(|e| e.to_str()) {
        Some(e) => Some(e.to_string()),
        None => None,
    }
}

/// The library kind that a file extension denotes.
pub open spec fn kind_of_extension(e: Seq<char>) -> Option<LibraryKind> {
    if e == "thy"@ {
        Some(LibraryKind::Isabelle)
    } else if e == "v"@ {
        Some(LibraryKind::Coq)
    } else if e == "lean"@ {
        Some(LibraryKind::Lean)
    } else {
        None
    }
}

impl LibraryKind {
    /// The kind of a source file, by its extension: `.thy`, `.v`, `.lean`.
    pub fn from_path(path: &str) -> (r: Option<Self>)
        ensures
            r == match path_extension(path@) {
                Some(e) => kind_of_extension(e),
                None => None,
            },
    {
        match extension_of(path) {
            Some(e) => Self::from_extension(&e),
            None => None,
        }
    }

    /// The kind that a file extension (without its dot) denotes.
    pub fn from_extension(e: &str) -> (r: Option<Self>)
        ensures
            r == kind_of_extension(e@),
    {
        let ev = chars_of(e);
        let thy = chars_of("thy");
        let v = chars_of("v");
        let lean = chars_of("lean");
        if crate::text::chars_eq(&ev, &thy) {
            Some(LibraryKind::Isabelle)
        } else if crate::text::chars_eq(&ev, &v) {
            Some(LibraryKind::Coq)
        } else if crate::text::chars_eq(&ev, &lean) {
            Some(LibraryKind::Lean)
        } else {
            None
        }
    }
}

/// A single lemma extracted from a corpus file.
pub struct IndexedLemma {
    pub name: String,
    pub statement: String,
    pub file: String,
    /// One-based line number of the lemma's first line.
    pub line: usize,
    pub kind: LibraryKind,
    /// The statement's signature tokens, strictly sorted.
    pub tokens: Vec<String>,
}

impl Clone for IndexedLemma {
    fn clone(&self) -> (r: Self)
        ensures
            r.name == self.name,
            r.statement == self.statement,
            r.file == self.file,
            r.line == self.line,
            r.kind == self.kind,
            r.tokens@ == self.tokens@,
    {
        IndexedLemma {
            name: self.name.clone(),
            statement: self.statement.clone(),
            file: self.file.clone(),
            line: self.line,
            kind: self.kind,
            tokens: clone_strings(&self.tokens),
        }
    }
}

/// A copy of a vector of strings.
pub fn clone_strings(v: &Vec<String>) -> (r: Vec<String>)
    ensures
        r@ == v@,
{
    let mut out: Vec<String> = Vec::new();
    let mut i: usize = 0;
    while i < v.len()
        invariant
            i <= v.len(),
            out@ == v@.take(i as int),
        decreases v.len() - i,
    {
        out.push(v[i].clone());
        i = i + 1;
        assert(v@.take(i as int) =~= v@.take(i - 1).push(v@[i - 1]));
    }
    assert(v@.take(v.len() as int) =~= v@);
    out
}

impl IndexedLemma {
    /// The tokens as character sequences.
    pub open spec fn token_seq(&self) -> Seq<Seq<char>> {
        views(self.tokens@)
    }

    /// The tokens as a set.
    pub open spec fn token_set(&self) -> Set<Seq<char>> {
        self.token_seq().to_set()
    }

    /// The tokens are strictly sorted.
    pub open spec fn well_formed(&self) -> bool {
        strictly_sorted(self.token_seq())
    }
}

/// An indexed corpus.
pub struct Corpus {
    pub lemmas: Vec<IndexedLemma>,
}

impl Corpus {
    /// An empty corpus.
    pub fn new() -> (r: Self)
        ensures
            r.lemmas@.len() == 0,
    {
        Corpus { lemmas: Vec::new() }
    }

    /// Every lemma's tokens are strictly sorted.
    pub open spec fn well_formed(&self) -> bool {
        forall|i: int| 0 <= i < self.lemmas@.len() ==> #[trigger] self.lemmas@[i].well_formed()
    }

    /// Whether every lemma's tokens are strictly sorted.
    pub fn is_well_formed(&self) -> (r: bool)
        ensures
            r == self.well_formed(),
    {
        let mut i: usize = 0;
        while i < self.lemmas.len()
            invariant
                i <= self.lemmas.len(),
                forall|j: int| 0 <= j < i ==> #[trigger] self.lemmas@[j].well_formed(),
            decreases self.lemmas.len() - i,
        {
            if !crate::goal::tokens_sorted(&self.lemmas[i].tokens) {
                assert(!self.lemmas@[i as int].well_formed());
                return false;
            }
            i = i + 1;
        }
        true
    }

    /// Number of indexed lemmas.
    pub fn len(&self) -> (r: usize)
        ensures
            r == self.lemmas@.len(),
    {
        self.lemmas.len()
    }

    /// Whether no lemma is indexed.
    pub fn is_empty(&self) -> (r: bool)
        ensures
            r == (self.lemmas@.len() == 0),
    {
        self.lemmas.len() == 0
    }

    /// Adds the lemmas extracted from one source file.
    pub fn add_file(&mut self, content: &str, path: &str, kind: LibraryKind)
        ensures
            final(self).lemmas@.len() == old(self).lemmas@.len() + lemma_specs(
                lines_seq(content@),
                0,
                kind,
            ).len(),
            final(self).lemmas@.take(old(self).lemmas@.len() as int) == old(self).lemmas@,
            forall|k: int|
                0 <= k < lemma_specs(lines_seq(content@), 0, kind).len() ==> #[trigger]
                final(self).lemmas@[old(self).lemmas@.len() + k].matches(
                    lemma_specs(lines_seq(content@), 0, kind)[k],
                    path@,
                    kind,
                ),
    {
        let mut found = extract_lemmas(content, path, kind);
        let ghost before = self.lemmas@;
        let ghost added = found@;
        self.lemmas.append(&mut found);
        assert(self.lemmas@.take(before.len() as int) =~= before);
        assert forall|k: int| 0 <= k < added.len() implies self.lemmas@[before.len() + k] == added[k] by {}
    }
}

// ---------------------------------------------------------------------
// Specification of lemma extraction
// ---------------------------------------------------------------------

/// The words that open a lemma, by language.
pub open spec fn lemma_keywords(kind: LibraryKind) -> Seq<Seq<char>> {
    match kind {
        LibraryKind::Isabelle => seq!["lemma "@, "theorem "@, "corollary "@],
        LibraryKind::Coq => seq!["Lemma "@, "Theorem "@, "Corollary "@, "Definition "@],
        LibraryKind::Lean => seq!["theorem "@, "lemma "@, "def "@],
    }
}

/// The prefixes that open a proof, by language.
pub open spec fn proof_markers(kind: LibraryKind) -> Seq<Seq<char>> {
    match kind {
        LibraryKind::Isabelle => seq!["proof"@, "by "@, "by("@, "by\n"@, "  by "@],
        LibraryKind::Coq => seq!["Proof."@, "Proof "@],
        LibraryKind::Lean => seq![":="@, "by\n"@],
    }
}

/// The first entry of `list` that `t` starts with.
pub open spec fn first_prefix(t: Seq<char>, list: Seq<Seq<char>>) -> Option<Seq<char>>
    decreases list.len(),
{
    if list.len() == 0 {
        None
    } else if starts_with_seq(t, list[0]) {
        Some(list[0])
    } else {
        first_prefix(t, list.drop_first())
    }
}

proof fn lemma_first_prefix_starts(t: Seq<char>, list: Seq<Seq<char>>)
    ensures
        first_prefix(t, list) matches Some(x) ==> starts_with_seq(t, x),
    decreases list.len(),
{
    if list.len() > 0 && !starts_with_seq(t, list[0]) {
        lemma_first_prefix_starts(t, list.drop_first());
    }
}

proof fn lemma_first_prefix_some(t: Seq<char>, list: Seq<Seq<char>>, k: int)
    requires
        0 <= k < list.len(),
        starts_with_seq(t, list[k]),
    ensures
        first_prefix(t, list) is Some,
    decreases list.len(),
{
    if !starts_with_seq(t, list[0]) {
        lemma_first_prefix_some(t, list.drop_first(), k - 1);
    }
}

/// Law: a statement under way ends at a blank line, at a line that opens a
/// proof (`proof`, `by` in Isabelle; `Proof` in Coq; `:=`, `by` at a line
/// end in Lean) and at a line that opens another lemma (`lemma`, `theorem`,
/// `corollary` in Isabelle; `Lemma`, `Theorem`, `Corollary`, `Definition`
/// in Coq; `theorem`, `lemma`, `def` in Lean), indentation aside.
pub proof fn statement_stops(line: Seq<char>, kind: LibraryKind)
    ensures
        trim_start_seq(line).len() == 0 ==> stops_statement(line, kind),
        (exists|k: int|
            0 <= k < lemma_keywords(kind).len() && starts_with_seq(
                trim_start_seq(line),
                #[trigger] lemma_keywords(kind)[k],
            )) ==> stops_statement(line, kind),
        kind == LibraryKind::Isabelle && (starts_with_seq(trim_start_seq(line), "lemma "@)
            || starts_with_seq(trim_start_seq(line), "theorem "@) || starts_with_seq(
            trim_start_seq(line),
            "corollary "@,
        )) ==> stops_statement(line, kind),
        kind == LibraryKind::Coq && (starts_with_seq(trim_start_seq(line), "Lemma "@)
            || starts_with_seq(trim_start_seq(line), "Theorem "@) || starts_with_seq(
            trim_start_seq(line),
            "Corollary "@,
        ) || starts_with_seq(trim_start_seq(line), "Definition "@)) ==> stops_statement(line, kind),
        kind == LibraryKind::Lean && (starts_with_seq(trim_start_seq(line), "theorem "@)
            || starts_with_seq(trim_start_seq(line), "lemma "@) || starts_with_seq(
            trim_start_seq(line),
            "def "@,
        )) ==> stops_statement(line, kind),
        kind == LibraryKind::Isabelle && (starts_with_seq(trim_start_seq(line), "proof"@)
            || starts_with_seq(trim_start_seq(line), "by "@) || starts_with_seq(
            trim_start_seq(line),
            "by("@,
        ) || starts_with_seq(trim_start_seq(line), "by\n"@)) ==> stops_statement(line, kind),
        kind == LibraryKind::Coq && (starts_with_seq(trim_start_seq(line), "Proof."@)
            || starts_with_seq(trim_start_seq(line), "Proof "@)) ==> stops_statement(line, kind),
        kind == LibraryKind::Lean && (starts_with_seq(trim_start_seq(line), ":="@)
            || starts_with_seq(trim_start_seq(line), "by\n"@)) ==> stops_statement(line, kind),
{
    let t = trim_start_seq(line);
    let m = proof_markers(kind);
    if exists|k: int|
        0 <= k < lemma_keywords(kind).len() && starts_with_seq(t, #[trigger] lemma_keywords(kind)[k]) {
        let k = choose|k: int|
            0 <= k < lemma_keywords(kind).len() && starts_with_seq(
                t,
                #[trigger] lemma_keywords(kind)[k],
            );
        lemma_first_prefix_some(t, lemma_keywords(kind), k);
    }
    let kw = lemma_keywords(kind);
    assert forall|k: int| 0 <= k < kw.len() && starts_with_seq(t, #[trigger] kw[k]) implies stops_statement(
        line,
        kind,
    ) by {
        lemma_first_prefix_some(t, kw, k);
    }
    assert forall|k: int| 0 <= k < m.len() && starts_with_seq(t, #[trigger] m[k]) implies stops_statement(
        line,
        kind,
    ) by {
        lemma_first_prefix_some(t, m, k);
    }
    match kind {
        LibraryKind::Isabelle => {
            assert(kw[0] == "lemma "@);
            assert(kw[1] == "theorem "@);
            assert(kw[2] == "corollary "@);
            assert(m[0] == "proof"@);
            assert(m[1] == "by "@);
            assert(m[2] == "by("@);
            assert(m[3] == "by\n"@);
        },
        LibraryKind::Coq => {
            assert(kw[0] == "Lemma "@);
            assert(kw[1] == "Theorem "@);
            assert(kw[2] == "Corollary "@);
            assert(kw[3] == "Definition "@);
            assert(m[0] == "Proof."@);
            assert(m[1] == "Proof "@);
        },
        LibraryKind::Lean => {
            assert(kw[0] == "theorem "@);
            assert(kw[1] == "lemma "@);
            assert(kw[2] == "def "@);
            assert(m[0] == ":="@);
            assert(m[1] == "by\n"@);
        },
    }
}

proof fn lemma_statement_end_bounds(lines: Seq<Seq<char>>, first: int, j: int, kind: LibraryKind)
    requires
        0 <= j <= lines.len(),
    ensures
        j <= statement_end(lines, first, j, kind) <= lines.len(),
    decreases lines.len() - j,
{
    if j < lines.len() && j - (first + 1) < 20 && !stops_statement(lines[j], kind) {
        lemma_statement_end_bounds(lines, first, j + 1, kind);
    }
}

proof fn lemma_statement_end_cap(lines: Seq<Seq<char>>, first: int, j: int, kind: LibraryKind)
    requires
        first + 1 <= j,
    ensures
        statement_end(lines, first, j, kind) <= if j > first + 21 {
            j
        } else {
            first + 21
        },
    decreases lines.len() - j,
{
    if 0 <= j < lines.len() && j - (first + 1) < 20 && !stops_statement(lines[j], kind) {
        lemma_statement_end_cap(lines, first, j + 1, kind);
    }
}

/// One lemma found at line `line` (one-based) is well placed: the line lies
/// in the file and starts, after indentation, with a lemma keyword; the
/// name is not empty; and the statement is the text of that line and at
/// most twenty following ones.
pub open spec fn well_placed(lines: Seq<Seq<char>>, sp: (Seq<char>, Seq<char>, int), kind: LibraryKind) -> bool {
    &&& 1 <= sp.2 <= lines.len()
    &&& first_prefix(trim_start_seq(lines[sp.2 - 1]), lemma_keywords(kind)) is Some
    &&& sp.0.len() > 0
    &&& exists|e: int|
        sp.2 <= e <= sp.2 + 20 && e <= lines.len() && sp.1 == #[trigger] statement_text(
            lines,
            sp.2 - 1,
            e,
        )
}

/// Law: the lemmas found from line `i` on come in strictly increasing line
/// order, all after line `i`, and each is well placed.
pub proof fn lemma_specs_shape(lines: Seq<Seq<char>>, i: int, kind: LibraryKind)
    requires
        0 <= i,
    ensures
        forall|k: int|
            0 <= k < lemma_specs(lines, i, kind).len() ==> i + 1 <= (#[trigger] lemma_specs(
                lines,
                i,
                kind,
            )[k]).2 && well_placed(lines, lemma_specs(lines, i, kind)[k], kind),
        forall|k1: int, k2: int|
            0 <= k1 < k2 < lemma_specs(lines, i, kind).len() ==> (#[trigger] lemma_specs(
                lines,
                i,
                kind,
            )[k1]).2 < (#[trigger] lemma_specs(lines, i, kind)[k2]).2,
    decreases lines.len() - i,
{
    if i < lines.len() {
        let t = trim_start_seq(lines[i]);
        match first_prefix(t, lemma_keywords(kind)) {
            None => {
                lemma_specs_shape(lines, i + 1, kind);
                assert(lemma_specs(lines, i, kind) == lemma_specs(lines, i + 1, kind));
            },
            Some(kw) => {
                let name = lemma_name(t.skip(kw.len() as int));
                if name.len() == 0 {
                    lemma_specs_shape(lines, i + 1, kind);
                    assert(lemma_specs(lines, i, kind) == lemma_specs(lines, i + 1, kind));
                } else {
                    let e = statement_end(lines, i, i + 1, kind);
                    lemma_statement_end_bounds(lines, i, i + 1, kind);
                    lemma_statement_end_cap(lines, i, i + 1, kind);
                    if e <= i || e > lines.len() {
                        assert(lemma_specs(lines, i, kind).len() == 0);
                    } else {
                        lemma_specs_shape(lines, e, kind);
                        let rest = lemma_specs(lines, e, kind);
                        let all = lemma_specs(lines, i, kind);
                        let first = (name, statement_text(lines, i, e), i + 1);
                        assert(all == seq![first] + rest);
                        assert(well_placed(lines, first, kind)) by {
                            assert(statement_text(lines, first.2 - 1, e) == first.1);
                        }
                        assert forall|k: int| 0 <= k < all.len() implies i + 1 <= (
                        #[trigger] all[k]).2 && well_placed(lines, all[k], kind) by {
                            if k > 0 {
                                assert(all[k] == rest[k - 1]);
                            }
                        }
                        assert forall|k1: int, k2: int| 0 <= k1 < k2 < all.len() implies (
                        #[trigger] all[k1]).2 < (#[trigger] all[k2]).2 by {
                            assert(all[k2] == rest[k2 - 1]);
                            if k1 > 0 {
                                assert(all[k1] == rest[k1 - 1]);
                            }
                        }
                    }
                }
            },
        }
    }
}

/// Length of the leading run of `a` before a colon or white space.
pub open spec fn name_len(a: Seq<char>) -> nat
    decreases a.len(),
{
    if a.len() == 0 || a[0] == ':' || is_white_space(a[0]) {
        0
    } else {
        1 + name_len(a.drop_first())
    }
}

/// The lemma name that follows a keyword: the text up to the first colon
/// or white space.
pub open spec fn lemma_name(after_kw: Seq<char>) -> Seq<char> {
    after_kw.take(name_len(after_kw) as int)
}

/// Whether a line ends the statement under way: it is blank, or it opens
/// a proof or another lemma.
pub open spec fn stops_statement(line: Seq<char>, kind: LibraryKind) -> bool {
    let t = trim_start_seq(line);
    t.len() == 0 || first_prefix(t, proof_markers(kind)) is Some || first_prefix(
        t,
        lemma_keywords(kind),
    ) is Some
}

/// The index of the line after a statement's last line, scanning from
/// line `j`; a statement spans at most twenty lines after its first.
pub open spec fn statement_end(lines: Seq<Seq<char>>, first: int, j: int, kind: LibraryKind) -> int
    decreases lines.len() - j,
{
    if 0 <= j < lines.len() && j - (first + 1) < 20 && !stops_statement(lines[j], kind) {
        statement_end(lines, first, j + 1, kind)
    } else {
        j
    }
}

/// Lines `first..end` joined by line feeds.
pub open spec fn statement_text(lines: Seq<Seq<char>>, first: int, end: int) -> Seq<char>
    decreases end - first,
{
    if end <= first + 1 {
        lines[first]
    } else {
        statement_text(lines, first, end - 1) + seq!['\n'] + lines[end - 1]
    }
}

/// The lemmas found from line `i` on, each as its name, its statement and
/// its one-based line number.
pub open spec fn lemma_specs(lines: Seq<Seq<char>>, i: int, kind: LibraryKind) -> Seq<
    (Seq<char>, Seq<char>, int),
>
    decreases lines.len() - i,
{
    if i < 0 || i >= lines.len() {
        seq![]
    } else {
        let t = trim_start_seq(lines[i]);
        match first_prefix(t, lemma_keywords(kind)) {
            None => lemma_specs(lines, i + 1, kind),
            Some(kw) => {
                let name = lemma_name(t.skip(kw.len() as int));
                if name.len() == 0 {
                    lemma_specs(lines, i + 1, kind)
                } else {
                    let e = statement_end(lines, i, i + 1, kind);
                    if e <= i || e > lines.len() {
                        seq![]
                    } else {
                        seq![(name, statement_text(lines, i, e), i + 1)] + lemma_specs(
                            lines,
                            e,
                            kind,
                        )
                    }
                }
            },
        }
    }
}

impl IndexedLemma {
    /// This lemma is the one that `spec` describes, found in `file`.
    pub open spec fn matches(
        &self,
        spec: (Seq<char>, Seq<char>, int),
        file: Seq<char>,
        kind: LibraryKind,
    ) -> bool {
        &&& self.name@ == spec.0
        &&& self.statement@ == spec.1
        &&& self.line as int == spec.2
        &&& self.file@ == file
        &&& self.kind == kind
        &&& self.well_formed()
        &&& self.token_set() == goal_tokens(spec.1)
    }
}

// ---------------------------------------------------------------------
// Implementation
// ---------------------------------------------------------------------

fn keyword_list(kind: LibraryKind) -> (r: Vec<Vec<char>>)
    ensures
        vviews(r@) == lemma_keywords(kind),
{
    let mut v: Vec<Vec<char>> = Vec::new();
    match kind {
        LibraryKind::Isabelle => {
            v.push(chars_of("lemma "));
            v.push(chars_of("theorem "));
            v.push(chars_of("corollary "));
        },
        LibraryKind::Coq => {
            v.push(chars_of("Lemma "));
            v.push(chars_of("Theorem "));
            v.push(chars_of("Corollary "));
            v.push(chars_of("Definition "));
        },
        LibraryKind::Lean => {
            v.push(chars_of("theorem "));
            v.push(chars_of("lemma "));
            v.push(chars_of("def "));
        },
    }
    assert(vviews(v@) =~= lemma_keywords(kind));
    v
}

fn marker_list(kind: LibraryKind) -> (r: Vec<Vec<char>>)
    ensures
        vviews(r@) == proof_markers(kind),
{
    let mut v: Vec<Vec<char>> = Vec::new();
    match kind {
        LibraryKind::Isabelle => {
            v.push(chars_of("proof"));
            v.push(chars_of("by "));
            v.push(chars_of("by("));
            v.push(chars_of("by\n"));
            v.push(chars_of("  by "));
        },
        LibraryKind::Coq => {
            v.push(chars_of("Proof."));
            v.push(chars_of("Proof "));
        },
        LibraryKind::Lean => {
            v.push(chars_of(":="));
            v.push(chars_of("by\n"));
        },
    }
    assert(vviews(v@) =~= proof_markers(kind));
    v
}

/// The index in `list` of the first entry that `t` starts with.
fn first_prefix_index(t: &Vec<char>, list: &Vec<Vec<char>>) -> (r: Option<usize>)
    ensures
        match r {
            Some(k) => k < list.len() && first_prefix(t@, vviews(list@)) == Some(list@[k as int]@),
            None => first_prefix(t@, vviews(list@)) is None,
        },
{
    let ghost l = vviews(list@);
    let mut k: usize = 0;
    assert(l.skip(0) =~= l);
    while k < list.len()
        invariant
            k <= list.len(),
            l == vviews(list@),
            first_prefix(t@, l) == first_prefix(t@, l.skip(k as int)),
        decreases list.len() - k,
    {
        assert(l.skip(k as int)[0] == list@[k as int]@);
        if starts_with(t, &list[k]) {
            return Some(k);
        }
        assert(l.skip(k as int).drop_first() =~= l.skip(k + 1));
        k = k + 1;
    }
    None
}

/// The length of the leading run of `a` before a colon or white space.
fn name_length(a: &Vec<char>) -> (r: usize)
    ensures
        r == name_len(a@),
        r <= a.len(),
{
    let mut k: usize = 0;
    assert(a@.skip(0) =~= a@);
    while k < a.len() && a[k] != ':' && !is_whitespace(a[k])
        invariant
            k <= a.len(),
            name_len(a@) == k + name_len(a@.skip(k as int)),
        decreases a.len() - k,
    {
        assert(a@.skip(k as int).drop_first() =~= a@.skip(k + 1));
        k = k + 1;
    }
    k
}

/// Extract the lemmas of one source file: each line that starts (after
/// indentation) with a lemma keyword and names the lemma opens a lemma
/// whose statement runs until a blank line, a proof marker, another
/// lemma keyword, or twenty further lines.
pub fn extract_lemmas(content: &str, path: &str, kind: LibraryKind) -> (r: Vec<IndexedLemma>)
    ensures
        r@.len() == lemma_specs(lines_seq(content@), 0, kind).len(),
        forall|k: int|
            0 <= k < r@.len() ==> #[trigger] r@[k].matches(
                lemma_specs(lines_seq(content@), 0, kind)[k],
                path@,
                kind,
            ),
{
    let text = chars_of(content);
    let ls = lines(&text);
    let ghost lsv = ls@.map_values(|l: Vec<char>| l@);
    assert(lsv == lines_seq(content@));
    let kws = keyword_list(kind);
    let markers = marker_list(kind);
    let mut out: Vec<IndexedLemma> = Vec::new();
    let mut i: usize = 0;
    while i < ls.len()
        invariant
            i <= ls.len(),
            lsv == ls@.map_values(|l: Vec<char>| l@),
            vviews(kws@) == lemma_keywords(kind),
            vviews(markers@) == proof_markers(kind),
            lemma_specs(lsv, 0, kind) == Seq::new(
                out@.len(),
                |k: int| lemma_specs(lsv, 0, kind)[k],
            ) + lemma_specs(lsv, i as int, kind),
            forall|k: int|
                0 <= k < out@.len() ==> #[trigger] out@[k].matches(
                    lemma_specs(lsv, 0, kind)[k],
                    path@,
                    kind,
                ),
        decreases ls.len() - i,
    {
        let ghost specs_i = lemma_specs(lsv, i as int, kind);
        let line = &ls[i];
        let trimmed = trim_start(line);
        assert(lsv[i as int] == line@);
        match first_prefix_index(&trimmed, &kws) {
            None => {
                i = i + 1;
            },
            Some(k) => {
                let kw_len = kws[k].len();
                proof {
                    lemma_first_prefix_starts(trimmed@, vviews(kws@));
                }
                let after = slice_chars(&trimmed, kw_len, trimmed.len());
                assert(after@ =~= trimmed@.skip(kw_len as int));
                let nl = name_length(&after);
                if nl == 0 {
                    i = i + 1;
                } else {
                    let name = slice_chars(&after, 0, nl);
                    assert(name@ =~= after@.take(nl as int));
                    let mut stmt: Vec<char> = line.clone();
                    let mut j: usize = i + 1;
                    while j < ls.len() && j - (i + 1) < 20 && !stops(&ls[j], &kws, &markers, kind)
                        invariant
                            i < j <= ls.len(),
                            j - (i + 1) <= 20,
                            lsv == ls@.map_values(|l: Vec<char>| l@),
                            vviews(kws@) == lemma_keywords(kind),
                            vviews(markers@) == proof_markers(kind),
                            stmt@ == statement_text(lsv, i as int, j as int),
                            statement_end(lsv, i as int, i + 1, kind) == statement_end(
                                lsv,
                                i as int,
                                j as int,
                                kind,
                            ),
                        decreases ls.len() - j,
                    {
                        stmt.push('\n');
                        append_chars(&mut stmt, &ls[j]);
                        assert(lsv[j as int] == ls@[j as int]@);
                        j = j + 1;
                        assert(stmt@ =~= statement_text(lsv, i as int, j - 1) + seq!['\n']
                            + lsv[j - 1]);
                    }
                    proof {
                        if j < ls.len() && j - (i + 1) < 20 {
                            assert(lsv[j as int] == ls@[j as int]@);
                        }
                        lemma_statement_end_bounds(lsv, i as int, i + 1, kind);
                    }
                    let stmt_string = string_of(&stmt);
                    let g: Goal = parse_goal(stmt_string.as_str());
                    let lemma = IndexedLemma {
                        name: string_of(&name),
                        statement: stmt_string,
                        file: string_from(path),
                        line: i + 1,
                        kind,
                        tokens: g.tokens,
                    };
                    let ghost before = out@;
                    out.push(lemma);
                    proof {
                        let all = lemma_specs(lsv, 0, kind);
                        assert(specs_i == seq![(name@, stmt@, i + 1)] + lemma_specs(
                            lsv,
                            j as int,
                            kind,
                        ));
                        assert(all[before.len() as int] == (name@, stmt@, i + 1));
                        assert forall|k: int| 0 <= k < out@.len() implies #[trigger] out@[k].matches(
                            all[k],
                            path@,
                            kind,
                        ) by {
                            if k < before.len() {
                                assert(out@[k] == before[k]);
                            }
                        }
                        assert(all =~= Seq::new(out@.len(), |k: int| all[k]) + lemma_specs(
                            lsv,
                            j as int,
                            kind,
                        ));
                    }
                    i = j;
                }
            },
        }
    }
    proof {
        let all = lemma_specs(lsv, 0, kind);
        assert(lemma_specs(lsv, i as int, kind) =~= Seq::<(Seq<char>, Seq<char>, int)>::empty());
        assert(all.len() == out@.len());
    }
    out
}

/// Whether `line` ends the statement under way.
fn stops(line: &Vec<char>, kws: &Vec<Vec<char>>, markers: &Vec<Vec<char>>, kind: LibraryKind) -> (r:
    bool)
    requires
        vviews(kws@) == lemma_keywords(kind),
        vviews(markers@) == proof_markers(kind),
    ensures
        r == stops_statement(line@, kind),
{
    let t = trim_start(line);
    if t.len() == 0 {
        return true;
    }
    match first_prefix_index(&t, markers) {
        Some(_) => true,
        None => match first_prefix_index(&t, kws) {
            Some(_) => true,
            None => false,
        },
    }
}

} // verus!
