//! Burrower locates the mathematical home of a proof goal.
//!
//! Given a goal statement (an Isabelle `lemma`, a Lean `theorem`, a Coq
//! `Theorem`), it normalises the goal to its signature tokens, ranks the
//! lemmas of an indexed corpus by token overlap, and routes the goal
//! through a swarm of domain specialists that read it, locate homes in
//! their domain, and try their playbooks of tactics. Every approach is
//! recorded in the Burrow Ledger.
use vstd::prelude::*;

pub mod text;
pub mod format;
pub mod goal;
pub mod corpus;
pub mod ranking;
pub mod ledger;
pub mod oracle;
pub mod attempt;
pub mod specialist;
pub mod serve;
pub mod digest;
pub mod wasm;

pub use attempt::{
    generate_probe, AttemptResult, Playbook, ProofAttempt, ProverConfig, TacticTemplate,
};
pub use corpus::{Corpus, IndexedLemma, LibraryKind};
pub use goal::{parse_goal, Goal};
pub use ledger::{
    goal_hash, new_id, now_iso, record_reading, Approach, Learning, Ledger, LedgerRecord,
    RecordResult,
};
pub use ranking::{rank, Home};
pub use specialist::{
    Algebraist, Combinatorialist, OrderTheorist, Reading, Specialist, Swarm, Synthesis,
};

verus! {

} // verus!
