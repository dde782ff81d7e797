//! A verified single-election voting ledger.
//!
//! The library holds the whole election state machine: an administrator
//! fixed at construction, a candidate registry, an allow-list of voters with
//! one-vote enforcement, an explicit voting-session lifecycle, and the tally
//! and winner queries. Every operation is specified against a mathematical
//! model of the state (`model::ElectionState`) and proved to follow it.
//!
//! The host concerns around the machine — persistent storage, caller
//! authentication, the random id source, and event publication — are left to
//! the embedding layer, which hands this library plain values: principals
//! arrive as byte identities already authenticated by the host, and freshly
//! minted candidate ids arrive as integers.
//!
//! Layout: `types` holds the records and their views, `model` the
//! mathematical state and one transition function per operation, `election`
//! the executable state machine proved to follow those transitions, `lemmas`
//! the supporting facts, and `laws` the proved properties that span several
//! operations (single vote, tally counting, the restart guard, revocation,
//! and the winner characterization).

pub mod election;
pub mod laws;
pub mod lemmas;
pub mod model;
pub mod types;

pub use election::VotingContract;
pub use types::Candidate;
pub use types::Error;
pub use types::Voter;
