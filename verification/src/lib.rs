//! The voting core of the minimmit consensus protocol.
//!
//! Participants exchange signed votes on proposed values, round by round.
//! A round ends with a certificate of a quorum: a notarization of one
//! proposal, or a nullification that skips the round. The crate holds the
//! signing scheme that makes and checks votes and certificates, the ledger
//! that records them per round, the state machine of one voter, which maps
//! each event to the next state and the actions to take, and the driver
//! that joins the voter to the timers of its round. The clock, the network
//! and the application stay outside: they say how much time has passed and
//! what has happened, and carry the actions out.

pub mod driver;
pub mod ed25519;
pub mod entry;
pub mod evidence;
pub mod ledger;
pub mod order;
pub mod progress;
pub mod quorum;
pub mod safety;
pub mod sanction;
pub mod scheme;
pub mod signers;
pub mod statement;
pub mod timers;
pub mod trace;
pub mod types;
pub mod voter;
