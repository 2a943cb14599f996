//! A two-party, arbiter-mediated escrow ("wager") engine.
//!
//! Two users each lock an equal-value bundle of assets under a string id;
//! the arbiter later directs the combined pot to one of the two
//! participants, or the funder or arbiter cancels before the second party
//! joins. The state machine, the multi-asset balance model and the wager
//! record store are verified; message transport, persistent storage and
//! the execution of emitted transfer instructions are the host's concern.

pub mod balance;
pub mod contract;
pub mod error;
pub mod laws;
pub mod lex;
pub mod msg;
pub mod state;
