//! Reconciliation of a produce cooperative's membership roster, exemption
//! log and weekly pickup tally sheets.

pub mod cell;
pub mod date;
pub mod joker;
pub mod location;
pub mod member;
pub mod names;
pub mod reconcile;
pub mod seqs;
pub mod somato;
pub mod text;
pub mod tickoff;
