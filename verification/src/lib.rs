//! A custodial limit-order matching engine for a single trading pair.
//!
//! The engine keeps authoritative base/quote balances per trader, escrows
//! funds against resting limit orders, crosses a resting sell against an
//! incoming buy at an attested reference price, and hands exclusive mutation
//! rights for each record back and forth between a durable and a fast
//! execution context through an explicit delegation state machine.
//!
//! Token custody, price attestation and persistent record storage are
//! external collaborators: this crate works on plain values they hand in
//! and proves the bookkeeping around them.

pub mod delegation;
pub mod errors;
pub mod exchange;
pub mod laws;
pub mod state;
pub mod sums;
