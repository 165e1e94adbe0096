//! Exact-arithmetic model of DC resistive networks.
//!
//! A circuit is a tree of series and parallel combinations of resistors,
//! owned by a [`circuit::Circuit`] aggregate together with a power supply.
//! The library computes the equivalent resistance of the tree, distributes
//! the supply voltage over every leaf by the voltage-divider law, and keeps
//! the delivered current consistent after edits.
//!
//! Every electrical quantity is an exact rational ([`rat::Rat`]), so the
//! physical laws hold exactly and are proved, not approximated.

pub mod circuit;
pub mod laws;
pub mod pages;
pub mod rat;
pub mod tension;
pub mod resistance;
pub mod topology;
