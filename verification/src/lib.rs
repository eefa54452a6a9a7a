//! A domain-name registry: accounts register dotted names under a curated set
//! of top-level domains, attach metadata to them, and back each registration
//! with a deposit held on a reserve-based ledger.
//!
//! The crate is organised leaves-first: [`assoc`] gives the association-list
//! reasoning every stored map rests on, [`domain`] models names and their
//! canonical (lowercased) form, [`types`] holds the record and error types,
//! [`ledger`] models the balance ledger the deposits live on, [`pricing`]
//! maps a name's length to its registration price, and [`registry`] ties them
//! together into the public state-transition operations. [`laws`] proves the
//! properties that relate several operations; [`fixtures`] offers a
//! configuration builder and small helpers for exercising a registry.
pub mod assoc;
pub mod domain;
pub mod fixtures;
pub mod laws;
pub mod ledger;
pub mod pricing;
pub mod registry;
pub mod types;
