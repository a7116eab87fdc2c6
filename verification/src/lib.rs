//! A migration discovery-and-application engine for SurrealDB-style databases.
//!
//! Migrations are discovered by a [`types::MigrationSource`] (from disk or
//! from an embedded asset tree), diffed against an applied-state ledger, and
//! applied or reverted one transaction at a time by the
//! [`runner::MigrationRunner`].

pub mod name;
pub mod runner;
pub mod source;
pub mod text;
pub mod types;

pub use runner::MigrationRunner;
