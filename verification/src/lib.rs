//! Seeds a relational store with restaurant, food and ingredient records
//! parsed from delimited text rows, and links foods to randomly chosen
//! ingredients under referential constraints.
//!
//! The store itself is modelled in memory (`store::Store`); persisting the
//! final state to an actual database is left to the surrounding binary.

pub mod links;
pub mod nutrition;
pub mod records;
pub mod run;
pub mod store;
pub mod text;

