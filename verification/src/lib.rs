//! Solve tracking for a competitive-hacking community: challenge solves are
//! submitted, moderated through an approval gate, and on approval all listed
//! solvers are credited points and re-ranked against a cutoff ladder derived
//! from the current leader's score.

pub mod bingo;
pub mod challenge;
pub mod competition;
pub mod config;
pub mod email;
pub mod error;
pub mod find;
pub mod points;
pub mod rank;
pub mod solve;
pub mod store;
pub mod user;
pub mod workflow;
