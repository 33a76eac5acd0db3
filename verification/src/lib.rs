//! Dependency resolution for game mods hosted on a central portal.
//!
//! Given the mods a user asks for, the version of the game and the releases the portal offers, the
//! resolver picks at most one release per mod so that every requirement and every dependency
//! is honoured, and prefers newer releases.

pub mod answer;
pub mod candidates;
pub mod catalogue;
pub mod client;
pub mod closure;
pub mod dependency;
pub mod diff;
pub mod error;
pub mod graph;
pub mod login;
pub mod names;
pub mod permute;
pub mod picks;
pub mod prune;
pub mod raw;
pub mod release;
pub mod requirements;
pub mod rules;
pub mod search;
pub mod solution;
pub mod solve;
pub mod text;
pub mod types;
pub mod version;
pub mod web;
