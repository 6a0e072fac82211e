//! Editable-text backing store for an editor.
//!
//! A document is held twice: as a piece table over an immutable original
//! text and an append-only buffer of added text, and as a rope that serves
//! the reads. Every edit is applied to both, and the two always hold the
//! same characters. Documents live in a registry, which hands out their
//! identifiers and counts their versions.
//!
//! All offsets and lengths count characters.

pub mod text;
pub mod pieces;
pub mod piece_table;
pub mod mirror;
pub mod document;
pub mod registry;
pub mod laws;
