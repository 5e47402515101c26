//! Verified engine for sorting files into category folders by extension.
//!
//! The library classifies file names by their extension, resolves
//! collision-free destination names, plans relocations over a snapshot of a
//! directory tree, and accounts for the results of a run.  All decisions are
//! made here over plain values; reading directories and moving files is left
//! to the (unverified) caller, which feeds snapshots in and carries plans out.

pub mod config;
pub mod file_ops;
pub mod sorter;
pub mod text;
pub mod tree;
