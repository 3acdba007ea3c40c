//! Discovery and cleanup of build-artifact directories.
//!
//! The crate models a directory tree as a value, finds artifact roots in it
//! (a directory with the conventional build-output name whose parent holds the
//! conventional project manifest), measures their recursive size, classifies
//! each against an age/size policy, renders a report, and deletes the selected
//! directories.

pub mod record;
pub mod store;
pub mod text;
pub mod tree;
