//! A small library behind a font-listing desktop application.
//!
//! Two pieces of logic live here, both fully verified:
//!
//! * a window-geometry codec that stores a window's position and size in a
//!   two-line text format and restores it on the next run, and
//! * a font catalog that turns the faces of a font database into a
//!   display-ready list of family names, deduplicated by name.
//!
//! A thin reducer ties the pieces to the events a windowing shell delivers.

pub mod catalog;
pub mod geometry;
pub mod numtext;
pub mod scan;
pub mod shell;
