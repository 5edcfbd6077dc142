//! Comparison engine for recorded test runs: matching test cases across two
//! runs, serializing step trees into line-addressable text, building diff
//! hunks over those texts, and computing pixel differences between
//! screenshots.

pub mod case_picker;
pub mod compare;
pub mod diff;
pub mod image_diff;
pub mod matcher;
pub mod models;
pub mod run_picker;
pub mod serialize;
pub mod side;
pub mod text;
