//! Line-level differences between two texts.
//!
//! [`compute_diff`] splits two texts into lines and returns, line by line,
//! what was kept, what was deleted and what was inserted to turn the
//! original into the modified text. The result is a shortest edit script:
//! no other script has fewer deletions and insertions. Where the lines
//! repeat and several scripts are shortest, two rules choose one: equal
//! lines are kept wherever they stand next, and a deletion goes before an
//! insertion wherever both begin a shortest script.
//!
//! The modules, from the statement to the search:
//! - [`script`]: edit scripts, and what it means to be a diff of two line
//!   sequences;
//! - [`lines`]: the lines of a text;
//! - [`distance`]: the edit distance;
//! - [`canonical`]: the script that a diff returns;
//! - [`rules`]: the rules that this script obeys, and that no other script obeys;
//! - [`differ`]: the functions that compute it.

pub mod canonical;
pub mod differ;
pub mod distance;
mod frontier;
pub mod lines;
pub mod rules;
pub mod script;

pub use differ::{compute_diff, compute_diff_within, diff_lines, diff_lines_within};
pub use lines::split_lines;
pub use script::{DiffKind, DiffOp};
