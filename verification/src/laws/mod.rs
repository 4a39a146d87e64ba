//! Laws of the library: what holds of it for all inputs, said apart from the
//! definitions that its contracts use.

pub mod ages;
pub mod anchoring;
pub mod answering;
pub mod calendar;
pub mod changes;
pub mod choosing;
pub mod editing;
pub mod encoding;
pub mod exporting;
pub mod framing;
pub mod guiding;
pub mod hinting;
pub mod lines;
pub mod listing;
pub mod loading;
pub mod moving;
pub mod naming;
pub mod painting;
pub mod panes;
pub mod patches;
pub mod picking;
pub mod pressing;
pub mod prompts;
pub mod reading;
pub mod returning;
pub mod reviewing;
pub mod scheduling;
pub mod scoping;
pub mod searching;
pub mod selecting;
pub mod sessions;
pub mod showing;
pub mod splitting;
pub mod statuses;
pub mod storing;
pub mod streaming;
pub mod trees;
pub mod untracked;
pub mod walking;
pub mod wrapping;
