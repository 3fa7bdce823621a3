//! A streaming line highlighter: lines are split into fields on a
//! configurable delimiter, and selected fields are wrapped in terminal
//! color escape sequences chosen by a small color grammar.
//!
//! The crate is organised bottom-up: [`numbers`] holds decimal parsing and
//! rendering, [`text`] holds substring search, inclusive splitting and
//! trimming over character vectors, [`color`] holds the color grammar,
//! [`binding`] the `FIELD:COLOR` bindings, [`size`] the byte-size
//! classifier, and [`line`] the per-line processor.

pub mod binding;
pub mod color;
pub mod errors;
pub mod line;
pub mod numbers;
pub mod size;
pub mod text;
