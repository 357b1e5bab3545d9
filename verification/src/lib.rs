//! A configurable, line-oriented text linter with verified diagnostics.

pub mod lint;
pub mod marker;
pub mod positions;
pub mod render;
pub mod rules;
pub mod runner;
pub mod text;
pub mod types;
pub mod util;
