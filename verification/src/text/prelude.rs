//! The text formatting types most callers need.

pub use super::formatter::{Format, TextFormatter};
