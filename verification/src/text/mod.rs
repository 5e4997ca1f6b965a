//! Text formatting through the `TextFormatter` type.

pub mod formatter;
pub mod prelude;

pub use formatter::{Format, FormatterError, TextFormatter};
