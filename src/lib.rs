//! Runtime string formatting: a template with `{}` placeholders, filled
//! from a list of values.
//!
//! A placeholder is `{position:width.precision}`, each field optional. An
//! empty position takes the next value in turn; a number picks a value by
//! index. `{{` and `}}` stand for single braces.
pub mod arguments;
pub mod fields;
pub mod laws;
pub mod model;
pub mod render;
pub mod sink;
pub mod value;

pub use arguments::{Arguments, AsStrFormatExt};
pub use model::Directive;
pub use sink::{Sink, SinkError};
pub use value::FormatArg;
