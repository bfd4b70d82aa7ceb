//! A small getopt-style command-line option parser, in three conventions:
//! short options (`-x`, with bundling), long options (`--name` with a short
//! alias), and long-only options (`--name` or `-name`, no short alias).
//!
//! Each convention lives in its own module and follows the same shape: an
//! option table built from a list of descriptors, and a pull-based parser
//! that classifies each raw token as a free argument or a matched option,
//! extracting any attached value and invoking a registered handler.

use vstd::prelude::*;

pub mod long;
pub mod long_only;
pub mod short;
pub mod text;

verus! {

/// An option's expectation of an argument.
#[derive(Clone, Copy, Debug, PartialEq, Eq, Structural)]
pub enum ArgKind {
    /// The option must carry a value; a missing value is an error.
    Required,
    /// The option may carry an inline value, and needs none.
    Optional,
    /// The option never carries a value.
    Nil,
}

/// Why classifying an option token failed.
#[derive(Clone, Debug, PartialEq, Eq)]
pub enum OptError {
    /// The token matched no registered option.
    Invalid,
    /// The option requires a value, but none was supplied.
    ArgRequired,
    /// A value was supplied, but the option's handler rejected it
    /// with this message.
    HandleError(String),
}

/// A value-computation step registered with a handled option.
///
/// The parser calls [`Handler::handle`] with the option's extracted value
/// text, or with `""` when the option carried no value. On `Ok(v)` the
/// parser stores `v` in the option's target slot; on `Err(m)` the target is
/// left untouched and the message is surfaced as
/// [`OptError::HandleError`]. Nothing is assumed of the result: the
/// parser's contracts state what happens for either outcome.
pub trait Handler<T> {
    fn handle(&mut self, arg: &str) -> Result<T, String>;
}

} // verus!
