//! Sub-options for command-line options: `--opt key1=val1:key2=val2`.
//!
//! One option value holds a list of tokens with `:` between them. Each
//! token is a bare value or a `key=value` pair. A record type that
//! implements [`SubOpt`] starts at its default value and is built up from
//! the tokens, one at a time and from left to right, by
//! [`SubOptParser::parse`]. The first token that the record rejects ends
//! the parse with a [`SubOptError`].
//!
//! ```text
//! struct Buf { source: usize, offset: usize }
//!
//! "source=0:offset=1000"   Buf { source: 0, offset: 1000 }
//! "offset=1000:source=0"   Buf { source: 0, offset: 1000 }
//! "source=abc"             SubOptError::Custom(..)
//! "source"                 SubOptError::MissingValueForKey("source")
//! "sauce=0"                SubOptError::UnknownKey("sauce")
//! ```
//!
//! The crate is verified with Verus:
//!
//! - [`grammar`] says what the tokens of an option value are and splits
//!   an option value into them;
//! - [`record`] holds the trait and says what a list of tokens does to a
//!   record;
//! - [`parser`] holds the parser, whose result is what [`parser::parsed`]
//!   says;
//! - [`laws`] proves what follows for every record type and every option
//!   value;
//! - [`error`] holds the error and its message;
//! - [`diagnostic`] turns the error into a `clap::Error`. The call of
//!   `clap::Error::raw` there is the one place where a contract is
//!   believed and not proved.

mod ascii;
pub mod diagnostic;
pub mod error;
pub mod grammar;
pub mod laws;
pub mod parser;
pub mod record;

pub use diagnostic::ErrorClass;
pub use error::{SubOptError, SubOptErrorView};
pub use parser::SubOptParser;
pub use record::SubOpt;
