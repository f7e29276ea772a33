//! DNS zone master files: a parser that yields resource records, and a
//! streaming comparison of two versions of a zone.
//!
//! [`ZoneParser`] reads a zone entry by entry. [`Differ`] compares two zones
//! through two [`Ring`]s, windows of a fixed number of record sets, so that
//! what it holds at a time does not grow with the zones.

pub mod differ;
pub mod laws;
pub mod lexer;
pub mod parser;
pub mod record;
pub mod ring;
pub mod script;
pub mod summary;
pub mod text;
pub mod vocabulary;

pub use crate::differ::{Differ, RecordDiffer};
pub use crate::lexer::ParseError;
pub use crate::parser::ZoneParser;
pub use crate::record::{Record, RecordData, RecordSet};
pub use crate::ring::{DiffError, Ring};
pub use crate::script::{DiffSection, SetDiffer};
pub use crate::summary::{Change, Summary, Tally};
pub use crate::vocabulary::{RRClass, RRType};
