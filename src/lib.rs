//! Decoding of the flat `key = value` lines of a strategy-game save file
//! into typed scalar values.

pub mod laws;
pub mod parser;
pub mod scalar;
pub mod text;
pub mod value;

pub use parser::{parse_line, parse_lines, ParseResult};
pub use scalar::parse_simple_value;
pub use value::{CoercionFailure, Value};
