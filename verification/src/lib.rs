pub mod ast;
pub mod charposition;
pub mod date;
pub mod de;
pub mod error;
pub mod lexer;
pub mod location;
pub mod normalizer;
pub mod parser;
pub mod peekableiter;
pub mod printer;
pub mod separators;
pub mod text;
pub mod token;
pub mod trailing;

pub use error::AsonError;
pub use de::{from_char_stream, from_str};
pub use parser::{parse_from_char_stream, parse_from_str};
pub use printer::print_to_tokens;
