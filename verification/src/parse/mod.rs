pub mod grammar;
pub mod lexical;
pub mod parser;
pub mod rule;
pub mod text;

pub use self::parser::{main_module, sub_module, ParsingError};
pub use self::rule::{parse, Rule};
