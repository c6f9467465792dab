pub mod arguments;
pub mod bucket;
pub mod builtin;
pub mod compare;
pub mod dictionary;
pub mod error;
pub mod eval;
pub mod fuel;
pub mod key;
pub mod laws;
pub mod list;
pub mod number;
pub mod queue;
pub mod render;
pub mod semantics;
pub mod signature;
pub mod value;

pub use self::arguments::Arguments;
pub use self::builtin::{iff, list};
pub use self::dictionary::Dictionary;
pub use self::error::{ArgumentError, Error, ValueError};
pub use self::key::Key;
pub use self::number::Number;
pub use self::signature::{OptionalParameter, Signature};
pub use self::value::{
    Call, Closure, Expr, Function, KeywordArgument, KeywordExpr, List, Native, Normal,
    PositionalArgument, PositionalExpr, Value,
};
