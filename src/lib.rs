use vstd::prelude::*;

pub mod conventional;
pub mod lexer;
pub mod parser;
pub mod token;

pub use lexer::TokenIter;
pub use parser::{parse, Parser};
pub use token::{Expression, ParseError, Token};

verus! {

} // verus!
