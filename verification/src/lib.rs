use vstd::prelude::*;

pub mod evaluator;
pub mod glotter;
pub mod parser;
pub mod render;
pub mod tokenizer;

use crate::parser::TokenCursor;
use crate::tokenizer::Token;

verus! {

/// Every way a line of source text can fail to tokenize, parse or evaluate.
///
/// Each failure carries the offending character, text run or token, so a
/// caller can report exactly where a line went wrong.
#[derive(Debug, Clone, PartialEq)]
pub enum Error {
    /// A character that no token may contain.
    InvalidCharacter(char),
    /// A run of uppercase letters that is neither a keyword nor a single
    /// letter.
    InvalidIdentifier(String),
    /// A run of digits whose value does not fit the supported integer range.
    InvalidNumber(String),
    /// A token found where a binary operator was required.
    InvalidOperatorToken(Token),
    /// A source file that could not be read (reported by the surrounding
    /// program, never by the core itself).
    InvalidSourceFile(String),
    /// A token found where a term (number or variable) was required.
    InvalidValueToken(Token),
    /// A token that no statement form allows in its position.
    UnexpectedToken(Token),
    /// The token sequence ended where one more token was required.
    EndOfInput,
    /// A divisor of zero during evaluation.
    DivisionByZero,
    /// An operator other than plus or minus in unary position.
    InvalidUnaryOperator,
    /// An evaluation step whose result does not fit the value range.
    Overflow,
}

/// Consumes the next token of the cursor, or reports end of input: the
/// "one token or fail" step shared by every parser.
pub fn consume_token(tokens_iter: &mut TokenCursor) -> (r: Result<Token, Error>)
    ensures
        old(tokens_iter).remaining().len() == 0 ==> r == Err::<Token, Error>(Error::EndOfInput)
            && final(tokens_iter).remaining() == old(tokens_iter).remaining(),
        old(tokens_iter).remaining().len() > 0 ==> r == Ok::<Token, Error>(
            old(tokens_iter).remaining()[0],
        ) && final(tokens_iter).remaining() == old(tokens_iter).remaining().drop_first(),
{
    match tokens_iter.next() {
        Some(t) => Ok(t),
        None => Err(Error::EndOfInput),
    }
}

} // verus!
