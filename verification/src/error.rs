use core::fmt::Debug;
use vstd::prelude::*;

verus! {

/// The failure modes of the engine.
///
/// Each variant is a structural problem in the token stream:
///
/// - `UnexpectedEOF`: the stream was exhausted while more input was expected;
/// - `UnexpectedToken`: a token appeared where no rule accepts it;
/// - `UnmatchedDelimiter`: an enclosed group was followed by a token other than
///   its closing delimiter (carries the expected kind and the token found);
/// - `ExpectedTokenMismatch`: `expect` found a different token than requested
///   (carries the expected kind and the token found).
#[derive(Debug, Clone, PartialEq)]
pub enum VprattError<Token, PrattToken> {
    UnexpectedEOF,
    UnexpectedToken(Token),
    UnmatchedDelimiter(PrattToken, Token),
    ExpectedTokenMismatch(PrattToken, Token),
}

/// The `Debug` rendering of a value.
#[verifier::external_body]
fn debug_text<T: Debug>(value: &T) -> (r: String) {
    format!("{:?}", value)
}

impl<Token, PrattToken> VprattError<Token, PrattToken> {
    /// The one-line description of the failure, given the rendered text of
    /// the expected token kind (`expected`) and of the token found (`found`);
    /// a variant that carries no such token ignores the text.
    pub fn message_with(&self, expected: &str, found: &str) -> (r: String)
        ensures
            ({
                match self {
                    VprattError::UnexpectedEOF => r@ == "Syntax error: unexpected end of file"@,
                    VprattError::UnexpectedToken(_) => r@ == "Syntax error: unexpected token "@ + found@,
                    VprattError::UnmatchedDelimiter(_, _) => r@ == "Syntax error: expected closing delimiter "@
                        + expected@ + ", found "@ + found@,
                    VprattError::ExpectedTokenMismatch(_, _) => r@ == "Syntax error: expected "@ + expected@
                        + ", found "@ + found@,
                }
            }),
    {
        match self {
            VprattError::UnexpectedEOF => String::from_str("Syntax error: unexpected end of file"),
            VprattError::UnexpectedToken(_) => {
                let mut s = String::from_str("Syntax error: unexpected token ");
                s.append(found);
                s
            },
            VprattError::UnmatchedDelimiter(_, _) => {
                let mut s = String::from_str("Syntax error: expected closing delimiter ");
                s.append(expected);
                s.append(", found ");
                s.append(found);
                s
            },
            VprattError::ExpectedTokenMismatch(_, _) => {
                let mut s = String::from_str("Syntax error: expected ");
                s.append(expected);
                s.append(", found ");
                s.append(found);
                s
            },
        }
    }

    /// A one-line description of the failure, naming the tokens involved by
    /// their `Debug` rendering.
    pub fn message(&self) -> (r: String) where Token: Debug, PrattToken: Debug
        ensures
            ({
                match self {
                    VprattError::UnexpectedEOF => r@ == "Syntax error: unexpected end of file"@,
                    VprattError::UnexpectedToken(_) => exists|t: Seq<char>|
                        r@ == "Syntax error: unexpected token "@ + t,
                    VprattError::UnmatchedDelimiter(_, _) => exists|e: Seq<char>, f: Seq<char>|
                        r@ == "Syntax error: expected closing delimiter "@ + e + ", found "@ + f,
                    VprattError::ExpectedTokenMismatch(_, _) => exists|e: Seq<char>, f: Seq<char>|
                        r@ == "Syntax error: expected "@ + e + ", found "@ + f,
                }
            }),
    {
        let none = String::from_str("");
        let (expected, found) = match self {
            VprattError::UnexpectedEOF => (none.clone(), none),
            VprattError::UnexpectedToken(tok) => (none, debug_text(tok)),
            VprattError::UnmatchedDelimiter(e, f) => (debug_text(e), debug_text(f)),
            VprattError::ExpectedTokenMismatch(e, f) => (debug_text(e), debug_text(f)),
        };
        self.message_with(expected.as_str(), found.as_str())
    }
}

} // verus!
