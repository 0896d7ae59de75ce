//! Token parsing with errors of its own, named after the token sequence.
use vstd::prelude::*;
use crate::{Error, ErrorKind, Node, Tree};
use crate::lisplike::parser::parse_tokens;
use crate::lisplike::tokenizer::{Token, toks_of};

verus! {

#[derive(Debug, PartialEq, Eq, Structural)]
pub enum ParserError {
    EmptyTokenSeqError,
    InvalidSeqError,
    MultipleRootsError,
}

impl ParserError {
    /// A message for the user.
    pub fn message(&self) -> (r: &'static str)
        ensures
            *self == ParserError::EmptyTokenSeqError ==> r@ == "token sequence cannot be empty"@,
            *self == ParserError::InvalidSeqError ==> r@ == "token sequence must be valid"@,
            *self == ParserError::MultipleRootsError ==> r@ == "must have one root node"@,
    {
        match self {
            ParserError::EmptyTokenSeqError => "token sequence cannot be empty",
            ParserError::InvalidSeqError => "token sequence must be valid",
            ParserError::MultipleRootsError => "must have one root node",
        }
    }
}

/// The token-sequence error that stands for a decoding error.
pub open spec fn parser_error_of(e: ErrorKind) -> ParserError {
    match e {
        ErrorKind::MissingName => ParserError::InvalidSeqError,
        ErrorKind::MultipleRoots => ParserError::MultipleRootsError,
        _ => ParserError::EmptyTokenSeqError,
    }
}

/// Parses a token sequence into the one tree it describes: no tokens or no
/// root gives `EmptyTokenSeqError`, a group without a name before it
/// `InvalidSeqError`, more than one root `MultipleRootsError`.
pub fn parse(tokens: Vec<Token>) -> (r: Result<Node, ParserError>)
    ensures
        match r {
            Ok(n) => parse_tokens(toks_of(tokens@)) == Ok::<Tree, ErrorKind>(n@),
            Err(e) => parse_tokens(toks_of(tokens@)) is Err && e == parser_error_of(
                parse_tokens(toks_of(tokens@))->Err_0,
            ),
        },
{
    match crate::lisplike::parser::parse(tokens) {
        Ok(n) => Ok(n),
        Err(Error::MissingNameError) => Err(ParserError::InvalidSeqError),
        Err(Error::MultipleRootsError) => Err(ParserError::MultipleRootsError),
        Err(_) => Err(ParserError::EmptyTokenSeqError),
    }
}

} // verus!
