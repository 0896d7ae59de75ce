//! The parenthesis notation: `root(child(grandchild), other child)`.
use vstd::prelude::*;
use crate::{Error, ErrorKind, Node, Tree, outcome};
use parser::parse_tokens;
use parser::{complete_group, lemma_two_groups};
use tokenizer::{
    is_blank, is_control, lemma_tokenize_empty, lemma_tokens_blank_insert, lemma_tokens_concat,
    tokens_of,
};

pub mod parser;
pub mod tokenizer;

verus! {

/// What decoding parenthesis notation gives.
pub open spec fn decode_parens(text: Seq<char>) -> Result<Tree, ErrorKind> {
    parse_tokens(tokens_of(text))
}

/// Decodes parenthesis notation into its one root node.
pub fn deserialize(serialized: String) -> (r: Result<Node, Error>)
    ensures
        outcome(r) == decode_parens(serialized@),
{
    let tokens = tokenizer::tokenize(serialized.as_str());
    parser::parse(tokens)
}

/// Whitespace put between tokens (at either end of the text, or next to a
/// parenthesis or comma) does not change what the text decodes to, and so not
/// how it renders.
pub proof fn lemma_whitespace_insensitive(s1: Seq<char>, w: Seq<char>, s2: Seq<char>)
    requires
        is_blank(w),
        s1.len() == 0 || is_control(s1.last()) || s2.len() == 0 || is_control(s2[0]),
    ensures
        decode_parens(s1 + w + s2) == decode_parens(s1 + s2),
{
    lemma_tokens_blank_insert(s1, w, s2);
}

/// Two complete top-level groups side by side, the first ending in a
/// parenthesis or comma, decode to several roots.
pub proof fn lemma_sibling_groups(s1: Seq<char>, s2: Seq<char>)
    requires
        s1.len() > 0,
        is_control(s1.last()),
        complete_group(tokens_of(s1)),
        complete_group(tokens_of(s2)),
    ensures
        decode_parens(s1 + s2) == Err::<Tree, ErrorKind>(ErrorKind::MultipleRoots),
{
    lemma_tokens_concat(s1, s2);
    lemma_two_groups(tokens_of(s1), tokens_of(s2));
}

/// Blank text, the empty text among it, holds no tokens and decodes to empty
/// input.
pub proof fn lemma_blank_parens(text: Seq<char>)
    requires
        is_blank(text),
    ensures
        tokens_of(text).len() == 0,
        decode_parens(text) == Err::<Tree, ErrorKind>(ErrorKind::EmptyInput),
{
    let e = Seq::<char>::empty();
    lemma_tokens_blank_insert(e, text, e);
    assert(e + text + e =~= text);
    assert(e + e =~= e);
    lemma_tokenize_empty();
}

} // verus!
