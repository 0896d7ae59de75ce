use ruut::lisplike::tokenizer::{tokenize, Token};

#[test]
fn empty_string() {
    assert_eq!(tokenize(""), Vec::<Token>::new());
}

#[test]
fn simple_single() {
    assert_eq!(
        tokenize("(cool beans)"),
        vec![
            Token::ParenOpen,
            Token::Name("cool beans".to_string()),
            Token::ParenClose
        ]
    );
}

#[test]
fn simple_multiple() {
    assert_eq!(
        tokenize("(cool beans, better beans)"),
        vec![
            Token::ParenOpen,
            Token::Name("cool beans".to_string()),
            Token::Comma,
            Token::Name("better beans".to_string()),
            Token::ParenClose
        ]
    );
}

#[test]
fn simple_newlines() {
    assert_eq!(
        tokenize("(cool beans,\nbetter beans)\n"),
        vec![
            Token::ParenOpen,
            Token::Name("cool beans".to_string()),
            Token::Comma,
            Token::Name("better beans".to_string()),
            Token::ParenClose
        ]
    );
}

#[test]
fn invalid_combinations() {
    assert_eq!(
        tokenize("))  ((,(,(shit"),
        vec![
            Token::ParenClose,
            Token::ParenClose,
            Token::ParenOpen,
            Token::ParenOpen,
            Token::Comma,
            Token::ParenOpen,
            Token::Comma,
            Token::ParenOpen,
            Token::Name("shit".to_string()),
        ]
    );
}

#[test]
fn whitespace_and_separators_only() {
    assert_eq!(
        tokenize(" ( \t, \n ) "),
        vec![Token::ParenOpen, Token::Comma, Token::ParenClose]
    );
}

#[test]
fn whitespace_only_gives_no_tokens() {
    assert_eq!(tokenize(" \t\n  "), Vec::<Token>::new());
}

#[test]
fn trailing_name_is_trimmed() {
    assert_eq!(
        tokenize("a( b ),  c  \n"),
        vec![
            Token::Name("a".to_string()),
            Token::ParenOpen,
            Token::Name("b".to_string()),
            Token::ParenClose,
            Token::Comma,
            Token::Name("c".to_string()),
        ]
    );
}

#[test]
fn inner_whitespace_is_kept() {
    assert_eq!(
        tokenize("  big   root "),
        vec![Token::Name("big   root".to_string())]
    );
}
