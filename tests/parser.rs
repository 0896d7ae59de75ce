use ruut::lisplike::parser::parse;
use ruut::lisplike::tokenizer::Token;
use ruut::parser::{self as token_parser, ParserError};
use ruut::{Error, Node};

fn multiple_roots() -> Vec<Token> {
    vec![
        Token::Name("papa".to_string()),
        Token::ParenOpen,
        Token::Name("bebe".to_string()),
        Token::ParenClose,
        Token::Name("popo".to_string()),
        Token::ParenOpen,
        Token::Name("bubu".to_string()),
        Token::ParenClose,
    ]
}

fn good_sequence() -> Vec<Token> {
    vec![
        Token::Name("papa".to_string()),
        Token::ParenOpen,
        Token::Name("bebe".to_string()),
        Token::ParenOpen,
        Token::Name("gege".to_string()),
        Token::ParenClose,
        Token::Comma,
        Token::Name("fefe".to_string()),
        Token::ParenClose,
    ]
}

fn good_tree() -> Node {
    Node {
        name: "papa".to_string(),
        children: vec![
            Node {
                name: "bebe".to_string(),
                children: vec![Node {
                    name: "gege".to_string(),
                    children: Vec::new(),
                }],
            },
            Node {
                name: "fefe".to_string(),
                children: Vec::new(),
            },
        ],
    }
}

#[test]
fn parser_empty() {
    let parser_error = parse(Vec::<Token>::new()).unwrap_err();
    assert_eq!(parser_error, Error::EmptyInputError);
    let parser_error = token_parser::parse(Vec::<Token>::new()).unwrap_err();
    assert_eq!(parser_error, ParserError::EmptyTokenSeqError);
}

#[test]
fn parser_multiple_root_sequence() {
    let parser_error = parse(multiple_roots()).unwrap_err();
    assert_eq!(parser_error, Error::MultipleRootsError);
    let parser_error = token_parser::parse(multiple_roots()).unwrap_err();
    assert_eq!(parser_error, ParserError::MultipleRootsError);
}

#[test]
fn parser_good_token_sequence() {
    let root_node = parse(good_sequence()).unwrap();
    assert_eq!(root_node, good_tree());
    let root_node = token_parser::parse(good_sequence()).unwrap();
    assert_eq!(root_node, good_tree());
}

#[test]
fn group_without_name_is_missing_name() {
    let tokens = vec![
        Token::ParenOpen,
        Token::Name("orphan".to_string()),
        Token::ParenClose,
    ];
    assert_eq!(parse(tokens).unwrap_err(), Error::MissingNameError);
    let tokens = vec![
        Token::ParenOpen,
        Token::Name("orphan".to_string()),
        Token::ParenClose,
    ];
    assert_eq!(
        token_parser::parse(tokens).unwrap_err(),
        ParserError::InvalidSeqError
    );
}

#[test]
fn separators_alone_have_no_root() {
    let tokens = vec![Token::Comma, Token::Comma];
    assert_eq!(parse(tokens).unwrap_err(), Error::EmptyInputError);
}

#[test]
fn groups_after_one_name_add_children() {
    let tokens = vec![
        Token::Name("a".to_string()),
        Token::ParenOpen,
        Token::Name("b".to_string()),
        Token::ParenClose,
        Token::ParenOpen,
        Token::Name("c".to_string()),
        Token::ParenClose,
    ];
    assert_eq!(
        parse(tokens).unwrap(),
        Node {
            name: "a".to_string(),
            children: vec![Node::new("b".to_string()), Node::new("c".to_string())],
        }
    );
}

#[test]
fn parser_error_messages() {
    assert_eq!(
        ParserError::EmptyTokenSeqError.message(),
        "token sequence cannot be empty"
    );
    assert_eq!(
        ParserError::InvalidSeqError.message(),
        "token sequence must be valid"
    );
    assert_eq!(
        ParserError::MultipleRootsError.message(),
        "must have one root node"
    );
}
