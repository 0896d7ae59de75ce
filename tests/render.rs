use ruut::lisplike::deserialize;
use ruut::{join, prettify, Error, InputFormat};

fn render_parens(text: &str) -> String {
    prettify(
        text.to_string(),
        InputFormat::Parens,
        "{name}".to_string(),
        "children".to_string(),
        None,
    )
    .unwrap()
}

#[test]
fn render_root_with_grandchild() {
    assert_eq!(
        render_parens("root(a(grandchild), b)"),
        "root\n├── a\n│   └── grandchild\n└── b".to_string()
    );
}

#[test]
fn render_single_node() {
    assert_eq!(render_parens("lonely"), "lonely".to_string());
}

#[test]
fn render_last_child_subtree_is_indented_with_spaces() {
    assert_eq!(
        render_parens("r(c(x, y))"),
        "r\n└── c\n    ├── x\n    └── y".to_string()
    );
}

#[test]
fn render_non_last_child_subtree_keeps_the_bar() {
    assert_eq!(
        render_parens("r(c(x(deep)), d)"),
        "r\n├── c\n│   └── x\n│       └── deep\n└── d".to_string()
    );
}

#[test]
fn join_empty_and_one() {
    assert_eq!(join(&Vec::new()), "".to_string());
    assert_eq!(join(&vec!["one".to_string()]), "one".to_string());
}

#[test]
fn prettify_parens() {
    let out = prettify(
        "root(a(grandchild), b)".to_string(),
        InputFormat::Parens,
        "{name}".to_string(),
        "children".to_string(),
        None,
    )
    .unwrap();
    assert_eq!(out, "root\n├── a\n│   └── grandchild\n└── b".to_string());
}

#[test]
fn prettify_json_and_json_properties() {
    let out = prettify(
        r#"{"top": {"left": null, "right": 1}}"#.to_string(),
        InputFormat::Json,
        "{name}".to_string(),
        "children".to_string(),
        None,
    )
    .unwrap();
    assert_eq!(out, "top\n├── left\n└── right".to_string());
    let out = prettify(
        r#"{"id": 1, "kids": [{"id": 2}]}"#.to_string(),
        InputFormat::JsonProperties,
        "node {id}".to_string(),
        "kids".to_string(),
        None,
    )
    .unwrap();
    assert_eq!(out, "node 1\n└── node 2".to_string());
}

#[test]
fn empty_input_under_every_format() {
    for format in [InputFormat::Parens, InputFormat::Json, InputFormat::JsonProperties] {
        let err = prettify(
            "".to_string(),
            format,
            "{name}".to_string(),
            "children".to_string(),
            Some("<missing>".to_string()),
        )
        .unwrap_err();
        assert_eq!(err, Error::EmptyInputError);
    }
}

#[test]
fn parens_two_top_level_groups() {
    assert_eq!(
        deserialize("a(b), c(d)".to_string()).unwrap_err(),
        Error::MultipleRootsError
    );
    assert_eq!(
        deserialize("a(b)c(d)".to_string()).unwrap_err(),
        Error::MultipleRootsError
    );
}

#[test]
fn parens_extra_whitespace_renders_the_same() {
    let tight = prettify(
        "r(a(b),c)".to_string(),
        InputFormat::Parens,
        String::new(),
        String::new(),
        None,
    )
    .unwrap();
    let loose = prettify(
        "  r ( \n a\t( b ) ,   c ) \n".to_string(),
        InputFormat::Parens,
        String::new(),
        String::new(),
        None,
    )
    .unwrap();
    assert_eq!(tight, loose);
}

#[test]
fn parens_group_without_name() {
    assert_eq!(
        deserialize("(a)".to_string()).unwrap_err(),
        Error::MissingNameError
    );
}

#[test]
fn input_format_names() {
    assert_eq!(InputFormat::from_name("parens"), Ok(InputFormat::Parens));
    assert_eq!(InputFormat::from_name("json"), Ok(InputFormat::Json));
    assert_eq!(
        InputFormat::from_name("jsonprop"),
        Ok(InputFormat::JsonProperties)
    );
    assert_eq!(InputFormat::from_name("yaml"), Err("invalid format type"));
    assert_eq!("json".parse::<InputFormat>(), Ok(InputFormat::Json));
}
