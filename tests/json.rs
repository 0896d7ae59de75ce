use ruut::json::deserialize;
use ruut::{Error, Node};

fn cool_beans() -> Node {
    Node {
        name: "cool".to_string(),
        children: vec![
            Node {
                name: "beans".to_string(),
                children: vec![Node {
                    name: "man".to_string(),
                    children: Vec::new(),
                }],
            },
            Node {
                name: "wow".to_string(),
                children: Vec::new(),
            },
        ],
    }
}

#[test]
fn json_invalid_json() {
    let json = r#"
        {{{
                    ---
                "beans": {
                    "man": null
                },
                "wow": null
            },
            "another one": null
        }
    "#;
    let deserialization_err = deserialize(json.to_string()).unwrap_err();
    let is_format_error = matches!(deserialization_err, Error::FormatSpecificError(_));
    assert!(is_format_error);
}

#[test]
fn json_zero_length_json() {
    let json = r#""#;
    let deserialization_err = deserialize(json.to_string()).unwrap_err();
    assert_eq!(deserialization_err, Error::EmptyInputError);
}

#[test]
fn json_empty_object_json() {
    let json = r#"{}"#;
    let deserialization_err = deserialize(json.to_string()).unwrap_err();
    assert_eq!(deserialization_err, Error::EmptyInputError);
}

#[test]
fn multiple_roots_json() {
    let json = r#"
        {
            "cool": {
                "beans": {
                    "man": null
                },
                "wow": null
            },
            "another one": null
        }
    "#;
    let deserialization_err = deserialize(json.to_string()).unwrap_err();
    assert_eq!(deserialization_err, Error::MultipleRootsError);
}

#[test]
fn json_good_json() {
    let json = r#"
        {
            "cool": {
                "beans": {
                    "man": null
                },
                "wow": null
            }
        }
    "#;
    let root_node = deserialize(json.to_string()).unwrap();
    assert_eq!(root_node, cool_beans());
}

#[test]
fn good_json5() {
    let json = r#"
        {
            cool: {
                // A comment
                beans: {
                    man: null,
                },
                wow: null,
            }
        }
    "#;
    let root_node = deserialize(json.to_string()).unwrap();
    assert_eq!(root_node, cool_beans());
}

#[test]
fn json_blank_input_is_empty() {
    assert_eq!(
        deserialize(" \n\t ".to_string()).unwrap_err(),
        Error::EmptyInputError
    );
}

#[test]
fn json_non_object_root() {
    assert_eq!(
        deserialize("[1, 2]".to_string()).unwrap_err(),
        Error::FormatSpecificError("root item must be an object".to_string())
    );
}

#[test]
fn json_scalar_values_are_leaves() {
    let root_node = deserialize(r#"{"r": {"n": 3, "s": "text", "l": [1]}}"#.to_string()).unwrap();
    assert_eq!(
        root_node,
        Node {
            name: "r".to_string(),
            children: vec![
                Node::new("l".to_string()),
                Node::new("n".to_string()),
                Node::new("s".to_string()),
            ],
        }
    );
}
