use ruut::json_properties::deserialize;
use ruut::{Error, Node};

fn bean_family() -> Node {
    Node {
        name: "big root boy".to_string(),
        children: vec![
            Node {
                name: "me, the bean man".to_string(),
                children: Vec::new(),
            },
            Node {
                name: "another child of beans".to_string(),
                children: Vec::new(),
            },
        ],
    }
}

#[test]
fn json_properties_invalid_json() {
    let json = r#"
        {{{
                    ---
                "beans": {
                    "man": null
                },
                "wow": null
            },
            "another one": null
        }
    "#;
    let deserialization_err = deserialize(
        json.to_string(),
        "{name}".to_string(),
        "children".to_string(),
        None,
    )
    .unwrap_err();
    let is_format_error = matches!(deserialization_err, Error::FormatSpecificError(_));
    assert!(is_format_error);
}

#[test]
fn json_properties_zero_length_json() {
    let json = r#""#;
    let deserialization_err = deserialize(
        json.to_string(),
        "{name}".to_string(),
        "children".to_string(),
        None,
    )
    .unwrap_err();
    assert_eq!(deserialization_err, Error::EmptyInputError);
}

#[test]
fn json_properties_empty_object_json() {
    let json = r#"{}"#;
    let deserialization_err = deserialize(
        json.to_string(),
        "{name}".to_string(),
        "children".to_string(),
        None,
    )
    .unwrap_err();
    assert_eq!(
        deserialization_err,
        Error::FormatSpecificError("missing template value".to_string())
    );
}

#[test]
fn multiple_roots_arr_json() {
    let json = r#"
        [
            {
                "name": "first root"
            },
            {
                "name": "second root",
                "children": {
                    "beans": {
                        "name": "me, the bean man"
                    }
                }
            }
        ]
    "#;
    let deserialization_err = deserialize(
        json.to_string(),
        "name".to_string(),
        "children".to_string(),
        None,
    )
    .unwrap_err();
    assert_eq!(deserialization_err, Error::MultipleRootsError);
}

#[test]
fn json_properties_good_json() {
    let json = r#"
        {
            "name": "big root boy",
            "children": [
                {
                    "name": "me, the bean man"
                },
                {
                    "name": "another child of beans"
                }
            ]
        }
    "#;
    let root_node = deserialize(
        json.to_string(),
        "{name}".to_string(),
        "children".to_string(),
        None,
    )
    .unwrap();
    assert_eq!(root_node, bean_family());
}

#[test]
fn good_json_arr() {
    let json = r#"
        [{
            "name": "big root boy",
            "children": [
                {
                    "name": "me, the bean man"
                },
                {
                    "name": "another child of beans"
                }
            ]
        }]
    "#;
    let root_node = deserialize(
        json.to_string(),
        "{name}".to_string(),
        "children".to_string(),
        None,
    )
    .unwrap();
    assert_eq!(root_node, bean_family());
}

#[test]
fn good_json_diff_json_prop_names() {
    let json = r#"
        {
            "moniker": "big root boy",
            "progeny": [
                {
                    "moniker": "me, the bean man"
                },
                {
                    "moniker": "another child of beans"
                }
            ]
        }
    "#;
    let root_node = deserialize(
        json.to_string(),
        "{moniker}".to_string(),
        "progeny".to_string(),
        None,
    )
    .unwrap();
    assert_eq!(root_node, bean_family());
}

#[test]
fn json_with_missing_prop_no_default() {
    let json = r#"
        {
            "other_thing": "other thing value",
            "not_in_all_of_them": "sassy kid",
            "children": [
                {
                    "other_thing": "other thing value 2",
                    "not_in_all_of_them": "sassy kid 2"
                },
                {
                    "other_thing": "other thing value 3"
                }
            ]
        }
    "#;
    let deserialization_err = deserialize(
        json.to_string(),
        "{other_thing}: {not_in_all_of_them}".to_string(),
        "children".to_string(),
        None,
    )
    .unwrap_err();
    assert_eq!(
        deserialization_err,
        Error::FormatSpecificError("missing template value".to_string())
    );
}

#[test]
fn json_with_missing_prop_with_default() {
    let json = r#"
        {
            "other_thing": "other thing value",
            "not_in_all_of_them": "sassy kid",
            "children": [
                {
                    "other_thing": "other thing value 2",
                    "not_in_all_of_them": "sassy kid 2"
                },
                {
                    "other_thing": "other thing value 3"
                }
            ]
        }
    "#;
    let root_node = deserialize(
        json.to_string(),
        "{other_thing}: {not_in_all_of_them}".to_string(),
        "children".to_string(),
        Some("<u fucked up>".to_string()),
    )
    .unwrap();
    let expected_root_node = Node {
        name: "other thing value: sassy kid".to_string(),
        children: vec![
            Node {
                name: "other thing value 2: sassy kid 2".to_string(),
                children: Vec::new(),
            },
            Node {
                name: "other thing value 3: <u fucked up>".to_string(),
                children: Vec::new(),
            },
        ],
    };
    assert_eq!(root_node, expected_root_node);
}

#[test]
fn root_and_leaf_by_template() {
    let root_node = deserialize(
        r#"{"name":"root","children":[{"name":"leaf"}]}"#.to_string(),
        "{name}".to_string(),
        "children".to_string(),
        None,
    )
    .unwrap();
    assert_eq!(
        root_node,
        Node {
            name: "root".to_string(),
            children: vec![Node::new("leaf".to_string())],
        }
    );
}

#[test]
fn missing_property_takes_default_verbatim() {
    let root_node = deserialize(
        r#"{"id": 7}"#.to_string(),
        "{id}: {name}".to_string(),
        "children".to_string(),
        Some("<missing>".to_string()),
    )
    .unwrap();
    assert_eq!(root_node, Node::new("7: <missing>".to_string()));
}

#[test]
fn non_string_properties_are_written_as_json() {
    let root_node = deserialize(
        r#"{"a": true, "b": null, "c": [1, "x"], "d": {"k": 2}}"#.to_string(),
        "{a}|{b}|{c}|{d}".to_string(),
        "children".to_string(),
        None,
    )
    .unwrap();
    assert_eq!(
        root_node,
        Node::new(r#"true|null|[1,"x"]|{"k":2}"#.to_string())
    );
}

#[test]
fn children_under_an_object_and_non_objects_dropped() {
    let root_node = deserialize(
        r#"{"name": "r", "children": {"x": {"name": "b"}, "y": 5, "z": {"name": "c"}}}"#.to_string(),
        "{name}".to_string(),
        "children".to_string(),
        None,
    )
    .unwrap();
    assert_eq!(
        root_node,
        Node {
            name: "r".to_string(),
            children: vec![Node::new("b".to_string()), Node::new("c".to_string())],
        }
    );
}

#[test]
fn children_key_of_other_type_gives_no_children() {
    let root_node = deserialize(
        r#"{"name": "r", "children": "none"}"#.to_string(),
        "{name}".to_string(),
        "children".to_string(),
        None,
    )
    .unwrap();
    assert_eq!(root_node, Node::new("r".to_string()));
}

#[test]
fn empty_array_is_empty_input() {
    let err = deserialize(
        "[]".to_string(),
        "{name}".to_string(),
        "children".to_string(),
        None,
    )
    .unwrap_err();
    assert_eq!(err, Error::EmptyInputError);
}

#[test]
fn scalar_root_is_format_error() {
    let err = deserialize(
        "42".to_string(),
        "{name}".to_string(),
        "children".to_string(),
        None,
    )
    .unwrap_err();
    assert_eq!(
        err,
        Error::FormatSpecificError(
            "root item must be a root object or an array containing a root object".to_string()
        )
    );
}

#[test]
fn bad_template_is_format_error() {
    let err = deserialize(
        r#"{"name": "r"}"#.to_string(),
        "{name".to_string(),
        "children".to_string(),
        None,
    )
    .unwrap_err();
    assert_eq!(
        err,
        Error::FormatSpecificError("template placeholder missing closing `}`".to_string())
    );
}
