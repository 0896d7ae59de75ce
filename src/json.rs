//! JSON (or JSON5) whose single top-level key is the root: each key of an
//! object value is a child, and a key with any other value is a leaf.
use vstd::prelude::*;
use vstd::string::StringExecFns;
use crate::json_value::{JsonValue, Member, json5_doc, parse_json5};
use crate::text::{chars_of, trim, trimmed};
use crate::{Error, ErrorKind, Node, Tree, leaf, outcome, trees_of};

verus! {

/// The tree of a key and its value.
pub open spec fn tree_of_member(key: Seq<char>, value: JsonValue) -> Tree
    decreases value,
{
    match value {
        JsonValue::Object(members) => Tree {
            name: key,
            children: Seq::new(
                members@.len(),
                |i: int|
                    if 0 <= i < members@.len() {
                        tree_of_member(members@[i].key@, members@[i].value)
                    } else {
                        leaf(Seq::empty())
                    },
            ),
        },
        _ => leaf(key),
    }
}

/// What a parsed document decodes to: an object with exactly one key is the
/// root; no key is empty input, more than one is several roots.
pub open spec fn decode_json_doc(doc: Result<JsonValue, Seq<char>>) -> Result<Tree, ErrorKind> {
    match doc {
        Err(m) => Err(ErrorKind::FormatSpecific(m)),
        Ok(JsonValue::Object(members)) => {
            if members@.len() > 1 {
                Err(ErrorKind::MultipleRoots)
            } else if members@.len() == 0 {
                Err(ErrorKind::EmptyInput)
            } else {
                Ok(tree_of_member(members@[0].key@, members@[0].value))
            }
        },
        Ok(_) => Err(ErrorKind::FormatSpecific("root item must be an object"@)),
    }
}

/// What decoding JSON text gives: blank text is empty input, otherwise the
/// parsed document decoded.
pub open spec fn decode_json(text: Seq<char>) -> Result<Tree, ErrorKind> {
    if trim(text).len() == 0 {
        Err(ErrorKind::EmptyInput)
    } else {
        decode_json_doc(json5_doc(text))
    }
}

/// Decodes JSON or JSON5 text into its one root node.
pub fn deserialize(serialized: String) -> (r: Result<Node, Error>)
    ensures
        outcome(r) == decode_json(serialized@),
{
    let chars = chars_of(serialized.as_str());
    if trimmed(&chars).as_str().is_empty() {
        return Err(Error::EmptyInputError);
    }
    match parse_json5(serialized.as_str()) {
        Ok(root) => deserialize_value(&root),
        Err(m) => Err(Error::FormatSpecificError(m)),
    }
}

/// Decodes a parsed document into its one root node.
pub fn deserialize_value(root: &JsonValue) -> (r: Result<Node, Error>)
    ensures
        outcome(r) == decode_json_doc(Ok(*root)),
{
    match root {
        JsonValue::Object(members) => {
            if members.len() > 1 {
                Err(Error::MultipleRootsError)
            } else if members.len() == 0 {
                Err(Error::EmptyInputError)
            } else {
                Ok(json_value_to_node(members[0].key.clone(), &members[0].value))
            }
        },
        _ => Err(Error::FormatSpecificError(String::from_str("root item must be an object"))),
    }
}

/// The node of a key and its value.
fn json_value_to_node(name: String, value: &JsonValue) -> (r: Node)
    ensures
        r@ == tree_of_member(name@, *value),
    decreases value,
{
    match value {
        JsonValue::Object(members) => {
            let mut children: Vec<Node> = Vec::new();
            let mut i: usize = 0;
            while i < members.len()
                invariant
                    i <= members@.len(),
                    *value == JsonValue::Object(*members),
                    children@.len() == i,
                    forall|k: int|
                        0 <= k < i ==> (#[trigger] children@[k])@ == tree_of_member(
                            members@[k].key@,
                            members@[k].value,
                        ),
                decreases members@.len() - i,
            {
                proof {
                    assert(decreases_to!(*value => (*value)->Object_0));
                    assert((*value)->Object_0 == *members);
                    assert(decreases_to!(*members => members[i as int]));
                    assert(decreases_to!(members[i as int] => members[i as int].value));
                    assert(decreases_to!(*value => members[i as int].value));
                }
                let child = json_value_to_node(members[i].key.clone(), &members[i].value);
                children.push(child);
                i = i + 1;
            }
            let r = Node { name, children };
            assert(r@.children =~= tree_of_member(name@, *value).children);
            r
        },
        _ => Node::new(name),
    }
}

} // verus!
