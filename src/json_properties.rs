//! JSON whose nodes are objects, named by a template over their properties;
//! the children of an object sit under a configurable key.
use vstd::prelude::*;
use vstd::string::StringExecFns;
use crate::json_value::{JsonValue, Member, json5_doc, parse_json5};
use crate::text::{chars_of, trim, trimmed};
use crate::{Error, ErrorKind, Node, Tree, leaf, lemma_node_view, outcome, trees_of};
use template::{Template, TemplateV, compile, filled, texts_of};

pub mod template;

verus! {

/// The text of an optional string.
pub open spec fn opt_text(o: Option<String>) -> Option<Seq<char>> {
    match o {
        Some(s) => Some(s@),
        None => None,
    }
}

/// The position of the first member at or after `i` whose key is `key`.
pub open spec fn find_key(members: Seq<Member>, key: Seq<char>, i: int) -> Option<int>
    decreases members.len() - i,
{
    if i < 0 || i >= members.len() {
        None
    } else if members[i].key@ == key {
        Some(i)
    } else {
        find_key(members, key, i + 1)
    }
}

/// The text that a property contributes to a name: a string as it is, any
/// other value as its JSON text.
pub open spec fn prop_text(m: Member) -> Seq<char> {
    match m.value {
        JsonValue::Str(s) => s@,
        _ => m.text@,
    }
}

/// The value put in place of the placeholder `name`: the property of that
/// name, else the default, if any.
pub open spec fn placeholder_value(
    members: Seq<Member>,
    name: Seq<char>,
    default: Option<Seq<char>>,
) -> Option<Seq<char>> {
    match find_key(members, name, 0) {
        Some(i) => Some(prop_text(members[i])),
        None => default,
    }
}

/// The name of an object: the template filled with its placeholder values,
/// or an error if one of them has none.
pub open spec fn name_of(t: TemplateV, members: Seq<Member>, default: Option<Seq<char>>) -> Result<
    Seq<char>,
    ErrorKind,
> {
    if exists|i: int|
        0 <= i < t.names.len() && placeholder_value(members, #[trigger] t.names[i], default)
            is None {
        Err(ErrorKind::FormatSpecific("missing template value"@))
    } else {
        Ok(
            filled(
                t.parts,
                Seq::new(
                    t.names.len(),
                    |i: int| placeholder_value(members, t.names[i], default)->Some_0,
                ),
            ),
        )
    }
}

/// `ts` with `o` in front of it, if `o` holds a tree.
pub open spec fn cons_opt(o: Option<Tree>, ts: Seq<Tree>) -> Seq<Tree> {
    match o {
        Some(t) => seq![t] + ts,
        None => ts,
    }
}

/// A node named `name` with the children that `kids` gives.
pub open spec fn with_children(name: Seq<char>, kids: Result<Seq<Tree>, ErrorKind>) -> Result<
    Option<Tree>,
    ErrorKind,
> {
    match kids {
        Err(e) => Err(e),
        Ok(ts) => Ok(Some(Tree { name, children: ts })),
    }
}

/// The tree of a JSON value: an object becomes a node named by the template
/// whose children are the objects under `key` (the values of an object there,
/// or the elements of an array there); any other value gives no node.
pub open spec fn node_of(
    v: JsonValue,
    t: TemplateV,
    key: Seq<char>,
    default: Option<Seq<char>>,
) -> Result<Option<Tree>, ErrorKind>
    decreases v,
{
    match v {
        JsonValue::Object(members) => match name_of(t, members@, default) {
            Err(e) => Err(e),
            Ok(name) => match find_key(members@, key, 0) {
                Some(i) => {
                    if 0 <= i < members@.len() {
                        match members@[i].value {
                            JsonValue::Object(cs) => with_children(
                                name,
                                member_kids(cs@, t, key, default),
                            ),
                            JsonValue::Array(a) => with_children(
                                name,
                                array_kids(a@, t, key, default),
                            ),
                            _ => Ok(Some(leaf(name))),
                        }
                    } else {
                        Ok(Some(leaf(name)))
                    }
                },
                None => Ok(Some(leaf(name))),
            },
        },
        _ => Ok(None),
    }
}

/// The trees of the elements of an array, in order; the first error stops.
pub open spec fn array_kids(
    a: Seq<JsonValue>,
    t: TemplateV,
    key: Seq<char>,
    default: Option<Seq<char>>,
) -> Result<Seq<Tree>, ErrorKind>
    decreases a,
{
    if a.len() == 0 {
        Ok(Seq::empty())
    } else {
        match node_of(a[0], t, key, default) {
            Err(e) => Err(e),
            Ok(o) => match array_kids(a.subrange(1, a.len() as int), t, key, default) {
                Err(e) => Err(e),
                Ok(ts) => Ok(cons_opt(o, ts)),
            },
        }
    }
}

/// The trees of the values of an object's members, in order; the first error
/// stops.
pub open spec fn member_kids(
    ms: Seq<Member>,
    t: TemplateV,
    key: Seq<char>,
    default: Option<Seq<char>>,
) -> Result<Seq<Tree>, ErrorKind>
    decreases ms,
{
    if ms.len() == 0 {
        Ok(Seq::empty())
    } else {
        match node_of(ms[0].value, t, key, default) {
            Err(e) => Err(e),
            Ok(o) => match member_kids(ms.subrange(1, ms.len() as int), t, key, default) {
                Err(e) => Err(e),
                Ok(ts) => Ok(cons_opt(o, ts)),
            },
        }
    }
}

/// An object that lacks a property named in the template: with no default,
/// naming it fails with the missing-value error, and so does decoding it;
/// with a default, every placeholder has a value, the missing one the
/// default itself.
pub proof fn lemma_missing_property(
    members: Vec<Member>,
    t: TemplateV,
    key: Seq<char>,
    i: int,
    d: Seq<char>,
)
    requires
        0 <= i < t.names.len(),
        find_key(members@, t.names[i], 0) is None,
    ensures
        name_of(t, members@, None) == Err::<Seq<char>, ErrorKind>(
            ErrorKind::FormatSpecific("missing template value"@),
        ),
        node_of(JsonValue::Object(members), t, key, None) == Err::<Option<Tree>, ErrorKind>(
            ErrorKind::FormatSpecific("missing template value"@),
        ),
        placeholder_value(members@, t.names[i], Some(d)) == Some(d),
        name_of(t, members@, Some(d)) == Ok::<Seq<char>, ErrorKind>(
            filled(
                t.parts,
                Seq::new(
                    t.names.len(),
                    |j: int| placeholder_value(members@, t.names[j], Some(d))->Some_0,
                ),
            ),
        ),
{
    assert(placeholder_value(members@, t.names[i], None) is None);
    assert forall|j: int| 0 <= j < t.names.len() implies placeholder_value(
        members@,
        #[trigger] t.names[j],
        Some(d),
    ) is Some by {}
}

/// `pre` in front of the trees that `r` gives.
pub open spec fn prepend(pre: Seq<Tree>, r: Result<Seq<Tree>, ErrorKind>) -> Result<
    Seq<Tree>,
    ErrorKind,
> {
    match r {
        Err(e) => Err(e),
        Ok(ts) => Ok(pre + ts),
    }
}

/// What a parsed document decodes to: the root is a bare object or the one
/// element of an array.
pub open spec fn decode_doc(
    doc: JsonValue,
    t: TemplateV,
    key: Seq<char>,
    default: Option<Seq<char>>,
) -> Result<Tree, ErrorKind> {
    match doc {
        JsonValue::Array(a) => {
            if a@.len() > 1 {
                Err(ErrorKind::MultipleRoots)
            } else if a@.len() == 0 {
                Err(ErrorKind::EmptyInput)
            } else {
                root_of(node_of(a@[0], t, key, default))
            }
        },
        JsonValue::Object(_) => root_of(node_of(doc, t, key, default)),
        _ => Err(
            ErrorKind::FormatSpecific(
                "root item must be a root object or an array containing a root object"@,
            ),
        ),
    }
}

/// The root that decoding a value gives; no node there is empty input.
pub open spec fn root_of(r: Result<Option<Tree>, ErrorKind>) -> Result<Tree, ErrorKind> {
    match r {
        Err(e) => Err(e),
        Ok(None) => Err(ErrorKind::EmptyInput),
        Ok(Some(t)) => Ok(t),
    }
}

/// What decoding JSON text under a name template gives: blank text is empty
/// input; then the JSON is parsed, then the template compiled, then the
/// document decoded.
pub open spec fn decode_json_properties(
    text: Seq<char>,
    template: Seq<char>,
    key: Seq<char>,
    default: Option<Seq<char>>,
) -> Result<Tree, ErrorKind> {
    if trim(text).len() == 0 {
        Err(ErrorKind::EmptyInput)
    } else {
        match json5_doc(text) {
            Err(m) => Err(ErrorKind::FormatSpecific(m)),
            Ok(doc) => match compile(template) {
                Err(e) => Err(e),
                Ok(t) => decode_doc(doc, t, key, default),
            },
        }
    }
}

/// The model of a result that may hold no node.
pub open spec fn outcome_opt(r: Result<Option<Node>, Error>) -> Result<Option<Tree>, ErrorKind> {
    match r {
        Ok(Some(n)) => Ok(Some(n@)),
        Ok(None) => Ok(None),
        Err(e) => Err(e@),
    }
}

/// Decodes JSON or JSON5 text into its one root node, naming each node by
/// `template_str` over its properties and taking its children from
/// `children_key`; a missing property takes `default` if there is one.
pub fn deserialize(
    serialized: String,
    template_str: String,
    children_key: String,
    default: Option<String>,
) -> (r: Result<Node, Error>)
    ensures
        outcome(r) == decode_json_properties(
            serialized@,
            template_str@,
            children_key@,
            opt_text(default),
        ),
{
    let chars = chars_of(serialized.as_str());
    if trimmed(&chars).as_str().is_empty() {
        return Err(Error::EmptyInputError);
    }
    let root_value = match parse_json5(serialized.as_str()) {
        Ok(v) => v,
        Err(m) => return Err(Error::FormatSpecificError(m)),
    };
    let template = match Template::new(template_str) {
        Ok(t) => t,
        Err(e) => return Err(e),
    };
    deserialize_value(&root_value, &template, &children_key, &default)
}

/// Decodes a parsed document into its one root node, as `decode_doc` says.
pub fn deserialize_value(
    root_value: &JsonValue,
    template: &Template,
    children_key: &String,
    default: &Option<String>,
) -> (r: Result<Node, Error>)
    requires
        template.wf(),
    ensures
        outcome(r) == decode_doc(*root_value, template@, children_key@, opt_text(*default)),
{
    let res = match root_value {
        JsonValue::Array(a) => {
            if a.len() > 1 {
                return Err(Error::MultipleRootsError);
            } else if a.len() == 0 {
                return Err(Error::EmptyInputError);
            }
            json_value_to_node(&a[0], template, children_key, default)
        },
        JsonValue::Object(_) => json_value_to_node(root_value, template, children_key, default),
        _ => {
            return Err(
                Error::FormatSpecificError(
                    String::from_str(
                        "root item must be a root object or an array containing a root object",
                    ),
                ),
            );
        },
    };
    match res {
        Ok(Some(n)) => Ok(n),
        Ok(None) => Err(Error::EmptyInputError),
        Err(e) => Err(e),
    }
}

/// The position of the first member whose key is `key`.
fn find_member(members: &Vec<Member>, key: &String) -> (r: Option<usize>)
    ensures
        match r {
            Some(i) => find_key(members@, key@, 0) == Some(i as int) && i < members@.len(),
            None => find_key(members@, key@, 0) is None,
        },
{
    let mut i: usize = 0;
    while i < members.len()
        invariant
            i <= members@.len(),
            find_key(members@, key@, 0) == find_key(members@, key@, i as int),
        decreases members@.len() - i,
    {
        if members[i].key == *key {
            return Some(i);
        }
        i = i + 1;
    }
    None
}

/// The name of an object, as `name_of` says.
fn get_name(template: &Template, members: &Vec<Member>, default: &Option<String>) -> (r: Result<
    String,
    Error,
>)
    requires
        template.wf(),
    ensures
        match r {
            Ok(s) => name_of(template@, members@, opt_text(*default)) == Ok::<
                Seq<char>,
                ErrorKind,
            >(s@),
            Err(e) => name_of(template@, members@, opt_text(*default)) == Err::<
                Seq<char>,
                ErrorKind,
            >(e@),
        },
{
    let ghost t = template@;
    let ghost d = opt_text(*default);
    let mut values: Vec<String> = Vec::new();
    let mut k: usize = 0;
    while k < template.placeholder_names.len()
        invariant
            template.wf(),
            t == template@,
            d == opt_text(*default),
            k <= t.names.len(),
            values@.len() == k,
            forall|j: int|
                0 <= j < k ==> placeholder_value(members@, t.names[j], d) == Some(
                    #[trigger] values@[j]@,
                ),
        decreases t.names.len() - k,
    {
        let name = &template.placeholder_names[k];
        assert(t.names[k as int] == name@);
        match find_member(members, name) {
            Some(i) => {
                let v = match &members[i].value {
                    JsonValue::Str(s) => s.clone(),
                    _ => members[i].text.clone(),
                };
                values.push(v);
            },
            None => match default {
                Some(dv) => {
                    values.push(dv.clone());
                },
                None => {
                    return Err(
                        Error::FormatSpecificError(String::from_str("missing template value")),
                    );
                },
            },
        }
        k = k + 1;
    }
    let r = template.fill_values(&values);
    assert forall|i: int| 0 <= i < t.names.len() implies placeholder_value(
        members@,
        #[trigger] t.names[i],
        d,
    ) is Some by {
        assert(placeholder_value(members@, t.names[i], d) == Some(values@[i]@));
    }
    assert(texts_of(values@) =~= Seq::new(
        t.names.len(),
        |i: int| placeholder_value(members@, t.names[i], d)->Some_0,
    ));
    Ok(r)
}

/// The node of a JSON value, as `node_of` says.
fn json_value_to_node(
    value: &JsonValue,
    template: &Template,
    children_key: &String,
    default: &Option<String>,
) -> (r: Result<Option<Node>, Error>)
    requires
        template.wf(),
    ensures
        outcome_opt(r) == node_of(*value, template@, children_key@, opt_text(*default)),
    decreases value,
{
    let ghost t = template@;
    let ghost key = children_key@;
    let ghost d = opt_text(*default);
    match value {
        JsonValue::Object(members) => {
            let name = match get_name(template, members, default) {
                Ok(n) => n,
                Err(e) => return Err(e),
            };
            let mut children: Vec<Node> = Vec::new();
            match find_member(members, children_key) {
                Some(i) => {
                    proof {
                        assert(decreases_to!(*value => (*value)->Object_0));
                        assert(decreases_to!(*members => members[i as int]));
                        assert(decreases_to!(members[i as int] => members[i as int].value));
                    }
                    match &members[i].value {
                        JsonValue::Array(a) => {
                            let ghost kids = array_kids(a@, t, key, d);
                            let mut j: usize = 0;
                            assert(a@.subrange(0, a@.len() as int) =~= a@);
                            assert(trees_of(children@) =~= Seq::<Tree>::empty());
                            while j < a.len()
                                invariant
                                    template.wf(),
                                    t == template@,
                                    key == children_key@,
                                    d == opt_text(*default),
                                    j <= a@.len(),
                                    name_of(t, members@, d) == Ok::<Seq<char>, ErrorKind>(name@),
                                    find_key(members@, key, 0) == Some(i as int),
                                    i < members@.len(),
                                    *value == JsonValue::Object(*members),
                                    members@[i as int].value == JsonValue::Array(*a),
                                    decreases_to!(*value => *a),
                                    kids == array_kids(a@, t, key, d),
                                    kids == prepend(
                                        trees_of(children@),
                                        array_kids(a@.subrange(j as int, a@.len() as int), t, key, d),
                                    ),
                                decreases a@.len() - j,
                            {
                                let ghost rest = a@.subrange(j as int, a@.len() as int);
                                assert(rest[0] == a@[j as int]);
                                assert(rest.subrange(1, rest.len() as int) =~= a@.subrange(
                                    j + 1,
                                    a@.len() as int,
                                ));
                                proof {
                                    assert(decreases_to!(*a => a[j as int]));
                                }
                                let ghost pre = trees_of(children@);
                                match json_value_to_node(&a[j], template, children_key, default) {
                                    Err(e) => {
                                        assert(array_kids(rest, t, key, d) == Err::<Seq<Tree>, ErrorKind>(e@));
                                        assert(node_of(*value, t, key, d) == with_children(name@, kids));
                                        return Err(e);
                                    },
                                    Ok(Some(n)) => {
                                        children.push(n);
                                        assert(trees_of(children@) =~= pre.push(n@));
                                    },
                                    Ok(None) => {},
                                }
                                j = j + 1;
                                assert(kids == prepend(
                                    trees_of(children@),
                                    array_kids(a@.subrange(j as int, a@.len() as int), t, key, d),
                                )) by {
                                    let tail = array_kids(a@.subrange(j as int, a@.len() as int), t, key, d);
                                    if tail is Ok {
                                        assert(pre + cons_opt(node_of(a@[j - 1], t, key, d)->Ok_0, tail->Ok_0)
                                            =~= trees_of(children@) + tail->Ok_0);
                                    }
                                }
                            }
                            assert(a@.subrange(j as int, a@.len() as int) =~= Seq::<JsonValue>::empty());
                            assert(trees_of(children@) + Seq::<Tree>::empty() =~= trees_of(children@));
                            assert(node_of(*value, t, key, d) == with_children(name@, kids));
                        },
                        JsonValue::Object(cs) => {
                            let ghost kids = member_kids(cs@, t, key, d);
                            let mut j: usize = 0;
                            assert(cs@.subrange(0, cs@.len() as int) =~= cs@);
                            assert(trees_of(children@) =~= Seq::<Tree>::empty());
                            while j < cs.len()
                                invariant
                                    template.wf(),
                                    t == template@,
                                    key == children_key@,
                                    d == opt_text(*default),
                                    j <= cs@.len(),
                                    name_of(t, members@, d) == Ok::<Seq<char>, ErrorKind>(name@),
                                    find_key(members@, key, 0) == Some(i as int),
                                    i < members@.len(),
                                    *value == JsonValue::Object(*members),
                                    members@[i as int].value == JsonValue::Object(*cs),
                                    decreases_to!(*value => *cs),
                                    kids == member_kids(cs@, t, key, d),
                                    kids == prepend(
                                        trees_of(children@),
                                        member_kids(cs@.subrange(j as int, cs@.len() as int), t, key, d),
                                    ),
                                decreases cs@.len() - j,
                            {
                                let ghost rest = cs@.subrange(j as int, cs@.len() as int);
                                assert(rest[0] == cs@[j as int]);
                                assert(rest.subrange(1, rest.len() as int) =~= cs@.subrange(
                                    j + 1,
                                    cs@.len() as int,
                                ));
                                proof {
                                    assert(decreases_to!(*cs => cs[j as int]));
                                    assert(decreases_to!(cs[j as int] => cs[j as int].value));
                                }
                                let ghost pre = trees_of(children@);
                                match json_value_to_node(&cs[j].value, template, children_key, default) {
                                    Err(e) => {
                                        assert(member_kids(rest, t, key, d) == Err::<Seq<Tree>, ErrorKind>(e@));
                                        assert(node_of(*value, t, key, d) == with_children(name@, kids));
                                        return Err(e);
                                    },
                                    Ok(Some(n)) => {
                                        children.push(n);
                                        assert(trees_of(children@) =~= pre.push(n@));
                                    },
                                    Ok(None) => {},
                                }
                                j = j + 1;
                                assert(kids == prepend(
                                    trees_of(children@),
                                    member_kids(cs@.subrange(j as int, cs@.len() as int), t, key, d),
                                )) by {
                                    let tail = member_kids(cs@.subrange(j as int, cs@.len() as int), t, key, d);
                                    if tail is Ok {
                                        assert(pre + cons_opt(node_of(cs@[j - 1].value, t, key, d)->Ok_0, tail->Ok_0)
                                            =~= trees_of(children@) + tail->Ok_0);
                                    }
                                }
                            }
                            assert(cs@.subrange(j as int, cs@.len() as int) =~= Seq::<Member>::empty());
                            assert(trees_of(children@) + Seq::<Tree>::empty() =~= trees_of(children@));
                            assert(node_of(*value, t, key, d) == with_children(name@, kids));
                        },
                        _ => {
                            assert(trees_of(children@) =~= Seq::<Tree>::empty());
                        },
                    }
                },
                None => {
                    assert(trees_of(children@) =~= Seq::<Tree>::empty());
                },
            }
            let n = Node { name, children };
            proof {
                lemma_node_view(n);
            }
            Ok(Some(n))
        },
        _ => Ok(None),
    }
}

} // verus!
