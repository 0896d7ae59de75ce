//! Decodes a serialized tree (parenthesis notation, JSON, or JSON described by
//! a name template) into a `Node` and renders it as a box-drawing diagram.
use vstd::prelude::*;
use vstd::string::StringExecFns;
use json_properties::opt_text;
use render::{lines_of, render_tree};

pub mod text;
pub mod lisplike;
pub mod json;
pub mod json_properties;
pub mod json_value;
pub mod parser;
pub mod render;

verus! {

/// The mathematical model of a `Node`: its name and its children, in order.
pub struct Tree {
    pub name: Seq<char>,
    pub children: Seq<Tree>,
}

pub open spec fn leaf(name: Seq<char>) -> Tree {
    Tree { name, children: Seq::empty() }
}

#[derive(Debug, PartialEq)]
pub struct Node {
    pub name: String,
    pub children: Vec<Node>,
}

impl View for Node {
    type V = Tree;

    open spec fn view(&self) -> Tree
        decreases self,
    {
        Tree {
            name: self.name@,
            children: Seq::new(
                self.children@.len(),
                |i: int|
                    if 0 <= i < self.children@.len() {
                        self.children@[i].view()
                    } else {
                        leaf(Seq::empty())
                    },
            ),
        }
    }
}

/// The models of a sequence of nodes.
pub open spec fn trees_of(nodes: Seq<Node>) -> Seq<Tree> {
    nodes.map_values(|n: Node| n@)
}

pub proof fn lemma_node_view(n: Node)
    ensures
        n@ == (Tree { name: n.name@, children: trees_of(n.children@) }),
{
    assert(n@.children =~= trees_of(n.children@));
}

impl Node {
    pub fn new(name: String) -> (r: Node)
        ensures
            r@ == leaf(name@),
            r.name == name,
            r.children@.len() == 0,
    {
        let r = Node { name, children: Vec::new() };
        assert(r@.children =~= Seq::<Tree>::empty());
        r
    }
}

/// The ways in which decoding can fail.
#[derive(Debug, PartialEq)]
pub enum Error {
    EmptyInputError,
    MissingNameError,
    MissingPropError,
    MultipleRootsError,
    FormatSpecificError(String),
}

/// The model of an `Error`, with the message of a format-specific error as text.
pub enum ErrorKind {
    EmptyInput,
    MissingName,
    MissingProp,
    MultipleRoots,
    FormatSpecific(Seq<char>),
}

impl View for Error {
    type V = ErrorKind;

    open spec fn view(&self) -> ErrorKind {
        match self {
            Error::EmptyInputError => ErrorKind::EmptyInput,
            Error::MissingNameError => ErrorKind::MissingName,
            Error::MissingPropError => ErrorKind::MissingProp,
            Error::MultipleRootsError => ErrorKind::MultipleRoots,
            Error::FormatSpecificError(m) => ErrorKind::FormatSpecific(m@),
        }
    }
}

} // verus!

verus! {

/// The surface syntax of a serialized tree.
#[derive(Debug, PartialEq, Eq, Structural, Clone, Copy)]
pub enum InputFormat {
    Parens,
    Json,
    JsonProperties,
}

impl InputFormat {
    /// The format called `name`: `parens`, `json` or `jsonprop`.
    pub fn from_name(name: &str) -> (r: Result<InputFormat, &'static str>)
        ensures
            r == Ok::<InputFormat, &'static str>(InputFormat::Parens) <==> name@ == "parens"@,
            r == Ok::<InputFormat, &'static str>(InputFormat::Json) <==> name@ == "json"@,
            r == Ok::<InputFormat, &'static str>(InputFormat::JsonProperties) <==> name@
                == "jsonprop"@,
            r is Err ==> r->Err_0@ == "invalid format type"@,
    {
        proof {
            reveal_strlit("parens");
            reveal_strlit("json");
            reveal_strlit("jsonprop");
            assert("parens"@.len() == 6 && "json"@.len() == 4 && "jsonprop"@.len() == 8);
        }
        let s = String::from_str(name);
        if s == String::from_str("parens") {
            Ok(InputFormat::Parens)
        } else if s == String::from_str("json") {
            Ok(InputFormat::Json)
        } else if s == String::from_str("jsonprop") {
            Ok(InputFormat::JsonProperties)
        } else {
            Err("invalid format type")
        }
    }
}

impl std::str::FromStr for InputFormat {
    type Err = &'static str;

    fn from_str(s: &str) -> Result<Self, Self::Err> {
        InputFormat::from_name(s)
    }
}

/// What decoding `text` in `format` gives; the template, children key and
/// default apply to `JsonProperties` alone.
pub open spec fn decode(
    text: Seq<char>,
    format: InputFormat,
    template: Seq<char>,
    children_key: Seq<char>,
    default: Option<Seq<char>>,
) -> Result<Tree, ErrorKind> {
    match format {
        InputFormat::Parens => lisplike::decode_parens(text),
        InputFormat::Json => json::decode_json(text),
        InputFormat::JsonProperties => json_properties::decode_json_properties(
            text,
            template,
            children_key,
            default,
        ),
    }
}

/// The lines joined by line feeds.
pub open spec fn join_lines(lines: Seq<Seq<char>>) -> Seq<char>
    decreases lines.len(),
{
    if lines.len() == 0 {
        Seq::empty()
    } else if lines.len() == 1 {
        lines[0]
    } else {
        join_lines(lines.drop_last()) + "\n"@ + lines.last()
    }
}

/// Joins lines with line feeds between them.
pub fn join(lines: &Vec<String>) -> (r: String)
    ensures
        r@ == join_lines(lines_of(lines@)),
{
    let mut r = String::new();
    let mut i: usize = 0;
    while i < lines.len()
        invariant
            i <= lines@.len(),
            r@ == join_lines(lines_of(lines@).take(i as int)),
        decreases lines@.len() - i,
    {
        let ghost before = lines_of(lines@).take(i as int);
        let ghost after = lines_of(lines@).take(i + 1);
        assert(after.drop_last() =~= before);
        if i > 0 {
            r.append("\n");
        } else {
            assert(before =~= Seq::<Seq<char>>::empty());
        }
        r.append(lines[i].as_str());
        i = i + 1;
    }
    assert(lines_of(lines@).take(lines@.len() as int) =~= lines_of(lines@));
    r
}

/// The rendered diagram of a decoded tree, or the decoding error.
pub open spec fn prettified(r: Result<Tree, ErrorKind>) -> Result<Seq<char>, ErrorKind> {
    match r {
        Ok(t) => Ok(join_lines(render_tree(t))),
        Err(e) => Err(e),
    }
}

/// Decodes `serialized` in `format` and renders the tree as a diagram, one
/// line per node.
pub fn prettify(
    serialized: String,
    format: InputFormat,
    template: String,
    children_key: String,
    default: Option<String>,
) -> (r: Result<String, Error>)
    ensures
        match r {
            Ok(s) => prettified(
                decode(serialized@, format, template@, children_key@, opt_text(default)),
            ) == Ok::<Seq<char>, ErrorKind>(s@),
            Err(e) => prettified(
                decode(serialized@, format, template@, children_key@, opt_text(default)),
            ) == Err::<Seq<char>, ErrorKind>(e@),
        },
{
    let root = match format {
        InputFormat::Parens => lisplike::deserialize(serialized),
        InputFormat::Json => json::deserialize(serialized),
        InputFormat::JsonProperties => json_properties::deserialize(
            serialized,
            template,
            children_key,
            default,
        ),
    };
    match root {
        Ok(node) => Ok(join(&render::render_lines(&node))),
        Err(e) => Err(e),
    }
}

/// Blank input (the empty text, or whitespace alone) decodes to empty input
/// in every format, whatever the options.
pub proof fn lemma_blank_input(
    text: Seq<char>,
    format: InputFormat,
    template: Seq<char>,
    children_key: Seq<char>,
    default: Option<Seq<char>>,
)
    requires
        lisplike::tokenizer::is_blank(text),
    ensures
        decode(text, format, template, children_key, default) == Err::<Tree, ErrorKind>(
            ErrorKind::EmptyInput,
        ),
{
    lisplike::lemma_blank_parens(text);
    text::lemma_trim_all_ws(text);
}

/// The model of a decoding result.
pub open spec fn outcome(r: Result<Node, Error>) -> Result<Tree, ErrorKind> {
    match r {
        Ok(n) => Ok(n@),
        Err(e) => Err(e@),
    }
}

} // verus!
