//! Draws a tree as lines of text joined by box-drawing connectors.
use vstd::prelude::*;
use crate::{Node, Tree};

verus! {

pub open spec fn lines_of(v: Seq<String>) -> Seq<Seq<char>> {
    v.map_values(|s: String| s@)
}

/// `lines` with `first` put before the first line and `rest` before each
/// later one.
pub open spec fn prefixed(lines: Seq<Seq<char>>, first: Seq<char>, rest: Seq<char>) -> Seq<
    Seq<char>,
> {
    Seq::new(lines.len(), |i: int| if i == 0 { first + lines[i] } else { rest + lines[i] })
}

/// The lines of a tree: its name, then each child's lines, the last child's
/// under `└── ` and four spaces, each other child's under `├── ` and `│   `.
pub open spec fn render_tree(t: Tree) -> Seq<Seq<char>>
    decreases t,
{
    seq![t.name] + render_children(t.children)
}

/// The lines of a run of sibling trees, the last of which is the last child.
pub open spec fn render_children(kids: Seq<Tree>) -> Seq<Seq<char>>
    decreases kids,
{
    if kids.len() == 0 {
        Seq::empty()
    } else if kids.len() == 1 {
        prefixed(render_tree(kids[0]), "└── "@, "    "@)
    } else {
        prefixed(render_tree(kids[0]), "├── "@, "│   "@) + render_children(
            kids.subrange(1, kids.len() as int),
        )
    }
}

/// A tree without children renders as one line, its name.
pub proof fn lemma_render_leaf(t: Tree)
    requires
        t.children.len() == 0,
    ensures
        render_tree(t) == seq![t.name],
{
    assert(render_tree(t) =~= seq![t.name]);
}

impl render_as_tree::Node for Node {
    type Iter<'a> = std::slice::Iter<'a, Node>;

    fn name(&self) -> &str {
        self.name.as_str()
    }

    fn children(&self) -> Self::Iter<'_> {
        self.children.iter()
    }
}

/// Relies on `render_as_tree::render`: the node's name, then for each child
/// its own lines, the first under `├── ` and the rest under `│   `, except the
/// last child's, under `└── ` and four spaces.
#[verifier::external_body]
pub(crate) fn render_lines(node: &Node) -> (r: Vec<String>)
    ensures
        lines_of(r@) == render_tree(node@),
{
    render_as_tree::render(node)
}

} // verus!
