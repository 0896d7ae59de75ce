//! Builds the tree from the tokens of the parenthesis notation.
use vstd::prelude::*;
use super::tokenizer::{Tok, Token, toks_of};
use crate::{Error, ErrorKind, Node, Tree, leaf, lemma_node_view, outcome, trees_of};

verus! {

/// `acc` with `kids` appended to the children of its last tree.
pub open spec fn attach(acc: Seq<Tree>, kids: Seq<Tree>) -> Seq<Tree> {
    acc.update(
        acc.len() - 1,
        Tree { name: acc.last().name, children: acc.last().children + kids },
    )
}

/// Reads one nesting level from position `pos`, the trees already read at this
/// level being `acc`. A name starts a new tree; a group opened after it adds
/// children to the last tree; a comma does nothing; a closing parenthesis or
/// the end of the tokens ends the level. Gives the trees of the level and the
/// position after it.
pub open spec fn parse_level(toks: Seq<Tok>, pos: int, acc: Seq<Tree>) -> Result<
    (Seq<Tree>, int),
    ErrorKind,
>
    decreases toks.len() - pos,
{
    if pos < 0 || pos >= toks.len() {
        Ok((acc, toks.len() as int))
    } else {
        match toks[pos] {
            Tok::Close => Ok((acc, pos + 1)),
            Tok::Comma => parse_level(toks, pos + 1, acc),
            Tok::Name(n) => parse_level(toks, pos + 1, acc.push(leaf(n))),
            Tok::Open => {
                if acc.len() == 0 {
                    Err(ErrorKind::MissingName)
                } else {
                    match parse_level(toks, pos + 1, Seq::empty()) {
                        Err(e) => Err(e),
                        Ok((kids, next)) => {
                            if pos < next <= toks.len() {
                                parse_level(toks, next, attach(acc, kids))
                            } else {
                                Err(ErrorKind::EmptyInput)
                            }
                        },
                    }
                }
            },
        }
    }
}

/// What parsing a whole token sequence gives: exactly one tree at the top
/// level, or the error that says why not.
pub open spec fn parse_tokens(toks: Seq<Tok>) -> Result<Tree, ErrorKind> {
    if toks.len() == 0 {
        Err(ErrorKind::EmptyInput)
    } else {
        match parse_level(toks, 0, Seq::empty()) {
            Err(e) => Err(e),
            Ok((roots, _)) => {
                if roots.len() == 0 {
                    Err(ErrorKind::EmptyInput)
                } else if roots.len() == 1 {
                    Ok(roots[0])
                } else {
                    Err(ErrorKind::MultipleRoots)
                }
            },
        }
    }
}

/// A level read from `pos` ends at a position after `pos`, within the tokens.
pub proof fn lemma_parse_level_bounds(toks: Seq<Tok>, pos: int, acc: Seq<Tree>)
    requires
        0 <= pos <= toks.len(),
    ensures
        parse_level(toks, pos, acc) is Ok ==> {
            let next = parse_level(toks, pos, acc)->Ok_0.1;
            &&& pos <= next <= toks.len()
            &&& pos < toks.len() ==> pos < next
        },
    decreases toks.len() - pos,
{
    if pos < toks.len() {
        match toks[pos] {
            Tok::Close => {},
            Tok::Comma => lemma_parse_level_bounds(toks, pos + 1, acc),
            Tok::Name(n) => lemma_parse_level_bounds(toks, pos + 1, acc.push(leaf(n))),
            Tok::Open => {
                if acc.len() > 0 {
                    lemma_parse_level_bounds(toks, pos + 1, Seq::empty());
                    match parse_level(toks, pos + 1, Seq::empty()) {
                        Err(e) => {},
                        Ok((kids, next)) => {
                            lemma_parse_level_bounds(toks, next, attach(acc, kids));
                        },
                    }
                }
            },
        }
    }
}

/// A level's result with its end position moved on by `k`.
pub open spec fn shifted(r: Result<(Seq<Tree>, int), ErrorKind>, k: int) -> Result<
    (Seq<Tree>, int),
    ErrorKind,
> {
    match r {
        Ok((a, n)) => Ok((a, n + k)),
        Err(e) => Err(e),
    }
}

/// Tokens that form exactly one tree at the top level and end there: followed
/// by a closing parenthesis and a comma, the level ends at that parenthesis.
pub open spec fn complete_group(g: Seq<Tok>) -> bool {
    let r = parse_level(g + seq![Tok::Close, Tok::Comma], 0, Seq::empty());
    &&& r is Ok
    &&& r->Ok_0.0.len() == 1
    &&& r->Ok_0.1 == g.len() + 1
}

/// Reading `t2` after `t1` from a position within `t2` is reading `t2` alone.
proof fn lemma_level_shift(t1: Seq<Tok>, t2: Seq<Tok>, q: int, acc: Seq<Tree>)
    requires
        0 <= q <= t2.len(),
    ensures
        parse_level(t1 + t2, t1.len() + q, acc) == shifted(
            parse_level(t2, q, acc),
            t1.len() as int,
        ),
    decreases t2.len() - q,
{
    let t = t1 + t2;
    let k = t1.len() as int;
    if q < t2.len() {
        assert(t[k + q] == t2[q]);
        match t2[q] {
            Tok::Close => {},
            Tok::Comma => lemma_level_shift(t1, t2, q + 1, acc),
            Tok::Name(n) => lemma_level_shift(t1, t2, q + 1, acc.push(leaf(n))),
            Tok::Open => {
                if acc.len() > 0 {
                    lemma_level_shift(t1, t2, q + 1, Seq::empty());
                    assert(k + q + 1 == k + (q + 1));
                    match parse_level(t2, q + 1, Seq::empty()) {
                        Err(e) => {},
                        Ok((kids, next)) => {
                            if q < next <= t2.len() {
                                lemma_level_shift(t1, t2, next, attach(acc, kids));
                            }
                        },
                    }
                }
            },
        }
    }
}

/// A level that ends inside `t1`, at a closing parenthesis, reads the same
/// whatever follows `t1`.
proof fn lemma_level_frame_inner(
    t1: Seq<Tok>,
    u: Seq<Tok>,
    v: Seq<Tok>,
    p: int,
    acc: Seq<Tree>,
)
    requires
        0 <= p <= t1.len(),
        u.len() > 0,
        parse_level(t1 + u, p, acc) is Ok,
        parse_level(t1 + u, p, acc)->Ok_0.1 <= t1.len(),
    ensures
        parse_level(t1 + v, p, acc) == parse_level(t1 + u, p, acc),
    decreases t1.len() - p,
{
    let tu = t1 + u;
    let tv = t1 + v;
    lemma_parse_level_bounds(tu, p, acc);
    if p < t1.len() {
        assert(tu[p] == t1[p]);
        assert(tv[p] == t1[p]);
        match t1[p] {
            Tok::Close => {},
            Tok::Comma => lemma_level_frame_inner(t1, u, v, p + 1, acc),
            Tok::Name(n) => lemma_level_frame_inner(t1, u, v, p + 1, acc.push(leaf(n))),
            Tok::Open => {
                let inner = parse_level(tu, p + 1, Seq::empty());
                lemma_parse_level_bounds(tu, p + 1, Seq::empty());
                let (kids, next) = inner->Ok_0;
                lemma_parse_level_bounds(tu, next, attach(acc, kids));
                lemma_level_frame_inner(t1, u, v, p + 1, Seq::empty());
                lemma_level_frame_inner(t1, u, v, next, attach(acc, kids));
            },
        }
    }
}

/// A level from `p` that, in `t1` followed by a closing parenthesis and a
/// comma, ends at that parenthesis goes on into whatever follows `t1`.
proof fn lemma_level_frame(t1: Seq<Tok>, t2: Seq<Tok>, p: int, acc: Seq<Tree>)
    requires
        0 <= p <= t1.len(),
        parse_level(t1 + seq![Tok::Close, Tok::Comma], p, acc) is Ok,
        parse_level(t1 + seq![Tok::Close, Tok::Comma], p, acc)->Ok_0.1 == t1.len() + 1,
    ensures
        parse_level(t1 + t2, p, acc) == shifted(
            parse_level(t2, 0, parse_level(t1 + seq![Tok::Close, Tok::Comma], p, acc)->Ok_0.0),
            t1.len() as int,
        ),
    decreases t1.len() - p,
{
    let u = seq![Tok::Close, Tok::Comma];
    let tu = t1 + u;
    let t = t1 + t2;
    let len = t1.len() as int;
    if p == len {
        assert(tu[p] == Tok::Close);
        lemma_level_shift(t1, t2, 0, acc);
    } else {
        assert(tu[p] == t1[p]);
        assert(t[p] == t1[p]);
        match t1[p] {
            Tok::Close => {},
            Tok::Comma => lemma_level_frame(t1, t2, p + 1, acc),
            Tok::Name(n) => lemma_level_frame(t1, t2, p + 1, acc.push(leaf(n))),
            Tok::Open => {
                let inner = parse_level(tu, p + 1, Seq::empty());
                let (kids, next) = inner->Ok_0;
                lemma_parse_level_bounds(tu, p + 1, Seq::empty());
                let a2 = attach(acc, kids);
                if next > len {
                    assert(parse_level(tu, len + 2, a2) == Ok::<(Seq<Tree>, int), ErrorKind>(
                        (a2, len + 2),
                    ));
                    if next == len + 1 {
                        assert(tu[len + 1] == Tok::Comma);
                        assert(parse_level(tu, len + 1, a2) == parse_level(tu, len + 2, a2));
                    }
                    assert(parse_level(tu, p, acc) == parse_level(tu, next, a2));
                    assert(false);
                }
                lemma_level_frame_inner(t1, u, t2, p + 1, Seq::empty());
                lemma_level_frame(t1, t2, next, attach(acc, kids));
            },
        }
    }
}

/// Trees already read in front of a level stay in front of its result.
proof fn lemma_level_prefix(t: Seq<Tok>, p: int, pre: Seq<Tree>, acc: Seq<Tree>)
    requires
        0 <= p <= t.len(),
        parse_level(t, p, acc) is Ok,
    ensures
        parse_level(t, p, pre + acc) == Ok::<(Seq<Tree>, int), ErrorKind>(
            (pre + parse_level(t, p, acc)->Ok_0.0, parse_level(t, p, acc)->Ok_0.1),
        ),
    decreases t.len() - p,
{
    if p < t.len() {
        match t[p] {
            Tok::Close => {},
            Tok::Comma => lemma_level_prefix(t, p + 1, pre, acc),
            Tok::Name(n) => {
                assert((pre + acc).push(leaf(n)) =~= pre + acc.push(leaf(n)));
                lemma_level_prefix(t, p + 1, pre, acc.push(leaf(n)));
            },
            Tok::Open => {
                let (kids, next) = parse_level(t, p + 1, Seq::empty())->Ok_0;
                lemma_parse_level_bounds(t, p + 1, Seq::empty());
                assert(attach(pre + acc, kids) =~= pre + attach(acc, kids));
                lemma_level_prefix(t, next, pre, attach(acc, kids));
            },
        }
    }
}

/// Two complete groups side by side at the top level are two roots.
pub proof fn lemma_two_groups(g1: Seq<Tok>, g2: Seq<Tok>)
    requires
        complete_group(g1),
        complete_group(g2),
    ensures
        parse_tokens(g1 + g2) == Err::<Tree, ErrorKind>(ErrorKind::MultipleRoots),
{
    let u = seq![Tok::Close, Tok::Comma];
    let e = Seq::<Tok>::empty();
    let x = parse_level(g1 + u, 0, Seq::empty())->Ok_0.0;
    let y = parse_level(g2 + u, 0, Seq::empty())->Ok_0.0;
    if g1.len() == 0 {
        assert(g1 + u =~= u);
        assert(u[0] == Tok::Close);
    }
    lemma_level_frame(g1, g2, 0, Seq::empty());
    lemma_level_frame(g2, e, 0, Seq::empty());
    assert(g2 + e =~= g2);
    lemma_level_prefix(g2, 0, x, Seq::empty());
    assert(x + Seq::<Tree>::empty() =~= x);
    assert(parse_level(g2, 0, x)->Ok_0.0 =~= x + y);
}

/// Parses a token sequence into the one tree it describes.
pub fn parse(tokens: Vec<Token>) -> (r: Result<Node, Error>)
    ensures
        outcome(r) == parse_tokens(toks_of(tokens@)),
{
    if tokens.len() == 0 {
        return Err(Error::EmptyInputError);
    }
    let mut nodes = match parse_iter(&tokens, 0) {
        Ok((nodes, _)) => nodes,
        Err(e) => return Err(e),
    };
    if nodes.len() <= 1 {
        match nodes.pop() {
            Some(n) => Ok(n),
            None => Err(Error::EmptyInputError),
        }
    } else {
        Err(Error::MultipleRootsError)
    }
}

/// Reads one nesting level from position `pos`, as `parse_level` says.
fn parse_iter(tokens: &Vec<Token>, pos: usize) -> (r: Result<(Vec<Node>, usize), Error>)
    requires
        pos <= tokens.len(),
    ensures
        match r {
            Ok((nodes, next)) => parse_level(toks_of(tokens@), pos as int, Seq::empty()) == Ok::<
                (Seq<Tree>, int),
                ErrorKind,
            >((trees_of(nodes@), next as int)),
            Err(e) => parse_level(toks_of(tokens@), pos as int, Seq::empty()) == Err::<
                (Seq<Tree>, int),
                ErrorKind,
            >(e@),
        },
    decreases tokens.len() - pos,
{
    let ghost toks = toks_of(tokens@);
    let mut nodes: Vec<Node> = Vec::new();
    let mut i: usize = pos;
    assert(trees_of(nodes@) =~= Seq::<Tree>::empty());
    while i < tokens.len()
        invariant
            pos <= i <= tokens.len(),
            toks == toks_of(tokens@),
            parse_level(toks, pos as int, Seq::empty()) == parse_level(
                toks,
                i as int,
                trees_of(nodes@),
            ),
        decreases tokens.len() - i,
    {
        assert(toks[i as int] == tokens@[i as int]@);
        match &tokens[i] {
            Token::ParenClose => {
                return Ok((nodes, i + 1));
            },
            Token::Comma => {
                i = i + 1;
            },
            Token::Name(name) => {
                let ghost before = trees_of(nodes@);
                nodes.push(Node::new(name.clone()));
                assert(trees_of(nodes@) =~= before.push(leaf(name@)));
                i = i + 1;
            },
            Token::ParenOpen => {
                if nodes.len() == 0 {
                    return Err(Error::MissingNameError);
                }
                let (mut kids, next) = match parse_iter(tokens, i + 1) {
                    Ok(res) => res,
                    Err(e) => return Err(e),
                };
                proof {
                    lemma_parse_level_bounds(toks, i + 1, Seq::empty());
                }
                let ghost before = trees_of(nodes@);
                let ghost kid_trees = trees_of(kids@);
                let mut last = nodes.pop().unwrap();
                proof {
                    lemma_node_view(last);
                }
                let ghost old_children = last.children@;
                last.children.append(&mut kids);
                proof {
                    lemma_node_view(last);
                    assert(trees_of(last.children@) =~= trees_of(old_children) + kid_trees);
                }
                nodes.push(last);
                assert(trees_of(nodes@) =~= attach(before, kid_trees));
                i = next;
            },
        }
    }
    Ok((nodes, i))
}

} // verus!
