//! Splits parenthesis notation into tokens.
use vstd::prelude::*;
use crate::text::{
    all_ws, chars_of, is_ws, lemma_trim_all_ws, lemma_trim_end_prefix, lemma_trim_start_suffix, trim,
    trim_end, trim_start, trimmed,
};

verus! {

pub const PAREN_OPEN: char = '(';

pub const PAREN_CLOSE: char = ')';

pub const COMMA: char = ',';

#[derive(Debug, PartialEq)]
pub enum Token {
    ParenOpen,
    ParenClose,
    Comma,
    Name(String),
}

/// The model of a `Token`.
pub enum Tok {
    Open,
    Close,
    Comma,
    Name(Seq<char>),
}

impl View for Token {
    type V = Tok;

    open spec fn view(&self) -> Tok {
        match self {
            Token::ParenOpen => Tok::Open,
            Token::ParenClose => Tok::Close,
            Token::Comma => Tok::Comma,
            Token::Name(s) => Tok::Name(s@),
        }
    }
}

pub open spec fn toks_of(tokens: Seq<Token>) -> Seq<Tok> {
    tokens.map_values(|t: Token| t@)
}

pub open spec fn is_control(c: char) -> bool {
    c == PAREN_OPEN || c == PAREN_CLOSE || c == COMMA
}

/// The token that a control character stands for.
pub open spec fn control_tok(c: char) -> Tok {
    if c == PAREN_OPEN {
        Tok::Open
    } else if c == PAREN_CLOSE {
        Tok::Close
    } else {
        Tok::Comma
    }
}

/// Ends the pending name: it becomes a `Name` token, trimmed, unless it is
/// whitespace alone.
pub open spec fn flush(toks: Seq<Tok>, pending: Seq<char>) -> Seq<Tok> {
    if trim(pending).len() == 0 {
        toks
    } else {
        toks.push(Tok::Name(trim(pending)))
    }
}

/// The tokens emitted so far and the pending name after scanning `s`.
pub open spec fn scan(s: Seq<char>) -> (Seq<Tok>, Seq<char>)
    decreases s.len(),
{
    if s.len() == 0 {
        (Seq::empty(), Seq::empty())
    } else {
        let (toks, pending) = scan(s.drop_last());
        let c = s.last();
        if is_control(c) {
            (flush(toks, pending).push(control_tok(c)), Seq::empty())
        } else {
            (toks, pending.push(c))
        }
    }
}

/// The tokens of `s`.
pub open spec fn tokens_of(s: Seq<char>) -> Seq<Tok> {
    let (toks, pending) = scan(s);
    flush(toks, pending)
}

/// Splits `serialized` into tokens: each parenthesis and comma is a token of
/// its own, and each run of other characters between them, trimmed, is a
/// `Name` unless it is whitespace alone.
pub fn tokenize(serialized: &str) -> (r: Vec<Token>)
    ensures
        toks_of(r@) == tokens_of(serialized@),
{
    let chars = chars_of(serialized);
    let mut cur_name: Vec<char> = Vec::new();
    let mut tokens: Vec<Token> = Vec::new();
    let mut i: usize = 0;
    while i < chars.len()
        invariant
            i <= chars.len(),
            chars@ == serialized@,
            (toks_of(tokens@), cur_name@) == scan(chars@.take(i as int)),
        decreases chars.len() - i,
    {
        let c = chars[i];
        let ghost prefix = chars@.take(i as int);
        assert(chars@.take(i + 1).drop_last() =~= prefix);
        if c == PAREN_OPEN || c == PAREN_CLOSE || c == COMMA {
            push_name(&mut tokens, &cur_name);
            cur_name = Vec::new();
            let t = if c == PAREN_OPEN {
                Token::ParenOpen
            } else if c == PAREN_CLOSE {
                Token::ParenClose
            } else {
                Token::Comma
            };
            tokens.push(t);
            assert(toks_of(tokens@) =~= flush(scan(prefix).0, scan(prefix).1).push(control_tok(c)));
            assert(cur_name@ =~= Seq::<char>::empty());
        } else {
            cur_name.push(c);
        }
        i = i + 1;
    }
    assert(chars@.take(chars.len() as int) =~= chars@);
    push_name(&mut tokens, &cur_name);
    tokens
}

/// Appends the pending name to `tokens` as `flush` says.
fn push_name(tokens: &mut Vec<Token>, cur_name: &Vec<char>)
    ensures
        toks_of(final(tokens)@) == flush(toks_of(old(tokens)@), cur_name@),
{
    let name = trimmed(cur_name);
    if !name.as_str().is_empty() {
        tokens.push(Token::Name(name));
        assert(toks_of(final(tokens)@) =~= toks_of(old(tokens)@).push(Tok::Name(trim(cur_name@))));
    }
}

/// The empty text has no tokens.
pub proof fn lemma_tokenize_empty()
    ensures
        tokens_of(Seq::empty()).len() == 0,
{
    lemma_trim_all_ws(Seq::empty());
}

/// Text made of whitespace and control characters alone gives exactly one
/// token per control character, in order, and nothing for the whitespace.
pub proof fn lemma_tokenize_structure_only(s: Seq<char>)
    requires
        forall|i: int| 0 <= i < s.len() ==> is_ws(#[trigger] s[i]) || is_control(s[i]),
    ensures
        tokens_of(s) == s.filter(|c: char| is_control(c)).map_values(|c: char| control_tok(c)),
{
    lemma_scan_structure_only(s);
    lemma_trim_all_ws(scan(s).1);
}

proof fn lemma_scan_structure_only(s: Seq<char>)
    requires
        forall|i: int| 0 <= i < s.len() ==> is_ws(#[trigger] s[i]) || is_control(s[i]),
    ensures
        scan(s).0 == s.filter(|c: char| is_control(c)).map_values(|c: char| control_tok(c)),
        all_ws(scan(s).1),
    decreases s.len(),
{
    if s.len() == 0 {
        assert(s.filter(|c: char| is_control(c)) =~= Seq::<char>::empty());
    } else {
        let p = s.drop_last();
        assert forall|i: int| 0 <= i < p.len() implies is_ws(#[trigger] p[i]) || is_control(p[i]) by {
            assert(p[i] == s[i]);
        }
        lemma_scan_structure_only(p);
        lemma_trim_all_ws(scan(p).1);
        assert(p.push(s.last()) =~= s);
        reveal(Seq::filter);
        let c = s.last();
        if !is_control(c) {
            let pending = scan(p).1.push(c);
            assert forall|i: int| 0 <= i < pending.len() implies is_ws(#[trigger] pending[i]) by {
                if i < pending.len() - 1 {
                    assert(pending[i] == scan(p).1[i]);
                }
            }
        }
        assert(s.filter(|c: char| is_control(c)).map_values(|c: char| control_tok(c)) =~= if is_control(c) {
            p.filter(|c: char| is_control(c)).map_values(|c: char| control_tok(c)).push(control_tok(c))
        } else {
            p.filter(|c: char| is_control(c)).map_values(|c: char| control_tok(c))
        });
    }
}

/// Whitespace that holds no parenthesis or comma.
pub open spec fn is_blank(w: Seq<char>) -> bool {
    all_ws(w) && forall|i: int| 0 <= i < w.len() ==> !is_control(#[trigger] w[i])
}

proof fn lemma_trim_start_append(p: Seq<char>, w: Seq<char>)
    requires
        all_ws(w),
    ensures
        trim_start(p + w) == if trim_start(p).len() == 0 {
            Seq::<char>::empty()
        } else {
            trim_start(p) + w
        },
    decreases p.len(),
{
    if p.len() == 0 {
        assert(p + w =~= w);
        lemma_trim_start_suffix(w, w.len() as int);
        assert(w.subrange(w.len() as int, w.len() as int) =~= Seq::<char>::empty());
    } else if is_ws(p[0]) {
        assert((p + w)[0] == p[0]);
        assert((p + w).drop_first() =~= p.drop_first() + w);
        lemma_trim_start_append(p.drop_first(), w);
    } else {
        assert((p + w)[0] == p[0]);
    }
}

/// Whitespace after a text does not change its trimmed form.
proof fn lemma_trim_append_ws(p: Seq<char>, w: Seq<char>)
    requires
        all_ws(w),
    ensures
        trim(p + w) == trim(p),
{
    lemma_trim_start_append(p, w);
    let q = trim_start(p);
    if q.len() > 0 {
        assert forall|k: int| q.len() <= k < (q + w).len() implies is_ws(#[trigger] (q + w)[k]) by {
            assert((q + w)[k] == w[k - q.len()]);
        }
        lemma_trim_end_prefix(q + w, q.len() as int);
        assert((q + w).subrange(0, q.len() as int) =~= q);
    } else {
        assert(q =~= Seq::<char>::empty());
    }
}

/// Whitespace before a text does not change its trimmed form.
proof fn lemma_trim_prepend_ws(w: Seq<char>, p: Seq<char>)
    requires
        all_ws(w),
    ensures
        trim(w + p) == trim(p),
{
    assert forall|k: int| 0 <= k < w.len() implies is_ws(#[trigger] (w + p)[k]) by {
        assert((w + p)[k] == w[k]);
    }
    lemma_trim_start_suffix(w + p, w.len() as int);
    assert((w + p).subrange(w.len() as int, (w + p).len() as int) =~= p);
}

/// Scanning characters that are not controls only extends the pending name.
proof fn lemma_scan_plain(a: Seq<char>, w: Seq<char>)
    requires
        forall|i: int| 0 <= i < w.len() ==> !is_control(#[trigger] w[i]),
    ensures
        scan(a + w) == (scan(a).0, scan(a).1 + w),
    decreases w.len(),
{
    if w.len() == 0 {
        assert(a + w =~= a);
        assert(scan(a).1 + w =~= scan(a).1);
    } else {
        let v = w.drop_last();
        assert forall|i: int| 0 <= i < v.len() implies !is_control(#[trigger] v[i]) by {
            assert(v[i] == w[i]);
        }
        lemma_scan_plain(a, v);
        assert((a + w).drop_last() =~= a + v);
        assert((a + w).last() == w.last());
        assert(scan(a).1 + v + seq![w.last()] =~= scan(a).1 + w);
    }
}

/// Texts that scan alike stay alike whatever follows.
proof fn lemma_scan_same(a: Seq<char>, b: Seq<char>, c: Seq<char>)
    requires
        scan(a) == scan(b),
    ensures
        scan(a + c) == scan(b + c),
    decreases c.len(),
{
    if c.len() == 0 {
        assert(a + c =~= a);
        assert(b + c =~= b);
    } else {
        lemma_scan_same(a, b, c.drop_last());
        assert((a + c).drop_last() =~= a + c.drop_last());
        assert((b + c).drop_last() =~= b + c.drop_last());
        assert((a + c).last() == c.last());
        assert((b + c).last() == c.last());
    }
}

/// Texts whose scans differ only by whitespace in front of the pending name
/// give the same tokens whatever follows.
proof fn lemma_scan_shifted(a: Seq<char>, b: Seq<char>, w: Seq<char>, c: Seq<char>)
    requires
        all_ws(w),
        scan(a).0 == scan(b).0,
        scan(a).1 == w + scan(b).1,
    ensures
        scan(a + c) == scan(b + c) || (scan(a + c).0 == scan(b + c).0 && scan(a + c).1 == w
            + scan(b + c).1),
        tokens_of(a + c) == tokens_of(b + c),
    decreases c.len(),
{
    if c.len() == 0 {
        assert(a + c =~= a);
        assert(b + c =~= b);
        lemma_trim_prepend_ws(w, scan(b).1);
    } else {
        let c0 = c.drop_last();
        lemma_scan_shifted(a, b, w, c0);
        assert((a + c).drop_last() =~= a + c0);
        assert((b + c).drop_last() =~= b + c0);
        assert((a + c).last() == c.last());
        assert((b + c).last() == c.last());
        let x = c.last();
        if scan(a + c0) != scan(b + c0) {
            lemma_trim_prepend_ws(w, scan(b + c0).1);
            if !is_control(x) {
                assert(w + scan(b + c0).1.push(x) =~= (w + scan(b + c0).1).push(x));
            }
        }
        if scan(a + c) == scan(b + c) {
        } else {
            lemma_trim_prepend_ws(w, scan(b + c).1);
        }
    }
}

proof fn lemma_scan_concat(a: Seq<char>, c: Seq<char>)
    requires
        scan(a).1.len() == 0,
    ensures
        scan(a + c) == (scan(a).0 + scan(c).0, scan(c).1),
    decreases c.len(),
{
    if c.len() == 0 {
        assert(a + c =~= a);
        assert(scan(a).0 + Seq::<Tok>::empty() =~= scan(a).0);
        assert(scan(a).1 =~= Seq::<char>::empty());
    } else {
        let c0 = c.drop_last();
        lemma_scan_concat(a, c0);
        assert((a + c).drop_last() =~= a + c0);
        assert((a + c).last() == c.last());
        let t1 = scan(a).0;
        let t2 = scan(c0).0;
        let p = scan(c0).1;
        assert(flush(t1 + t2, p) =~= t1 + flush(t2, p));
        assert(flush(t1 + t2, p).push(control_tok(c.last())) =~= t1 + flush(t2, p).push(
            control_tok(c.last()),
        ));
    }
}

/// After a control character the tokens of what follows are simply appended.
pub proof fn lemma_tokens_concat(s1: Seq<char>, s2: Seq<char>)
    requires
        s1.len() > 0,
        is_control(s1.last()),
    ensures
        tokens_of(s1 + s2) == tokens_of(s1) + tokens_of(s2),
{
    assert(scan(s1).1 =~= Seq::<char>::empty());
    lemma_scan_concat(s1, s2);
    lemma_trim_all_ws(scan(s1).1);
    let t1 = scan(s1).0;
    assert(flush(t1 + scan(s2).0, scan(s2).1) =~= t1 + flush(scan(s2).0, scan(s2).1));
}

/// Blank text put at a token boundary (at either end, or next to a
/// parenthesis or comma) leaves the tokens as they were.
pub proof fn lemma_tokens_blank_insert(s1: Seq<char>, w: Seq<char>, s2: Seq<char>)
    requires
        is_blank(w),
        s1.len() == 0 || is_control(s1.last()) || s2.len() == 0 || is_control(s2[0]),
    ensures
        tokens_of(s1 + w + s2) == tokens_of(s1 + s2),
{
    lemma_scan_plain(s1, w);
    if s1.len() == 0 || is_control(s1.last()) {
        if s1.len() == 0 {
            assert(scan(s1).1 =~= Seq::<char>::empty());
        }
        assert(scan(s1 + w).1 =~= w + scan(s1).1);
        lemma_scan_shifted(s1 + w, s1, w, s2);
        assert(s1 + w + s2 =~= (s1 + w) + s2);
    } else if s2.len() == 0 {
        assert(s1 + w + s2 =~= s1 + w);
        assert(s1 + s2 =~= s1);
        lemma_trim_append_ws(scan(s1).1, w);
    } else {
        let x = s2[0];
        lemma_trim_append_ws(scan(s1).1, w);
        let a = s1 + w + seq![x];
        let b = s1 + seq![x];
        assert(a.drop_last() =~= s1 + w);
        assert(b.drop_last() =~= s1);
        assert(scan(a) == scan(b));
        let rest = s2.subrange(1, s2.len() as int);
        lemma_scan_same(a, b, rest);
        assert(a + rest =~= s1 + w + s2);
        assert(b + rest =~= s1 + s2);
    }
}

} // verus!
