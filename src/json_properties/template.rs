//! Name templates such as `"{id}: {name}"`: literal parts with named
//! placeholders between them.
use vstd::prelude::*;
use vstd::string::StringExecFns;
use crate::text::chars_of;
use crate::{Error, ErrorKind};

verus! {

pub const BRACE_OPEN: char = '{';

pub const BRACE_CLOSE: char = '}';

/// A compiled template: `unchanging_parts` has one part more than
/// `placeholder_names`, and a filled template reads part, value, part, ...,
/// value, part.
#[derive(Debug, PartialEq)]
pub struct Template {
    pub unchanging_parts: Vec<String>,
    pub placeholder_names: Vec<String>,
}

/// The model of a `Template`.
pub struct TemplateV {
    pub parts: Seq<Seq<char>>,
    pub names: Seq<Seq<char>>,
}

pub open spec fn texts_of(v: Seq<String>) -> Seq<Seq<char>> {
    v.map_values(|s: String| s@)
}

impl View for Template {
    type V = TemplateV;

    open spec fn view(&self) -> TemplateV {
        TemplateV {
            parts: texts_of(self.unchanging_parts@),
            names: texts_of(self.placeholder_names@),
        }
    }
}

impl Template {
    pub open spec fn wf(&self) -> bool {
        self.unchanging_parts@.len() == self.placeholder_names@.len() + 1
    }
}

/// Where the scan of a template stands: in a literal part or in a
/// placeholder, with the parts and names completed so far and the text of the
/// current one; or failed on a `{` inside a placeholder.
pub enum TemplateScan {
    Literal(Seq<Seq<char>>, Seq<Seq<char>>, Seq<char>),
    Placeholder(Seq<Seq<char>>, Seq<Seq<char>>, Seq<char>),
    Failed,
}

pub open spec fn scan_step(st: TemplateScan, c: char) -> TemplateScan {
    match st {
        TemplateScan::Failed => TemplateScan::Failed,
        TemplateScan::Literal(parts, names, cur) => {
            if c == BRACE_OPEN {
                TemplateScan::Placeholder(parts.push(cur), names, Seq::empty())
            } else if c == BRACE_CLOSE {
                TemplateScan::Literal(parts, names, cur)
            } else {
                TemplateScan::Literal(parts, names, cur.push(c))
            }
        },
        TemplateScan::Placeholder(parts, names, cur) => {
            if c == BRACE_OPEN {
                TemplateScan::Failed
            } else if c == BRACE_CLOSE {
                TemplateScan::Literal(parts, names.push(cur), Seq::empty())
            } else {
                TemplateScan::Placeholder(parts, names, cur.push(c))
            }
        },
    }
}

pub open spec fn template_scan(s: Seq<char>) -> TemplateScan
    decreases s.len(),
{
    if s.len() == 0 {
        TemplateScan::Literal(Seq::empty(), Seq::empty(), Seq::empty())
    } else {
        scan_step(template_scan(s.drop_last()), s.last())
    }
}

/// What compiling a template gives. A `{` opens a placeholder and the next `}`
/// closes it; a `}` outside a placeholder is dropped. A `{` inside a
/// placeholder, or a placeholder left open at the end, is an error.
pub open spec fn compile(s: Seq<char>) -> Result<TemplateV, ErrorKind> {
    match template_scan(s) {
        TemplateScan::Failed => Err(
            ErrorKind::FormatSpecific("template placeholder cannot contain `{`"@),
        ),
        TemplateScan::Placeholder(_, _, _) => Err(
            ErrorKind::FormatSpecific("template placeholder missing closing `}`"@),
        ),
        TemplateScan::Literal(parts, names, cur) => Ok(
            TemplateV { parts: parts.push(cur), names },
        ),
    }
}

/// The first part followed, for each `i < k`, by value `i` and part `i + 1`.
pub open spec fn fill_upto(parts: Seq<Seq<char>>, vals: Seq<Seq<char>>, k: int) -> Seq<char>
    decreases k,
{
    if k <= 0 {
        parts[0]
    } else {
        fill_upto(parts, vals, k - 1) + vals[k - 1] + parts[k]
    }
}

/// The parts with the values put between them.
pub open spec fn filled(parts: Seq<Seq<char>>, vals: Seq<Seq<char>>) -> Seq<char> {
    fill_upto(parts, vals, vals.len() as int)
}

/// The compiled form of a template with no braces: one part, itself.
pub proof fn lemma_compile_plain(s: Seq<char>)
    requires
        forall|i: int| 0 <= i < s.len() ==> s[i] != BRACE_OPEN && s[i] != BRACE_CLOSE,
    ensures
        template_scan(s) == TemplateScan::Literal(Seq::empty(), Seq::empty(), s),
    decreases s.len(),
{
    if s.len() == 0 {
        assert(s =~= Seq::<char>::empty());
    } else {
        lemma_compile_plain(s.drop_last());
        assert(s.drop_last().push(s.last()) =~= s);
    }
}

/// A template with no braces fills to itself.
pub proof fn lemma_fill_plain(s: Seq<char>)
    requires
        forall|i: int| 0 <= i < s.len() ==> s[i] != BRACE_OPEN && s[i] != BRACE_CLOSE,
    ensures
        compile(s) is Ok,
        compile(s)->Ok_0.names.len() == 0,
        filled(compile(s)->Ok_0.parts, Seq::empty()) == s,
{
    lemma_compile_plain(s);
}

impl Template {
    /// Compiles a template string, as `compile` says.
    pub fn new(template_string: String) -> (r: Result<Template, Error>)
        ensures
            match r {
                Ok(t) => t.wf() && compile(template_string@) == Ok::<TemplateV, ErrorKind>(t@),
                Err(e) => compile(template_string@) == Err::<TemplateV, ErrorKind>(e@),
            },
    {
        let chars = chars_of(template_string.as_str());
        let mut unchanging_parts: Vec<String> = Vec::new();
        let mut placeholder_names: Vec<String> = Vec::new();
        let mut cur = String::new();
        let mut in_placeholder = false;
        let mut i: usize = 0;
        assert(chars@.take(0) =~= Seq::<char>::empty());
        assert(texts_of(unchanging_parts@) =~= Seq::<Seq<char>>::empty());
        assert(texts_of(placeholder_names@) =~= Seq::<Seq<char>>::empty());
        while i < chars.len()
            invariant
                i <= chars.len(),
                chars@ == template_string@,
                template_scan(chars@.take(i as int)) == if in_placeholder {
                    TemplateScan::Placeholder(
                        texts_of(unchanging_parts@),
                        texts_of(placeholder_names@),
                        cur@,
                    )
                } else {
                    TemplateScan::Literal(
                        texts_of(unchanging_parts@),
                        texts_of(placeholder_names@),
                        cur@,
                    )
                },
                unchanging_parts@.len() == placeholder_names@.len() + if in_placeholder {
                    1int
                } else {
                    0int
                },
            decreases chars.len() - i,
        {
            let c = chars[i];
            assert(chars@.take(i + 1).drop_last() =~= chars@.take(i as int));
            let ghost parts0 = texts_of(unchanging_parts@);
            let ghost names0 = texts_of(placeholder_names@);
            if c == BRACE_OPEN {
                if in_placeholder {
                    proof {
                        lemma_failed_stays(chars@, i as int + 1);
                        assert(chars@.take(chars@.len() as int) =~= chars@);
                    }
                    return Err(
                        Error::FormatSpecificError(
                            String::from_str("template placeholder cannot contain `{`"),
                        ),
                    );
                }
                unchanging_parts.push(cur);
                assert(texts_of(unchanging_parts@) =~= parts0.push(cur@));
                cur = String::new();
                in_placeholder = true;
            } else if c == BRACE_CLOSE {
                if in_placeholder {
                    placeholder_names.push(cur);
                    assert(texts_of(placeholder_names@) =~= names0.push(cur@));
                    cur = String::new();
                    in_placeholder = false;
                }
            } else {
                cur.push(c);
            }
            i = i + 1;
        }
        assert(chars@.take(chars@.len() as int) =~= chars@);
        if in_placeholder {
            return Err(
                Error::FormatSpecificError(
                    String::from_str("template placeholder missing closing `}`"),
                ),
            );
        }
        let ghost parts0 = texts_of(unchanging_parts@);
        unchanging_parts.push(cur);
        assert(texts_of(unchanging_parts@) =~= parts0.push(cur@));
        Ok(Template { unchanging_parts, placeholder_names })
    }

    /// Puts `values` in place of the placeholders, in order.
    pub fn fill_values(&self, values: &Vec<String>) -> (r: String)
        requires
            self.wf(),
            values@.len() == self.placeholder_names@.len(),
        ensures
            r@ == filled(self@.parts, texts_of(values@)),
    {
        let mut r = self.unchanging_parts[0].clone();
        let mut k: usize = 0;
        while k < values.len()
            invariant
                self.wf(),
                values@.len() == self.placeholder_names@.len(),
                k <= values.len(),
                r@ == fill_upto(self@.parts, texts_of(values@), k as int),
            decreases values.len() - k,
        {
            r.append(values[k].as_str());
            r.append(self.unchanging_parts[k + 1].as_str());
            k = k + 1;
        }
        r
    }

    /// Fills the template with the value that `get_placeholder_value` gives
    /// for each placeholder name, in order; the first error it gives is the
    /// result.
    pub fn fill<F>(&self, get_placeholder_value: F) -> (r: Result<String, Error>) where
        F: Fn(&String) -> Result<String, Error>,

        requires
            self.wf(),
            forall|i: int|
                0 <= i < self.placeholder_names@.len() ==> get_placeholder_value.requires(
                    (&self.placeholder_names@[i],),
                ),
        ensures
            r is Ok ==> exists|vals: Seq<String>|
                {
                    &&& vals.len() == self.placeholder_names@.len()
                    &&& forall|i: int|
                        0 <= i < vals.len() ==> get_placeholder_value.ensures(
                            (&self.placeholder_names@[i],),
                            Ok::<String, Error>(#[trigger] vals[i]),
                        )
                    &&& r->Ok_0@ == filled(self@.parts, texts_of(vals))
                },
            r is Err ==> exists|i: int|
                0 <= i < self.placeholder_names@.len() && get_placeholder_value.ensures(
                    (&self.placeholder_names@[i],),
                    r,
                ),
    {
        let mut values: Vec<String> = Vec::new();
        let mut k: usize = 0;
        while k < self.placeholder_names.len()
            invariant
                self.wf(),
                k <= self.placeholder_names@.len(),
                values@.len() == k,
                forall|i: int|
                    0 <= i < self.placeholder_names@.len() ==> get_placeholder_value.requires(
                        (&self.placeholder_names@[i],),
                    ),
                forall|i: int|
                    0 <= i < k ==> get_placeholder_value.ensures(
                        (&self.placeholder_names@[i],),
                        Ok::<String, Error>(#[trigger] values@[i]),
                    ),
            decreases self.placeholder_names@.len() - k,
        {
            let res = get_placeholder_value(&self.placeholder_names[k]);
            match res {
                Ok(v) => {
                    values.push(v);
                },
                Err(e) => {
                    return Err(e);
                },
            }
            k = k + 1;
        }
        Ok(self.fill_values(&values))
    }
}

proof fn lemma_failed_stays(s: Seq<char>, i: int)
    requires
        0 <= i <= s.len(),
        template_scan(s.take(i)) == TemplateScan::Failed,
    ensures
        template_scan(s.take(s.len() as int)) == TemplateScan::Failed,
    decreases s.len() - i,
{
    if i < s.len() {
        assert(s.take(i + 1).drop_last() =~= s.take(i));
        lemma_failed_stays(s, i + 1);
    }
}

} // verus!
