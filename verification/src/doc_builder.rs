//! Building documents: an arena of `Doc` nodes (a `typed_arena::Arena`) and
//! combinators for texts, line breaks, groups and separated lists.
use crate::doc::{Doc, DocRef, PrettyConfig};
use crate::strs::{bytes_of, concat2, concat3, owned};
use vstd::prelude::*;

verus! {

#[verifier::external_type_specification]
#[verifier::external_body]
#[verifier::reject_recursive_types(T)]
pub struct ExArena<T>(typed_arena::Arena<T>);

/// `typed_arena::Arena::new`: an empty arena.
#[verifier::external_body]
pub(crate) fn arena_new<T>() -> typed_arena::Arena<T> {
    typed_arena::Arena::new()
}

/// `typed_arena::Arena::alloc`: moves the value into the arena and hands back
/// a reference to it, which holds the value moved in.
#[verifier::external_body]
pub(crate) fn arena_alloc<'a, T>(arena: &'a typed_arena::Arena<T>, value: T) -> (r: &'a T)
    ensures
        *r == value,
{
    arena.alloc(value)
}

/// The width of a text: its length in bytes.
pub open spec fn text_width(s: Seq<char>) -> u32 {
    (bytes_of(s).len() as usize) as u32
}

/// Whether a document is a text with the given characters.
pub open spec fn is_text(d: Doc, s: Seq<char>) -> bool {
    d matches Doc::Text(t, w) && t@ == s && w == text_width(s)
}

/// The parts of `elems` separated by `sep`: element `i` stands at position
/// `i * (sep_len + 1)` and each separator part between two elements satisfies
/// `sep_part`.
pub open spec fn separated<'a>(
    parts: Seq<DocRef<'a>>,
    elems: Seq<Doc<'a>>,
    sep_len: int,
    sep_part: spec_fn(int, Doc<'a>) -> bool,
) -> bool {
    let stride = sep_len + 1;
    &&& elems.len() > 0 ==> parts.len() == elems.len() * stride - sep_len
    &&& forall|i: int| 0 <= i < elems.len() ==> *#[trigger] parts[i * stride] == elems[i]
    &&& forall|i: int, j: int|
        1 <= i < elems.len() && 0 <= j < sep_len ==> sep_part(j, *#[trigger] parts[i * stride - sep_len + j])
}

pub open spec fn derefs<'a>(s: Seq<DocRef<'a>>) -> Seq<Doc<'a>> {
    s.map_values(|d: DocRef<'a>| *d)
}

pub open spec fn flats<'a>(s: Seq<DocRef<'a>>) -> Seq<Doc<'a>> {
    s.map_values(|d: DocRef<'a>| Doc::Flat(d))
}

pub open spec fn concat_parts<'a>(d: Doc<'a>) -> Seq<DocRef<'a>> {
    match d {
        Doc::Concat(v) => v@,
        _ => Seq::empty(),
    }
}

/// The document inside a `Flat`, `Indent` or `Dedent`.
pub open spec fn inner<'a>(d: Doc<'a>) -> Option<DocRef<'a>> {
    match d {
        Doc::Flat(x) => Some(x),
        Doc::Indent(_, x) => Some(x),
        Doc::Dedent(_, x) => Some(x),
        _ => None,
    }
}

/// A separator or bracket: an optional document before, an optional text,
/// an optional document after.
pub struct Insertable<'a> {
    pub pre: Option<DocRef<'a>>,
    pub text: Option<DocRef<'a>>,
    pub suf: Option<DocRef<'a>>,
}

pub open spec fn opt_seq<'a>(o: Option<DocRef<'a>>) -> Seq<DocRef<'a>> {
    match o {
        Some(d) => seq![d],
        None => Seq::empty(),
    }
}

/// The documents an insertable contributes, in order.
pub open spec fn insertable_parts<'a>(i: Insertable<'a>) -> Seq<DocRef<'a>> {
    opt_seq(i.pre) + opt_seq(i.text) + opt_seq(i.suf)
}

/// The elements with the separator parts between each two.
pub open spec fn interspersed<'a>(elems: Seq<DocRef<'a>>, sep: Seq<DocRef<'a>>) -> Seq<DocRef<'a>>
    decreases elems.len(),
{
    if elems.len() == 0 {
        Seq::empty()
    } else if elems.len() == 1 {
        seq![elems[0]]
    } else {
        interspersed(elems.drop_last(), sep) + sep + seq![elems.last()]
    }
}

/// The parts of `open`, one part holding the elements separated by the
/// parts of `sep`, then the parts of `close`.
pub open spec fn is_plain_surround<'a>(d: Doc<'a>, elems: Seq<DocRef<'a>>, sep: Insertable<'a>, open: Insertable<'a>, close: Insertable<'a>) -> bool {
    let p = concat_parts(d);
    let k = insertable_parts(open).len() as int;
    &&& d is Concat
    &&& p.len() > k
    &&& p == insertable_parts(open) + seq![p[k]] + insertable_parts(close)
    &&& *p[k] is Concat
    &&& concat_parts(*p[k]) == interspersed(elems, insertable_parts(sep))
}

/// What `group_surround` groups: the pre-part and text of `open`, then,
/// when there are elements, an indented part holding what follows `open`
/// and the elements separated by `sep`, and the pre-part of `close`; then the
/// text and suffix of `close`.
pub open spec fn is_group_surround<'a>(
    d: Doc<'a>,
    elems: Seq<DocRef<'a>>,
    sep: Insertable<'a>,
    open: Insertable<'a>,
    close: Insertable<'a>,
    indent: u32,
) -> bool {
    let p = concat_parts(d);
    let a = opt_seq(open.pre) + opt_seq(open.text);
    let z = opt_seq(close.text) + opt_seq(close.suf);
    &&& d is Concat
    &&& if elems.len() > 0 {
        &&& p.len() == a.len() + 1 + opt_seq(close.pre).len() + z.len()
        &&& p == a + seq![p[a.len() as int]] + opt_seq(close.pre) + z
        &&& (*p[a.len() as int] matches Doc::Indent(i, x) && i == indent && *x is Concat && concat_parts(*x).len()
            == opt_seq(open.suf).len() + 1 && concat_parts(*x).subrange(0, opt_seq(open.suf).len() as int)
            == opt_seq(open.suf) && *concat_parts(*x).last() is Concat && concat_parts(
            *concat_parts(*x).last(),
        ) == interspersed(elems, insertable_parts(sep)))
    } else {
        p == a + z
    }
}

/// The position of member `i` among the parts of a body: each member after
/// the first follows a line break, and an empty line where the source had
/// one after the member before.
pub open spec fn member_pos(trailing: Seq<bool>, i: int) -> int
    decreases i,
{
    if i <= 0 {
        0
    } else {
        member_pos(trailing, i - 1) + 2 + if trailing[i - 1] {
            1int
        } else {
            0int
        }
    }
}

pub proof fn lemma_member_pos_mono(trailing: Seq<bool>, i: int, j: int)
    requires
        0 <= i <= j,
    ensures
        member_pos(trailing, i) <= member_pos(trailing, j),
        i < j ==> member_pos(trailing, i) + 2 <= member_pos(trailing, j),
    decreases j - i,
{
    if i < j {
        lemma_member_pos_mono(trailing, i, j - 1);
    }
}

/// Member `k` stands at its position, after a line break, and after a blank
/// line where the source had an empty line after the member before.
pub open spec fn members_line_ok<'a>(parts: Seq<DocRef<'a>>, docs: Seq<DocRef<'a>>, trailing: Seq<bool>, k: int) -> bool {
    let p = member_pos(trailing, k);
    &&& 0 <= p < parts.len()
    &&& parts[p] == docs[k]
    &&& k > 0 ==> *parts[p - 1] == Doc::Newline
    &&& (k > 0 && trailing[k - 1]) ==> *parts[p - 2] == Doc::NewlineWithNoIndent
}

/// The members of a body, one per line, an empty line kept after a member
/// that the source had one after.
pub open spec fn members_on_lines<'a>(parts: Seq<DocRef<'a>>, docs: Seq<DocRef<'a>>, trailing: Seq<bool>) -> bool {
    &&& parts.len() == member_pos(trailing, docs.len() - 1) + 1
    &&& forall|k: int| 0 <= k < docs.len() ==> #[trigger] members_line_ok(parts, docs, trailing, k)
}

/// A body in brackets: `open`, then the members on their own lines (see
/// `members_on_lines`), indented, then `close` on a line of its own.
pub open spec fn is_members_body<'a>(
    d: Doc<'a>,
    docs: Seq<DocRef<'a>>,
    trailing: Seq<bool>,
    open: Seq<char>,
    close: Seq<char>,
    indent: u32,
) -> bool {
    let p = concat_parts(d);
    &&& d is Concat
    &&& p.len() == 5
    &&& is_text(*p[0], open)
    &&& (*p[1] matches Doc::Indent(i, x) && i == indent && *x == Doc::Newline)
    &&& (*p[2] matches Doc::Indent(j, y) && j == indent && *y is Concat && members_on_lines(
        concat_parts(*y),
        docs,
        trailing,
    ))
    &&& *p[3] == Doc::Newline
    &&& is_text(*p[4], close)
}

pub struct DocBuilder<'a> {
    pub arena: typed_arena::Arena<Doc<'a>>,
    pub config: PrettyConfig,
}

impl<'a> DocBuilder<'a> {
    pub fn new(config: PrettyConfig) -> (r: Self)
        ensures
            r.config == config,
    {
        DocBuilder { arena: arena_new(), config }
    }

    fn alloc_doc(&'a self, d: Doc<'a>) -> (r: DocRef<'a>)
        ensures
            *r == d,
    {
        arena_alloc(&self.arena, d)
    }

    pub fn nl(&'a self) -> (r: DocRef<'a>)
        ensures
            *r == Doc::Newline,
    {
        self.alloc_doc(Doc::Newline)
    }

    pub fn softline(&'a self) -> (r: DocRef<'a>)
        ensures
            *r == Doc::Softline,
    {
        self.alloc_doc(Doc::Softline)
    }

    pub fn maybeline(&'a self) -> (r: DocRef<'a>)
        ensures
            *r == Doc::Maybeline,
    {
        self.alloc_doc(Doc::Maybeline)
    }

    pub fn nl_with_no_indent(&'a self) -> (r: DocRef<'a>)
        ensures
            *r == Doc::NewlineWithNoIndent,
    {
        self.alloc_doc(Doc::NewlineWithNoIndent)
    }

    pub fn force_break(&'a self) -> (r: DocRef<'a>)
        ensures
            *r == Doc::ForceBreak,
    {
        self.alloc_doc(Doc::ForceBreak)
    }

    /// A text, whose width is its length in bytes.
    pub fn txt(&'a self, text: &str) -> (r: DocRef<'a>)
        ensures
            is_text(*r, text@),
    {
        let s = owned(text);
        let width = text.len() as u32;
        self.alloc_doc(Doc::Text(s, width))
    }

    /// A text holding a string that the caller built.
    pub fn txt_string(&'a self, s: String) -> (r: DocRef<'a>)
        ensures
            is_text(*r, s@),
    {
        let width = s.as_str().len() as u32;
        self.alloc_doc(Doc::Text(s, width))
    }

    /// The empty text.
    pub fn nil(&'a self) -> (r: DocRef<'a>)
        ensures
            is_text(*r, Seq::empty()),
    {
        let r = self.txt("");
        proof {
            reveal_strlit("");
            assert(""@ =~= Seq::<char>::empty());
        }
        r
    }

    /// A text preceded by a space.
    pub fn _txt(&'a self, text: &str) -> (r: DocRef<'a>)
        ensures
            is_text(*r, seq![' '] + text@),
    {
        let s = concat2(" ", text);
        proof {
            reveal_strlit(" ");
            assert(" "@ =~= seq![' ']);
        }
        self.txt_string(s)
    }

    /// A text followed by a space.
    pub fn txt_(&'a self, text: &str) -> (r: DocRef<'a>)
        ensures
            is_text(*r, text@ + seq![' ']),
    {
        let s = concat2(text, " ");
        proof {
            reveal_strlit(" ");
            assert(" "@ =~= seq![' ']);
        }
        self.txt_string(s)
    }

    /// A text between two spaces.
    pub fn _txt_(&'a self, text: &str) -> (r: DocRef<'a>)
        ensures
            is_text(*r, seq![' '] + text@ + seq![' ']),
    {
        let s = concat3(" ", text, " ");
        proof {
            reveal_strlit(" ");
            assert(" "@ =~= seq![' ']);
        }
        self.txt_string(s)
    }

    pub fn flat(&'a self, doc_ref: DocRef<'a>) -> (r: DocRef<'a>)
        ensures
            *r == Doc::Flat(doc_ref),
    {
        self.alloc_doc(Doc::Flat(doc_ref))
    }

    /// One more level of indentation, of the configured size.
    pub fn add_indent_level(&'a self, doc_ref: DocRef<'a>) -> (r: DocRef<'a>)
        ensures
            *r == Doc::Indent(self.config.indent_size, doc_ref),
    {
        self.alloc_doc(Doc::Indent(self.config.indent_size, doc_ref))
    }

    /// One level of indentation less.
    pub fn dedent(&'a self, doc_ref: DocRef<'a>) -> (r: DocRef<'a>)
        ensures
            *r == Doc::Dedent(self.config.indent_size, doc_ref),
    {
        self.alloc_doc(Doc::Dedent(self.config.indent_size, doc_ref))
    }

    pub fn concat(&'a self, doc_refs: Vec<DocRef<'a>>) -> (r: DocRef<'a>)
        ensures
            *r is Concat && concat_parts(*r) == doc_refs@,
    {
        self.alloc_doc(Doc::Concat(doc_refs))
    }

    pub fn choice(&'a self, first: DocRef<'a>, second: DocRef<'a>) -> (r: DocRef<'a>)
        ensures
            *r == Doc::Choice(first, second),
    {
        self.alloc_doc(Doc::Choice(first, second))
    }

    /// The document on one line when it fits, else as it is.
    pub fn group(&'a self, doc: DocRef<'a>) -> (r: DocRef<'a>)
        ensures
            *r is Choice && *r->Choice_0 == Doc::Flat(doc) && r->Choice_1 == doc,
    {
        let f = self.flat(doc);
        self.choice(f, doc)
    }

    /// The elements, each flattened, separated by the text `sep`.
    pub fn intersperse_single_line(&'a self, elems: &[DocRef<'a>], sep: &str) -> (r: DocRef<'a>)
        ensures
            elems@.len() == 0 ==> is_text(*r, Seq::empty()),
            elems@.len() > 0 ==> *r is Concat && separated(
                concat_parts(*r),
                flats(elems@),
                1,
                |j: int, d: Doc<'a>| is_text(d, sep@),
            ),
    {
        if elems.len() == 0 {
            return self.nil();
        }
        let mut parts: Vec<DocRef<'a>> = Vec::new();
        let mut i: usize = 0;
        while i < elems.len()
            invariant
                i <= elems@.len(),
                i > 0 ==> parts@.len() == 2 * i - 1,
                i == 0 ==> parts@.len() == 0,
                forall|k: int| 0 <= k < i ==> *#[trigger] parts@[k * 2] == Doc::Flat(elems@[k]),
                forall|k: int| 1 <= k < i ==> is_text(*#[trigger] parts@[k * 2 - 1], sep@),
            decreases elems@.len() - i,
        {
            if i > 0 {
                let s = self.txt(sep);
                parts.push(s);
            }
            let f = self.flat(elems[i]);
            parts.push(f);
            i = i + 1;
        }
        let r = self.concat(parts);
        proof {
            let v = parts@;
            assert forall|k: int| 0 <= k < elems@.len() implies *#[trigger] v[k * 2] == flats(elems@)[k] by {}
            assert forall|k: int, j: int| 1 <= k < elems@.len() && 0 <= j < 1 implies is_text(
                *#[trigger] v[k * 2 - 1 + j],
                sep@,
            ) by {
                assert(j == 0);
                assert(k * 2 - 1 + j == k * 2 - 1);
            }
        }
        r
    }

    /// The elements separated by the text `sep` and the line break `line`.
    fn intersperse_with(&'a self, elems: &[DocRef<'a>], sep: &str, line: &Doc<'a>) -> (r: DocRef<'a>)
        requires
            *line == Doc::Newline || *line == Doc::Softline || *line == Doc::Maybeline,
        ensures
            elems@.len() == 0 ==> is_text(*r, Seq::empty()),
            elems@.len() > 0 ==> *r is Concat && separated(
                concat_parts(*r),
                derefs(elems@),
                2,
                |j: int, d: Doc<'a>| if j == 0 { is_text(d, sep@) } else { d == *line },
            ),
    {
        if elems.len() == 0 {
            return self.nil();
        }
        let mut parts: Vec<DocRef<'a>> = Vec::new();
        let mut i: usize = 0;
        while i < elems.len()
            invariant
                *line == Doc::Newline || *line == Doc::Softline || *line == Doc::Maybeline,
                i <= elems@.len(),
                i > 0 ==> parts@.len() == 3 * i - 2,
                i == 0 ==> parts@.len() == 0,
                forall|k: int| 0 <= k < i ==> *#[trigger] parts@[k * 3] == *elems@[k],
                forall|k: int| 1 <= k < i ==> is_text(*#[trigger] parts@[k * 3 - 2], sep@),
                forall|k: int| 1 <= k < i ==> *#[trigger] parts@[k * 3 - 1] == *line,
            decreases elems@.len() - i,
        {
            if i > 0 {
                let s = self.txt(sep);
                parts.push(s);
                let l = match line {
                    Doc::Newline => self.nl(),
                    Doc::Softline => self.softline(),
                    _ => self.maybeline(),
                };
                parts.push(l);
            }
            parts.push(elems[i]);
            i = i + 1;
        }
        let r = self.concat(parts);
        proof {
            let v = parts@;
            let e = derefs(elems@);
            assert forall|k: int| 0 <= k < elems@.len() implies *#[trigger] v[k * 3] == e[k] by {}
            assert forall|k: int, j: int| 1 <= k < elems@.len() && 0 <= j < 2 implies (if j == 0 {
                is_text(*#[trigger] v[k * 3 - 2 + j], sep@)
            } else {
                *v[k * 3 - 2 + j] == *line
            }) by {
                if j == 0 {
                    assert(k * 3 - 2 + j == k * 3 - 2);
                } else {
                    assert(k * 3 - 2 + j == k * 3 - 1);
                }
            }
        }
        r
    }

    /// The elements separated by `sep` and a newline.
    pub fn intersperse_with_sep_and_newline(&'a self, elems: &[DocRef<'a>], sep: &str) -> (r: DocRef<'a>)
        ensures
            elems@.len() == 0 ==> is_text(*r, Seq::empty()),
            elems@.len() > 0 ==> *r is Concat && separated(
                concat_parts(*r),
                derefs(elems@),
                2,
                |j: int, d: Doc<'a>| if j == 0 { is_text(d, sep@) } else { d == Doc::Newline },
            ),
    {
        let l = Doc::Newline;
        self.intersperse_with(elems, sep, &l)
    }

    /// The elements separated by `sep` and a softline.
    pub fn intersperse_with_sep_and_softline(&'a self, elems: &[DocRef<'a>], sep: &str) -> (r: DocRef<'a>)
        ensures
            elems@.len() == 0 ==> is_text(*r, Seq::empty()),
            elems@.len() > 0 ==> *r is Concat && separated(
                concat_parts(*r),
                derefs(elems@),
                2,
                |j: int, d: Doc<'a>| if j == 0 { is_text(d, sep@) } else { d == Doc::Softline },
            ),
    {
        let l = Doc::Softline;
        self.intersperse_with(elems, sep, &l)
    }

    /// The elements separated by `sep` and a maybeline.
    pub fn intersperse_with_sep_and_maybeline(&'a self, elems: &[DocRef<'a>], sep: &str) -> (r: DocRef<'a>)
        ensures
            elems@.len() == 0 ==> is_text(*r, Seq::empty()),
            elems@.len() > 0 ==> *r is Concat && separated(
                concat_parts(*r),
                derefs(elems@),
                2,
                |j: int, d: Doc<'a>| if j == 0 { is_text(d, sep@) } else { d == Doc::Maybeline },
            ),
    {
        let l = Doc::Maybeline;
        self.intersperse_with(elems, sep, &l)
    }

    /// The elements, separated by `sep` and softlines, indented, on one line
    /// when that fits.
    pub fn group_elems_with_softline(&'a self, elems: &[DocRef<'a>], sep: &str) -> (r: DocRef<'a>)
        ensures
            *r is Indent && inner(*r) is Some && *inner(*r).unwrap() is Choice,
    {
        let choice = self.intersperse_with_sep_and_softline(elems, sep);
        let g = self.group(choice);
        self.add_indent_level(g)
    }

    /// `open`, the elements on one line separated by `sep`, `close`.
    fn surround_single_line(&'a self, elems: &[DocRef<'a>], sep: &str, open: &str, close: &str) -> (r:
        DocRef<'a>)
        ensures
            elems@.len() == 0 ==> is_text(*r, open@ + close@),
            elems@.len() > 0 ==> *r is Concat && concat_parts(*r).len() == 3 && is_text(*concat_parts(*r)[0], open@)
                && is_text(*concat_parts(*r)[2], close@) && *concat_parts(*r)[1] is Concat && separated(
                concat_parts(*concat_parts(*r)[1]),
                flats(elems@),
                1,
                |j: int, d: Doc<'a>| is_text(d, sep@),
            ),
    {
        if elems.len() == 0 {
            let s = concat2(open, close);
            return self.txt_string(s);
        }
        let o = self.txt(open);
        let body = self.intersperse_single_line(elems, sep);
        let c = self.txt(close);
        let mut v: Vec<DocRef<'a>> = Vec::new();
        v.push(o);
        v.push(body);
        v.push(c);
        self.concat(v)
    }

    /// `open`, an indented line break, the elements separated by `sep` and the
    /// line break `line`, a softline, `close`.
    fn surround_with_sep_and(&'a self, elems: &[DocRef<'a>], sep: &str, open: &str, close: &str, line: &Doc<'a>) -> (r:
        DocRef<'a>)
        requires
            *line == Doc::Newline || *line == Doc::Softline || *line == Doc::Maybeline,
        ensures
            elems@.len() == 0 ==> is_text(*r, open@ + close@),
            elems@.len() > 0 ==> *r is Concat && concat_parts(*r).len() == 5 && is_text(*concat_parts(*r)[0], open@)
                && *concat_parts(*r)[1] == Doc::Indent(self.config.indent_size, concat_parts(*r)[1]->Indent_1)
                && *concat_parts(*r)[3] == Doc::Softline && is_text(*concat_parts(*r)[4], close@),
    {
        if elems.len() == 0 {
            let s = concat2(open, close);
            return self.txt_string(s);
        }
        let o = self.txt(open);
        let s1 = self.softline();
        let i1 = self.add_indent_level(s1);
        let body = self.intersperse_with(elems, sep, line);
        let i2 = self.add_indent_level(body);
        let s2 = self.softline();
        let c = self.txt(close);
        let mut v: Vec<DocRef<'a>> = Vec::new();
        v.push(o);
        v.push(i1);
        v.push(i2);
        v.push(s2);
        v.push(c);
        self.concat(v)
    }

    /// On one line (`sep` followed by a space) when that fits, else one element
    /// per line, indented, between `open` and `close`.
    pub fn surround_with_softline(&'a self, elems: &[DocRef<'a>], sep: &str, open: &str, close: &str) -> (r:
        DocRef<'a>)
        ensures
            *r is Choice,
    {
        let single_sep = concat2(sep, " ");
        let single_line = self.surround_single_line(elems, single_sep.as_str(), open, close);
        let l = Doc::Softline;
        let multi_line = self.surround_with_sep_and(elems, sep, open, close, &l);
        self.choice(single_line, multi_line)
    }

    /// On one line when that fits, else broken at maybelines.
    pub fn surround_with_maybeline(&'a self, elems: &[DocRef<'a>], sep: &str, open: &str, close: &str) -> (r:
        DocRef<'a>)
        ensures
            *r is Choice,
    {
        let single_line = self.surround_single_line(elems, sep, open, close);
        let l = Doc::Maybeline;
        let multi_line = self.surround_with_sep_and(elems, sep, open, close, &l);
        self.choice(single_line, multi_line)
    }

    /// `{`, a newline, `}` for no element; else the elements separated by
    /// `sep` and newlines between `open` and `close`.
    pub fn surround_with_newline(&'a self, elems: &[DocRef<'a>], sep: &str, open: &str, close: &str) -> (r:
        DocRef<'a>)
        ensures
            elems@.len() == 0 ==> *r is Concat && concat_parts(*r).len() == 3 && is_text(*concat_parts(*r)[0], seq!['{'])
                && *concat_parts(*r)[1] == Doc::Newline && is_text(*concat_parts(*r)[2], seq!['}']),
            elems@.len() > 0 ==> *r is Concat && concat_parts(*r).len() == 5 && is_text(*concat_parts(*r)[0], open@)
                && is_text(*concat_parts(*r)[4], close@),
    {
        if elems.len() == 0 {
            let o = self.txt("{");
            let n = self.nl();
            let c = self.txt("}");
            proof {
                reveal_strlit("{");
                reveal_strlit("}");
                assert("{"@ =~= seq!['{']);
                assert("}"@ =~= seq!['}']);
            }
            let mut v: Vec<DocRef<'a>> = Vec::new();
            v.push(o);
            v.push(n);
            v.push(c);
            return self.concat(v);
        }
        let l = Doc::Newline;
        self.surround_with_sep_and(elems, sep, open, close, &l)
    }

    /// Body members: each followed by a newline, with an empty line where the
    /// source had one (`trailing[i]`), the last member followed by nothing.
    pub fn split_with_trailing_newline_considered(&'a self, docs: &[DocRef<'a>], trailing: &[bool]) -> (r:
        DocRef<'a>)
        requires
            docs@.len() == trailing@.len(),
        ensures
            docs@.len() == 0 ==> is_text(*r, Seq::empty()),
            docs@.len() > 0 ==> *r is Concat && concat_parts(*r).len() > 0 && concat_parts(*r)[0] == docs@[0]
                && concat_parts(*r).last() == docs@.last(),
            docs@.len() > 0 ==> members_on_lines(concat_parts(*r), docs@, trailing@),
    {
        if docs.len() == 0 {
            return self.nil();
        }
        let mut parts: Vec<DocRef<'a>> = Vec::new();
        let mut i: usize = 0;
        while i < docs.len()
            invariant
                docs@.len() == trailing@.len(),
                docs@.len() > 0,
                i <= docs@.len(),
                i > 0 ==> parts@.len() > 0 && parts@[0] == docs@[0] && parts@.last() == docs@[i - 1],
                i == 0 ==> parts@.len() == 0,
                i > 0 ==> parts@.len() == member_pos(trailing@, i - 1) + 1,
                forall|k: int| 0 <= k < i ==> members_line_ok(parts@, docs@, trailing@, k),
            decreases docs@.len() - i,
        {
            let ghost p0 = parts@;
            if i > 0 {
                if trailing[i - 1] {
                    let e = self.nl_with_no_indent();
                    parts.push(e);
                }
                let n = self.nl();
                parts.push(n);
            }
            let d = docs[i];
            assert(d == docs@[i as int]);
            parts.push(d);
            assert(parts@.last() == docs@[i as int]);
            assert(i > 0 ==> parts@[0] == p0[0]);
            assert(i == 0 ==> parts@[0] == docs@[0]);
            proof {
                assert(parts@.len() == member_pos(trailing@, i as int) + 1);
                assert forall|k: int| 0 <= k <= i implies members_line_ok(parts@, docs@, trailing@, k) by {
                    if k < i {
                        lemma_member_pos_mono(trailing@, k, i - 1);
                        assert(members_line_ok(p0, docs@, trailing@, k));
                        assert(parts@.subrange(0, p0.len() as int) =~= p0);
                        assert(parts@[member_pos(trailing@, k)] == p0[member_pos(trailing@, k)]);
                        if k > 0 {
                            lemma_member_pos_mono(trailing@, 0, k);
                            assert(parts@[member_pos(trailing@, k) - 1] == p0[member_pos(trailing@, k) - 1]);
                            if trailing@[k - 1] {
                                assert(parts@[member_pos(trailing@, k) - 2] == p0[member_pos(trailing@, k) - 2]);
                            }
                        }
                    }
                }
            }
            i = i + 1;
        }
        assert(i == docs@.len());
        self.concat(parts)
    }

    /// `open`, an indented newline, the body members, a newline, `close`; for
    /// no member `{`, a newline, `}`.
    pub fn surround_with_trailing_newline_considered(&'a self, docs: &[DocRef<'a>], trailing: &[bool], open: &str, close: &str) -> (r:
        DocRef<'a>)
        requires
            docs@.len() == trailing@.len(),
        ensures
            docs@.len() == 0 ==> *r is Concat && concat_parts(*r).len() == 3 && is_text(*concat_parts(*r)[0], seq!['{'])
                && *concat_parts(*r)[1] == Doc::Newline && is_text(*concat_parts(*r)[2], seq!['}']),
            docs@.len() > 0 ==> *r is Concat && concat_parts(*r).len() == 5 && is_text(*concat_parts(*r)[0], open@)
                && *concat_parts(*r)[3] == Doc::Newline && is_text(*concat_parts(*r)[4], close@),
            docs@.len() > 0 ==> is_members_body(*r, docs@, trailing@, open@, close@, self.config.indent_size),
    {
        if docs.len() == 0 {
            let o = self.txt("{");
            let n = self.nl();
            let c = self.txt("}");
            proof {
                reveal_strlit("{");
                reveal_strlit("}");
                assert("{"@ =~= seq!['{']);
                assert("}"@ =~= seq!['}']);
            }
            let mut v: Vec<DocRef<'a>> = Vec::new();
            v.push(o);
            v.push(n);
            v.push(c);
            return self.concat(v);
        }
        let o = self.txt(open);
        let n1 = self.nl();
        let i1 = self.add_indent_level(n1);
        let body = self.split_with_trailing_newline_considered(docs, trailing);
        let i2 = self.add_indent_level(body);
        let n2 = self.nl();
        let c = self.txt(close);
        let mut v: Vec<DocRef<'a>> = Vec::new();
        v.push(o);
        v.push(i1);
        v.push(i2);
        v.push(n2);
        v.push(c);
        self.concat(v)
    }

    /// The document indented by one level.
    pub fn indent(&'a self, doc_ref: DocRef<'a>) -> (r: DocRef<'a>)
        ensures
            *r == Doc::Indent(self.config.indent_size, doc_ref),
    {
        self.add_indent_level(doc_ref)
    }

    /// The documents concatenated, on one line when that fits.
    pub fn group_concat(&'a self, docs: Vec<DocRef<'a>>) -> (r: DocRef<'a>)
        ensures
            *r is Choice && *r->Choice_1 is Concat && concat_parts(*r->Choice_1) == docs@
                && *r->Choice_0 == Doc::Flat(r->Choice_1),
    {
        let c = self.concat(docs);
        self.group(c)
    }

    /// The documents concatenated and indented, on one line when that fits.
    pub fn group_indent_concat(&'a self, docs: Vec<DocRef<'a>>) -> (r: DocRef<'a>)
        ensures
            *r is Choice && *r->Choice_0 == Doc::Flat(r->Choice_1) && *r->Choice_1 is Indent
                && inner(*r->Choice_1) is Some && *inner(*r->Choice_1).unwrap() is Concat
                && concat_parts(*inner(*r->Choice_1).unwrap()) == docs@,
    {
        let c = self.concat(docs);
        let i = self.indent(c);
        self.group(i)
    }

    /// What separates two body members or opens a body: a space for K&R
    /// braces, a line break for Allman braces.
    pub fn brace_sep(&'a self) -> (r: DocRef<'a>)
        ensures
            self.config.brace_style == crate::doc::BraceStyle::KAndR ==> is_text(*r, seq![' ']),
            self.config.brace_style == crate::doc::BraceStyle::Allman ==> *r == Doc::Newline,
    {
        match self.config.brace_style {
            crate::doc::BraceStyle::KAndR => {
                let r = self.txt(" ");
                proof {
                    reveal_strlit(" ");
                    assert(" "@ =~= seq![' ']);
                }
                r
            },
            crate::doc::BraceStyle::Allman => self.nl(),
        }
    }

    /// The parts of a separator: before, text, after.
    pub fn insertable(&'a self, pre: Option<DocRef<'a>>, text: Option<&str>, suf: Option<DocRef<'a>>) -> (r:
        Insertable<'a>)
        ensures
            r.pre == pre,
            r.suf == suf,
            text is None ==> r.text is None,
            text matches Some(s) ==> r.text matches Some(d) && is_text(*d, s@),
    {
        let t = match text {
            Some(s) => Some(self.txt(s)),
            None => None,
        };
        Insertable { pre, text: t, suf }
    }

    /// Appends the parts of an insertable.
    fn push_insertable(&'a self, ins: &Insertable<'a>, parts: &mut Vec<DocRef<'a>>)
        ensures
            final(parts)@ == old(parts)@ + insertable_parts(*ins),
    {
        let ghost p0 = parts@;
        match ins.pre {
            Some(d) => parts.push(d),
            None => {},
        }
        match ins.text {
            Some(d) => parts.push(d),
            None => {},
        }
        match ins.suf {
            Some(d) => parts.push(d),
            None => {},
        }
        assert(parts@ =~= p0 + insertable_parts(*ins));
    }

    /// The elements with the separator between each two.
    pub fn intersperse(&'a self, elems: &[DocRef<'a>], sep: &Insertable<'a>) -> (r: DocRef<'a>)
        ensures
            *r is Concat && concat_parts(*r) == interspersed(elems@, insertable_parts(*sep)),
    {
        let mut parts: Vec<DocRef<'a>> = Vec::new();
        let mut i: usize = 0;
        while i < elems.len()
            invariant
                i <= elems@.len(),
                parts@ == interspersed(elems@.subrange(0, i as int), insertable_parts(*sep)),
            decreases elems@.len() - i,
        {
            let ghost p0 = parts@;
            if i > 0 {
                self.push_insertable(sep, &mut parts);
            }
            parts.push(elems[i]);
            proof {
                let e = elems@.subrange(0, i + 1);
                assert(e.drop_last() =~= elems@.subrange(0, i as int));
                assert(parts@ =~= interspersed(e, insertable_parts(*sep)));
            }
            i = i + 1;
        }
        assert(elems@.subrange(0, elems@.len() as int) =~= elems@);
        self.concat(parts)
    }

    /// `open`, the separated elements, `close`.
    pub fn surround(&'a self, elems: &[DocRef<'a>], sep: &Insertable<'a>, open: &Insertable<'a>, close: &Insertable<'a>) -> (r:
        DocRef<'a>)
        ensures
            is_plain_surround(*r, elems@, *sep, *open, *close),
    {
        let mut parts: Vec<DocRef<'a>> = Vec::new();
        self.push_insertable(open, &mut parts);
        let body = self.intersperse(elems, sep);
        parts.push(body);
        self.push_insertable(close, &mut parts);
        let ghost k = insertable_parts(*open).len() as int;
        assert(parts@[k] == body);
        assert(parts@ =~= insertable_parts(*open) + seq![body] + insertable_parts(*close));
        self.concat(parts)
    }

    /// On one line when that fits, else broken where the insertables allow,
    /// the elements indented: the text of `open`, an indented part made of
    /// what follows `open` and the separated elements, then `close`. With no
    /// element, the texts of `open` and `close` alone.
    #[verifier::rlimit(40)]
    #[verifier::spinoff_prover]
    pub fn group_surround(&'a self, elems: &[DocRef<'a>], sep: &Insertable<'a>, open: &Insertable<'a>, close: &Insertable<'a>) -> (r:
        DocRef<'a>)
        ensures
            *r is Choice && *r->Choice_0 == Doc::Flat(r->Choice_1),
            is_group_surround(*r->Choice_1, elems@, *sep, *open, *close, self.config.indent_size),
    {
        let ghost a = opt_seq(open.pre) + opt_seq(open.text);
        let ghost z = opt_seq(close.text) + opt_seq(close.suf);
        let ghost mut ind_g: DocRef<'a> = arbitrary();
        let mut parts: Vec<DocRef<'a>> = Vec::new();
        match open.pre {
            Some(d) => parts.push(d),
            None => {},
        }
        match open.text {
            Some(d) => parts.push(d),
            None => {},
        }
        if elems.len() > 0 {
            let mut inner_parts: Vec<DocRef<'a>> = Vec::new();
            match open.suf {
                Some(d) => inner_parts.push(d),
                None => {},
            }
            let body = self.intersperse(elems, sep);
            inner_parts.push(body);
            assert(inner_parts@ =~= opt_seq(open.suf) + seq![body]);
            let c = self.concat(inner_parts);
            let ind = self.indent(c);
            proof {
                ind_g = ind;
                assert(concat_parts(*c).subrange(0, opt_seq(open.suf).len() as int) =~= opt_seq(open.suf));
            }
            parts.push(ind);
            match close.pre {
                Some(d) => parts.push(d),
                None => {},
            }
            assert(parts@ =~= a + seq![ind] + opt_seq(close.pre));
        } else {
            assert(parts@ =~= a);
        }
        let ghost mid = parts@;
        match close.text {
            Some(d) => parts.push(d),
            None => {},
        }
        match close.suf {
            Some(d) => parts.push(d),
            None => {},
        }
        assert(parts@ =~= mid + z);
        let c = self.concat(parts);
        proof {
            if elems@.len() > 0 {
                assert(parts@ =~= a + seq![ind_g] + opt_seq(close.pre) + z);
                assert(parts@[a.len() as int] == ind_g);
            }
        }
        assert(is_group_surround(*c, elems@, *sep, *open, *close, self.config.indent_size));
        self.group(c)
    }

    /// A blank line: a newline with no indent, then a newline.
    pub fn empty_new_line(&'a self) -> (r: DocRef<'a>)
        ensures
            *r is Concat && concat_parts(*r).len() == 2 && *concat_parts(*r)[0] == Doc::NewlineWithNoIndent
                && *concat_parts(*r)[1] == Doc::Newline,
    {
        let mut v: Vec<DocRef<'a>> = Vec::new();
        let a = self.nl_with_no_indent();
        v.push(a);
        let n = self.nl();
        v.push(n);
        self.concat(v)
    }
}

} // verus!
