//! The data model of an Apex source: one type per kind of syntax node, each
//! built from a node of the tree (`new`) and turned into a document (`build`)
//! together with the comments and punctuation attached to it.
//!
//! Every `new` takes a well-formed tree and a node of it; it fails with a
//! message where the node is not of the kind it models or a mandatory child is
//! missing. Every `build` writes the comments of the nodes it covers and keeps
//! the record of written comments indexed by the nodes of the tree.
use crate::enum_def::{
    build_expressions, expressions_of, ClassMember, Expression, PrimaryExpression, RootMember,
    SimpleType, Statement, Type, UnannotatedType, VariableInitializer,
};
use crate::utility::ChainingContext;
use crate::accessor::{
    c_by_k, c_by_n, children_vec, cs_by_k, cs_by_n, first_c, kind_is, next_named_sibling,
    try_c_by_k, try_c_by_n, try_cs_by_k, try_cs_by_n, value,
};
use crate::context::{
    handle_dangling_comments_in_bracket_surround, handle_post_comments, handle_pre_comments,
    BuildState, CommentBucket, CommentMap, NodeContext, Punctuation, has_mark, punc_text,
};
use crate::doc::{BraceStyle, Doc, DocRef, PrettyConfig};
use crate::doc_builder::{concat_parts, inner, insertable_parts, opt_seq, interspersed, is_members_body, members_on_lines, is_text, DocBuilder, Insertable};

use crate::strs::{lowercase, owned, str_eq, to_lowercase, to_uppercase, uppercase};
use crate::syntax::SyntaxTree;
use crate::utility::{assert_check, panic_unknown_node};
use vstd::prelude::*;

verus! {

// ---------------------------------------------------------------------------
// Comments around a node.
// ---------------------------------------------------------------------------
/// `d` is a concatenation of `body`.
pub open spec fn is_concat_of<'a>(d: Doc<'a>, body: Seq<DocRef<'a>>) -> bool {
    d is Concat && concat_parts(d) == body
}

/// `d` is a concatenation that has, among its parts, the concatenation of
/// `body`: the body of a node with the comments around it.
pub open spec fn wraps<'a>(d: Doc<'a>, body: Seq<DocRef<'a>>) -> bool {
    &&& d is Concat
    &&& exists|k: int| 0 <= k < concat_parts(d).len() && #[trigger] is_concat_of(*concat_parts(d)[k], body)
}

/// `d` is the concatenation of a single text.
pub open spec fn is_single_text<'a>(d: Doc<'a>, text: Seq<char>) -> bool {
    d is Concat && concat_parts(d).len() == 1 && is_text(*concat_parts(d)[0], text)
}

/// `d` is a text with the comments around it.
pub open spec fn wraps_text<'a>(d: Doc<'a>, text: Seq<char>) -> bool {
    &&& d is Concat
    &&& exists|k: int| 0 <= k < concat_parts(d).len() && #[trigger] is_single_text(*concat_parts(d)[k], text)
}

proof fn lemma_wraps_single<'a>(d: Doc<'a>, t: DocRef<'a>, text: Seq<char>)
    requires
        wraps(d, seq![t]),
        is_text(*t, text),
    ensures
        wraps_text(d, text),
{
    let k = choose|k: int| 0 <= k < concat_parts(d).len() && #[trigger] is_concat_of(*concat_parts(d)[k], seq![t]);
    assert(is_single_text(*concat_parts(d)[k], text));
}

/// A node's document with its comments: its pre-comments, the body, its
/// punctuation with the comments of that, and its post-comments.
pub fn with_comments_and_punc<'a>(
    b: &'a DocBuilder<'a>,
    cm: &CommentMap,
    st: &mut BuildState,
    ctx: &NodeContext,
    body: Vec<DocRef<'a>>,
) -> (r: DocRef<'a>)
    ensures
        final(st).printed@.len() == old(st).printed@.len(),
        wraps(*r, body@),
        ctx.punc matches Some(p) ==> punctuated(*r, body@, punc_text(p.type_)),
{
    let ghost body_v = body@;
    let bucket = cm.bucket(ctx.id);
    let mut result: Vec<DocRef<'a>> = Vec::new();
    handle_pre_comments(b, bucket, &mut result, st);
    let k = result.len();
    let inner = b.concat(body);
    result.push(inner);
    let ghost at_k = result@;
    match &ctx.punc {
        Some(p) => {
            let d = p.build(b, cm, st);
            result.push(d);
        },
        None => {},
    }
    let ghost before_post = result@;
    handle_post_comments(b, bucket, &mut result, st);
    assert(at_k.is_prefix_of(before_post));
    assert(result@[k as int] == before_post[k as int]);
    assert(is_concat_of(*result@[k as int], body_v));
    if ctx.punc.is_some() {
        assert(result@[k + 1] == before_post[k + 1]);
    }
    b.concat(result)
}

/// `d` is a concatenation in which the concatenation of `body` is directly
/// followed by a part that holds the punctuation mark `mark`.
pub open spec fn punctuated<'a>(d: Doc<'a>, body: Seq<DocRef<'a>>, mark: Seq<char>) -> bool {
    &&& d is Concat
    &&& exists|k: int|
        0 <= k && k + 1 < concat_parts(d).len() && #[trigger] is_concat_of(*concat_parts(d)[k], body) && has_mark(
            *concat_parts(d)[k + 1],
            mark,
        )
}

/// A node's document with its pre- and post-comments, its punctuation left
/// to the node that follows.
pub fn with_comments<'a>(
    b: &'a DocBuilder<'a>,
    cm: &CommentMap,
    st: &mut BuildState,
    ctx: &NodeContext,
    body: Vec<DocRef<'a>>,
) -> (r: DocRef<'a>)
    ensures
        final(st).printed@.len() == old(st).printed@.len(),
        wraps(*r, body@),
{
    let ghost body_v = body@;
    let bucket = cm.bucket(ctx.id);
    let mut result: Vec<DocRef<'a>> = Vec::new();
    handle_pre_comments(b, bucket, &mut result, st);
    let k = result.len();
    let inner = b.concat(body);
    result.push(inner);
    let ghost at_k = result@;
    handle_post_comments(b, bucket, &mut result, st);
    assert(result@[k as int] == at_k[k as int]);
    assert(is_concat_of(*result@[k as int], body_v));
    b.concat(result)
}

/// The documents of a body in braces: each member on its own line, an empty
/// line kept where the source had one; a node whose comments are all inside
/// its empty braces gets those comments as its body.
pub fn build_braced_members<'a>(
    b: &'a DocBuilder<'a>,
    cm: &CommentMap,
    st: &mut BuildState,
    id: usize,
    docs: &[DocRef<'a>],
    trailing: &[bool],
) -> (r: DocRef<'a>)
    requires
        docs@.len() == trailing@.len(),
    ensures
        final(st).printed@.len() == old(st).printed@.len(),
        (bucket_of(cm, id).dangling_comments@.len() == 0 && docs@.len() > 0) ==> has_members_body(*r, docs@, trailing@, b.config.indent_size),
{
    proof {
        reveal_strlit("{");
        reveal_strlit("}");
    }
    let bucket = cm.bucket(id);
    let mut result: Vec<DocRef<'a>> = Vec::new();
    handle_pre_comments(b, bucket, &mut result, st);
    if bucket.dangling_comments.len() == 0 {
        let d = b.surround_with_trailing_newline_considered(docs, trailing, "{", "}");
        let k = result.len();
        result.push(d);
        let ghost at_k = result@;
        handle_post_comments(b, bucket, &mut result, st);
        assert(result@[k as int] == at_k[k as int]);
        let r = b.concat(result);
        proof {
            if docs@.len() > 0 {
                assert(is_members_body(*concat_parts(*r)[k as int], docs@, trailing@, "{"@, "}"@, b.config.indent_size));
            }
        }
        r
    } else {
        handle_dangling_comments_in_bracket_surround(b, bucket, &mut result, st);
        b.concat(result)
    }
}

/// Whether the source has an empty line after each member.
pub open spec fn trailing_flags<M>(list: Seq<BodyMember<M>>) -> Seq<bool> {
    Seq::new(list.len(), |i: int| list[i].has_trailing_newline)
}

/// The comment bucket of node `id`; the empty bucket for an index out of range.
pub open spec fn bucket_of(cm: &CommentMap, id: usize) -> CommentBucket {
    if id < cm.buckets@.len() {
        cm.buckets@[id as int]
    } else {
        cm.empty
    }
}

/// `d` holds, among its comments, a body in braces with `docs` as members,
/// one per line.
pub open spec fn has_members_body<'a>(d: Doc<'a>, docs: Seq<DocRef<'a>>, trailing: Seq<bool>, indent: u32) -> bool {
    &&& d is Concat
    &&& exists|k: int|
        0 <= k < concat_parts(d).len() && #[trigger] is_members_body(
            *concat_parts(d)[k],
            docs,
            trailing,
            "{"@,
            "}"@,
            indent,
        )
}

/// A body member and whether the source has an empty line after it.
pub struct BodyMember<M> {
    pub member: M,
    pub has_trailing_newline: bool,
}

/// Whether an empty line follows node `n` before its next named sibling.
pub fn has_trailing_newline(t: &SyntaxTree, n: usize) -> (r: bool)
    requires
        t.wf(),
        t.valid(n as int),
    ensures
        r <==> (crate::accessor::next_where(t, n as int, true, false) matches Some(s)
            && t.nodes@[n as int].end_row + 1 < t.nodes@[s as int].start_row),
{
    match next_named_sibling(t, n) {
        Some(s) => {
            let end = t.nodes[n].end_row;
            let start = t.nodes[s].start_row;
            end < start && start - end > 1
        },
        None => false,
    }
}

impl<M> BodyMember<M> {
    pub fn new(t: &SyntaxTree, n: usize, member: M) -> (r: Self)
        requires
            t.wf(),
            t.valid(n as int),
        ensures
            r.member == member,
            r.has_trailing_newline == has_trailing_newline_spec(t, n as int),
    {
        let with_body = has_trailing_newline(t, n);
        BodyMember { member, has_trailing_newline: with_body }
    }
}

pub open spec fn has_trailing_newline_spec(t: &SyntaxTree, n: int) -> bool {
    crate::accessor::next_where(t, n, true, false) matches Some(s) && t.nodes@[n].end_row + 1
        < t.nodes@[s as int].start_row
}

/// The space before an opening brace: a space for K&R braces, a line break
/// for Allman braces.
pub fn before_brace<'a>(b: &'a DocBuilder<'a>) -> (r: DocRef<'a>)
    ensures
        b.config.brace_style == BraceStyle::KAndR ==> is_text(*r, seq![' ']),
        b.config.brace_style == BraceStyle::Allman ==> *r == Doc::Newline,
{
    b.brace_sep()
}

// ---------------------------------------------------------------------------
// Nodes that hold their source text.
// ---------------------------------------------------------------------------
/// A node kept as the text it has in the source.
pub struct ValueNode {
    pub value: String,
    pub node_context: NodeContext,
}

impl ValueNode {
    pub fn new(t: &SyntaxTree, n: usize) -> (r: Result<Self, String>)
        requires
            t.wf(),
            t.valid(n as int),
        ensures
            r is Ok <==> crate::accessor::readable(t, n as int),
            r matches Ok(v) ==> v.node_context.id == n && crate::strs::bytes_of(v.value@)
                == crate::accessor::node_bytes(t, n as int),
    {
        let v = value(t, n)?;
        Ok(ValueNode { value: v, node_context: NodeContext::with_punctuation(t, n) })
    }

    /// The text as written, with its comments and punctuation.
    pub fn build<'a>(&self, b: &'a DocBuilder<'a>, cm: &CommentMap, st: &mut BuildState) -> (r: DocRef<'a>)
        ensures
            final(st).printed@.len() == old(st).printed@.len(),
            wraps_text(*r, self.value@),
    {
        let mut body: Vec<DocRef<'a>> = Vec::new();
        let v = b.txt(self.value.as_str());
        body.push(v);
        assert(body@ =~= seq![v]);
        let r = with_comments_and_punc(b, cm, st, &self.node_context, body);
        proof { lemma_wraps_single(*r, v, self.value@); }
        r
    }
}

/// A node written in lower case.
pub struct ValueNodeLowerCase {
    pub value: String,
    pub node_context: NodeContext,
}

impl ValueNodeLowerCase {
    pub fn new(t: &SyntaxTree, n: usize) -> (r: Result<Self, String>)
        requires
            t.wf(),
            t.valid(n as int),
        ensures
            r is Ok <==> crate::accessor::readable(t, n as int),
            r matches Ok(v) ==> v.node_context.id == n && crate::strs::bytes_of(v.value@)
                == crate::accessor::node_bytes(t, n as int),
    {
        let v = value(t, n)?;
        Ok(ValueNodeLowerCase { value: v, node_context: NodeContext::with_punctuation(t, n) })
    }

    pub fn build<'a>(&self, b: &'a DocBuilder<'a>, cm: &CommentMap, st: &mut BuildState) -> (r: DocRef<'a>)
        ensures
            final(st).printed@.len() == old(st).printed@.len(),
            wraps_text(*r, lowercase(self.value@)),
    {
        let lower = to_lowercase(self.value.as_str());
        let mut body: Vec<DocRef<'a>> = Vec::new();
        let v = b.txt_string(lower);
        body.push(v);
        assert(body@ =~= seq![v]);
        let r = with_comments_and_punc(b, cm, st, &self.node_context, body);
        proof { lemma_wraps_single(*r, v, lowercase(self.value@)); }
        r
    }
}

/// A node written in upper case.
pub struct ValueNodeUpperCase {
    pub value: String,
    pub node_context: NodeContext,
}

impl ValueNodeUpperCase {
    pub fn new(t: &SyntaxTree, n: usize) -> (r: Result<Self, String>)
        requires
            t.wf(),
            t.valid(n as int),
        ensures
            r is Ok <==> crate::accessor::readable(t, n as int),
            r matches Ok(v) ==> v.node_context.id == n && crate::strs::bytes_of(v.value@)
                == crate::accessor::node_bytes(t, n as int),
    {
        let v = value(t, n)?;
        Ok(ValueNodeUpperCase { value: v, node_context: NodeContext::with_punctuation(t, n) })
    }

    pub fn build<'a>(&self, b: &'a DocBuilder<'a>, cm: &CommentMap, st: &mut BuildState) -> (r: DocRef<'a>)
        ensures
            final(st).printed@.len() == old(st).printed@.len(),
            wraps_text(*r, uppercase(self.value@)),
    {
        let upper = to_uppercase(self.value.as_str());
        let mut body: Vec<DocRef<'a>> = Vec::new();
        let v = b.txt_string(upper);
        body.push(v);
        assert(body@ =~= seq![v]);
        let r = with_comments_and_punc(b, cm, st, &self.node_context, body);
        proof { lemma_wraps_single(*r, v, uppercase(self.value@)); }
        r
    }
}

/// A node that is always written as one fixed word.
pub struct Keyword {
    pub node_context: NodeContext,
}

/// Checks the kind of a keyword node and records its context.
fn keyword(t: &SyntaxTree, n: usize, kind: &str) -> (r: Result<Keyword, String>)
    requires
        t.wf(),
        t.valid(n as int),
    ensures
        r is Ok <==> t.nodes@[n as int].kind@ == kind@,
        r matches Ok(k) ==> k.node_context.id == n,
{
    assert_check(t, n, kind)?;
    Ok(Keyword { node_context: NodeContext::with_punctuation(t, n) })
}

/// A fixed word with the comments and punctuation of its node.
fn build_word<'a>(b: &'a DocBuilder<'a>, cm: &CommentMap, st: &mut BuildState, ctx: &NodeContext, word: &str) -> (r: DocRef<'a>)
    ensures
        final(st).printed@.len() == old(st).printed@.len(),
        wraps_text(*r, word@),
{
    let mut body: Vec<DocRef<'a>> = Vec::new();
    let w = b.txt(word);
    body.push(w);
    assert(body@ =~= seq![w]);
    let r = with_comments_and_punc(b, cm, st, ctx, body);
    proof { lemma_wraps_single(*r, w, word@); }
    r
}

/// `?.`
pub struct SafeNavigationOperator {
    pub node_context: NodeContext,
}

impl SafeNavigationOperator {
    pub fn new(t: &SyntaxTree, n: usize) -> (r: Result<Self, String>)
        requires
            t.wf(),
            t.valid(n as int),
        ensures
            r is Ok <==> t.nodes@[n as int].kind@ == "safe_navigation_operator"@,
            r matches Ok(v) ==> v.node_context.id == n,
    {
        let k = keyword(t, n, "safe_navigation_operator")?;
        Ok(SafeNavigationOperator { node_context: k.node_context })
    }

    pub fn build<'a>(&self, b: &'a DocBuilder<'a>, cm: &CommentMap, st: &mut BuildState) -> (r: DocRef<'a>)
        ensures
            final(st).printed@.len() == old(st).printed@.len(),
            wraps_text(*r, "?."@),
    {
        build_word(b, cm, st, &self.node_context, "?.")
    }
}

/// `super`
pub struct Super {
    pub node_context: NodeContext,
}

impl Super {
    pub fn new(t: &SyntaxTree, n: usize) -> (r: Result<Self, String>)
        requires
            t.wf(),
            t.valid(n as int),
        ensures
            r is Ok <==> t.nodes@[n as int].kind@ == "super"@,
            r matches Ok(v) ==> v.node_context.id == n,
    {
        let k = keyword(t, n, "super")?;
        Ok(Super { node_context: k.node_context })
    }

    pub fn build<'a>(&self, b: &'a DocBuilder<'a>, cm: &CommentMap, st: &mut BuildState) -> (r: DocRef<'a>)
        ensures
            final(st).printed@.len() == old(st).printed@.len(),
            wraps_text(*r, "super"@),
    {
        build_word(b, cm, st, &self.node_context, "super")
    }
}

/// `this`
pub struct This {
    pub node_context: NodeContext,
}

impl This {
    pub fn new(t: &SyntaxTree, n: usize) -> (r: Result<Self, String>)
        requires
            t.wf(),
            t.valid(n as int),
        ensures
            r is Ok <==> t.nodes@[n as int].kind@ == "this"@,
            r matches Ok(v) ==> v.node_context.id == n,
    {
        let k = keyword(t, n, "this")?;
        Ok(This { node_context: k.node_context })
    }

    pub fn build<'a>(&self, b: &'a DocBuilder<'a>, cm: &CommentMap, st: &mut BuildState) -> (r: DocRef<'a>)
        ensures
            final(st).printed@.len() == old(st).printed@.len(),
            wraps_text(*r, "this"@),
    {
        build_word(b, cm, st, &self.node_context, "this")
    }
}

/// `boolean`
pub struct BoolType {
    pub node_context: NodeContext,
}

impl BoolType {
    pub fn new(t: &SyntaxTree, n: usize) -> (r: Result<Self, String>)
        requires
            t.wf(),
            t.valid(n as int),
        ensures
            r is Ok <==> t.nodes@[n as int].kind@ == "boolean_type"@,
            r matches Ok(v) ==> v.node_context.id == n,
    {
        let k = keyword(t, n, "boolean_type")?;
        Ok(BoolType { node_context: k.node_context })
    }

    pub fn build<'a>(&self, b: &'a DocBuilder<'a>, cm: &CommentMap, st: &mut BuildState) -> (r: DocRef<'a>)
        ensures
            final(st).printed@.len() == old(st).printed@.len(),
            wraps_text(*r, "boolean"@),
    {
        build_word(b, cm, st, &self.node_context, "boolean")
    }
}


// ---------------------------------------------------------------------------
// Lists.
// ---------------------------------------------------------------------------
/// Elements between `open` and `close`, separated by a line that breaks only
/// when the group does not fit; the edges break as a soft line when
/// `soft_edges`, else as a line that is empty when flat.
pub fn surround_group<'a>(b: &'a DocBuilder<'a>, docs: &[DocRef<'a>], open: &str, close: &str, soft_edges: bool) -> (r: DocRef<'a>)
    ensures
        is_surrounded(*r, docs@.len(), open@, close@, soft_edges, b.config.indent_size),
        forall|j: int| 0 <= j < docs@.len() ==> #[trigger] surrounded_elem(*r, j) == *docs@[j],
{
    let sl = b.softline();
    let sep = b.insertable(None, None, Some(sl));
    let e1 = if soft_edges { b.softline() } else { b.maybeline() };
    let e2 = if soft_edges { b.softline() } else { b.maybeline() };
    let o = b.insertable(None, Some(open), Some(e1));
    let c = b.insertable(Some(e2), Some(close), None);
    let r = b.group_surround(docs, &sep, &o, &c);
    proof {
        let p = concat_parts(*r->Choice_1);
        assert(crate::doc_builder::opt_seq(o.pre) + crate::doc_builder::opt_seq(o.text) =~= seq![o.text->0]);
        assert(crate::doc_builder::opt_seq(c.text) + crate::doc_builder::opt_seq(c.suf) =~= seq![c.text->0]);
        if docs@.len() > 0 {
            assert(p[0] == o.text->0);
            assert(p[2] == e2);
            assert(p[3] == c.text->0);
            assert(insertable_parts(sep) =~= seq![sl]);
            lemma_interspersed_single(docs@, sl);
            assert(crate::doc_builder::opt_seq(o.suf).len() == 1);
            assert forall|j: int| 0 <= j < docs@.len() implies #[trigger] surrounded_elem(*r, j) == *docs@[j] by {
                if let Doc::Indent(_, x) = *p[1] {
                    assert(concat_parts(*x).last() == concat_parts(*x)[1]);
                }
            }
        } else {
            assert(p[0] == o.text->0);
            assert(p[1] == c.text->0);
        }
    }
    r
}

/// `open`, then, for a list with elements, the elements indented after a
/// break at the edge and another break, then `close`; on one line when that
/// fits. The edges are soft line breaks or breaks that vanish when flat.
pub open spec fn is_surrounded<'a>(d: Doc<'a>, n: nat, open: Seq<char>, close: Seq<char>, soft_edges: bool, indent: u32) -> bool {
    let edge = if soft_edges {
        Doc::Softline
    } else {
        Doc::Maybeline
    };
    &&& d is Choice
    &&& *d->Choice_0 == Doc::Flat(d->Choice_1)
    &&& *d->Choice_1 is Concat
    &&& ({
        let p = concat_parts(*d->Choice_1);
        &&& p.len() >= 2
        &&& is_text(*p[0], open)
        &&& is_text(*p[p.len() - 1], close)
        &&& if n > 0 {
            p.len() == 4 && (*p[1] matches Doc::Indent(i, _) && i == indent) && *p[2] == edge
        } else {
            p.len() == 2
        }
    })
}

/// Elements separated by a text.
pub fn join<'a>(b: &'a DocBuilder<'a>, docs: &[DocRef<'a>], sep: &str) -> (r: DocRef<'a>)
    ensures
        is_joined(*r, docs@.len(), sep@),
{
    let s = b.insertable(None, Some(sep), None);
    let r = b.intersperse(docs, &s);
    proof {
        let t = s.text->0;
        assert(insertable_parts(s) =~= seq![t]);
        assert(joined_parts(docs@, t) == concat_parts(*r));
    }
    r
}

/// The elements with the one separator part between each two.
pub open spec fn joined_parts<'a>(elems: Seq<DocRef<'a>>, sep: DocRef<'a>) -> Seq<DocRef<'a>> {
    interspersed(elems, seq![sep])
}

/// `n` elements, each two apart by the text `sep`.
pub open spec fn is_joined<'a>(d: Doc<'a>, n: nat, sep: Seq<char>) -> bool {
    &&& d is Concat
    &&& exists|elems: Seq<DocRef<'a>>, t: DocRef<'a>|
        #![trigger joined_parts(elems, t)]
        elems.len() == n && is_text(*t, sep) && concat_parts(d) == joined_parts(elems, t)
}

// ---------------------------------------------------------------------------
// Which nodes of types and annotations can be read.
// ---------------------------------------------------------------------------
/// The first node of the list exists and its text can be read.
pub open spec fn readable_first(t: &SyntaxTree, s: Seq<usize>) -> bool {
    s.len() > 0 && crate::accessor::readable(t, s[0] as int)
}

/// A value read from node `c`: it carries the node's id, and its text is the
/// source text of the node.
pub open spec fn read_from(t: &SyntaxTree, c: int, id: usize, text: String) -> bool {
    id == c && crate::strs::bytes_of(text@) == crate::accessor::node_bytes(t, c)
}

/// The list is empty, or the text of its first node can be read.
pub open spec fn readable_if_any(t: &SyntaxTree, s: Seq<usize>) -> bool {
    s.len() > 0 ==> crate::accessor::readable(t, s[0] as int)
}

/// The first node of the list exists and comes after `n`.
pub open spec fn first_below(t: &SyntaxTree, n: int, s: Seq<usize>) -> bool {
    s.len() > 0 && n < s[0] < t.nodes@.len()
}

/// An `annotation_key_value` node with a readable key and value.
pub open spec fn key_value_ok(t: &SyntaxTree, n: int) -> bool {
    &&& t.nodes@[n].kind@ == "annotation_key_value"@
    &&& readable_first(t, crate::accessor::field_children(t, n, "key"@))
    &&& readable_first(t, crate::accessor::field_children(t, n, "value"@))
}

/// The arguments of an annotation: none, a readable value, or key-value
/// pairs that each can be read.
pub open spec fn annotation_args_ok(t: &SyntaxTree, n: int) -> bool {
    let kvs = crate::accessor::kind_children(t, n, "annotation_key_value"@);
    ||| crate::accessor::code_children(t, n).len() == 0
    ||| (kvs.len() == 0 && readable_first(t, crate::accessor::field_children(t, n, "value"@)))
    ||| (kvs.len() > 0 && forall|j: int| 0 <= j < kvs.len() ==> key_value_ok(t, #[trigger] kvs[j] as int))
}

/// An annotation whose arguments, where it has any, and name can be read.
pub open spec fn annotation_ok(t: &SyntaxTree, n: int) -> bool {
    let args = crate::accessor::field_children(t, n, "arguments"@);
    &&& t.nodes@[n].kind@ == "annotation"@
    &&& args.len() > 0 ==> annotation_args_ok(t, args[0] as int)
    &&& readable_first(t, crate::accessor::field_children(t, n, "name"@))
}

/// Every `annotation` child of `n` can be read.
pub open spec fn annotations_ok(t: &SyntaxTree, n: int) -> bool {
    let a = crate::accessor::kind_children(t, n, "annotation"@);
    forall|j: int| 0 <= j < a.len() ==> annotation_ok(t, #[trigger] a[j] as int)
}

/// A scoped type name that can be read: its scope, its annotations and its
/// last name.
pub open spec fn scoped_type_ok(t: &SyntaxTree, n: int) -> bool
    decreases t.nodes@.len() - n, 1int,
{
    let cs = crate::accessor::code_children(t, n);
    let ids = crate::accessor::kind_children(t, n, "type_identifier"@);
    &&& t.nodes@[n].kind@ == "scoped_type_identifier"@
    &&& first_below(t, n, cs)
    &&& if t.nodes@[cs[0] as int].kind@ == "type_identifier"@ {
        crate::accessor::readable(t, cs[0] as int)
    } else if t.nodes@[cs[0] as int].kind@ == "scoped_type_identifier"@ {
        scoped_type_ok(t, cs[0] as int)
    } else if t.nodes@[cs[0] as int].kind@ == "generic_type"@ {
        generic_type_ok(t, cs[0] as int)
    } else {
        false
    }
    &&& annotations_ok(t, n)
    &&& ids.len() > 0
    &&& crate::accessor::readable(t, ids[ids.len() - 1] as int)
}

/// A generic type that can be read: its name and its type arguments.
pub open spec fn generic_type_ok(t: &SyntaxTree, n: int) -> bool
    decreases t.nodes@.len() - n, 1int,
{
    let ti = crate::accessor::kind_children(t, n, "type_identifier"@);
    let sc = crate::accessor::kind_children(t, n, "scoped_type_identifier"@);
    let ta = crate::accessor::kind_children(t, n, "type_arguments"@);
    &&& t.nodes@[n].kind@ == "generic_type"@
    &&& if ti.len() > 0 {
        crate::accessor::readable(t, ti[0] as int)
    } else {
        first_below(t, n, sc) && scoped_type_ok(t, sc[0] as int)
    }
    &&& first_below(t, n, ta)
    &&& type_arguments_ok(t, ta[0] as int)
}

/// Every code child of `n` is a type that can be read.
pub open spec fn type_arguments_ok(t: &SyntaxTree, n: int) -> bool
    decreases t.nodes@.len() - n, 1int,
{
    let cs = crate::accessor::code_children(t, n);
    forall|j: int| 0 <= j < cs.len() ==> n < #[trigger] cs[j] < t.nodes@.len() && type_ok(t, cs[j] as int)
}

/// A type that can be read.
pub open spec fn type_ok(t: &SyntaxTree, n: int) -> bool
    decreases t.nodes@.len() - n, 4int,
{
    unannotated_type_ok(t, n)
}

/// A type without annotations that can be read: a simple type or an array
/// type.
pub open spec fn unannotated_type_ok(t: &SyntaxTree, n: int) -> bool
    decreases t.nodes@.len() - n, 3int,
{
    if crate::enum_def::is_simple_type_kind(t.nodes@[n].kind@) {
        simple_type_ok(t, n)
    } else if t.nodes@[n].kind@ == "array_type"@ {
        array_type_ok(t, n)
    } else {
        false
    }
}

/// A simple type that can be read, by its kind.
pub open spec fn simple_type_ok(t: &SyntaxTree, n: int) -> bool
    decreases t.nodes@.len() - n, 2int,
{
    let k = t.nodes@[n].kind@;
    if k == "type_identifier"@ || k == "void_type"@ {
        crate::accessor::readable(t, n)
    } else if k == "boolean_type"@ {
        true
    } else if k == "java_type"@ {
        java_type_ok(t, n)
    } else if k == "generic_type"@ {
        generic_type_ok(t, n)
    } else if k == "scoped_type_identifier"@ {
        scoped_type_ok(t, n)
    } else {
        false
    }
}

/// A Java type: a scoped type name that can be read.
pub open spec fn java_type_ok(t: &SyntaxTree, n: int) -> bool
    decreases t.nodes@.len() - n, 1int,
{
    let s = crate::accessor::kind_children(t, n, "scoped_type_identifier"@);
    first_below(t, n, s) && scoped_type_ok(t, s[0] as int)
}

/// An array type: an element type that can be read, and dimensions.
pub open spec fn array_type_ok(t: &SyntaxTree, n: int) -> bool
    decreases t.nodes@.len() - n, 1int,
{
    let e = crate::accessor::field_children(t, n, "element"@);
    let d = crate::accessor::field_children(t, n, "dimensions"@);
    &&& t.nodes@[n].kind@ == "array_type"@
    &&& first_below(t, n, e)
    &&& unannotated_type_ok(t, e[0] as int)
    &&& d.len() > 0
    &&& t.nodes@[d[0] as int].kind@ == "dimensions"@
}

// ---------------------------------------------------------------------------
// Types.
// ---------------------------------------------------------------------------
/// The argument types between `<` and `>`, each two apart by a single
/// space, all on one line as written.
pub open spec fn type_arguments_layout<'a>(body: Seq<DocRef<'a>>, s: TypeArguments) -> bool {
    &&& body.len() == 1
    &&& *body[0] is Concat
    &&& ({
        let p = concat_parts(*body[0]);
        &&& p.len() == 3
        &&& is_text(*p[0], "<"@)
        &&& is_text(*p[2], ">"@)
        &&& *p[1] is Concat
        &&& exists|elems: Seq<DocRef<'a>>, sep: Seq<DocRef<'a>>|
            #![trigger interspersed(elems, sep)]
            elems.len() == s.types@.len() && sep.len() == 1 && is_text(*sep[0], " "@)
                && concat_parts(*p[1]) == interspersed(elems, sep)
    })
}

/// `<T, U>` after a generic type's name.
pub struct TypeArguments {
    pub types: Vec<Type>,
    pub node_context: NodeContext,
}

impl TypeArguments {
    pub fn new(t: &SyntaxTree, n: usize) -> (r: Result<Self, String>)
        requires
            t.wf(),
            t.valid(n as int),
        ensures
            r is Ok <==> type_arguments_ok(t, n as int),
            r matches Ok(v) ==> v.node_context.id == n && v.types@.len() == crate::accessor::code_children(t, n as int).len(),
        decreases t.nodes@.len() - n, 1int,
    {
        let cs = children_vec(t, n);
        let mut types: Vec<Type> = Vec::new();
        let mut i: usize = 0;
        while i < cs.len()
            invariant
                t.wf(),
                t.valid(n as int),
                i <= cs@.len(),
                types@.len() == i,
                cs@ == crate::accessor::code_children(t, n as int),
                forall|j: int| 0 <= j < cs@.len() ==> n < #[trigger] cs@[j] < t.nodes@.len(),
                forall|j: int| 0 <= j < i ==> crate::data_model::type_ok(t, #[trigger] cs@[j] as int),
            decreases cs@.len() - i,
        {
            let ty = match Type::new(t, cs[i]) {
                Ok(ty) => ty,
                Err(e) => {
                    assert(!type_ok(t, cs@[i as int] as int));
                    return Err(e);
                },
            };
            types.push(ty);
            i = i + 1;
        }
        Ok(TypeArguments { types, node_context: NodeContext::with_punctuation(t, n) })
    }

    pub fn build<'a>(&self, b: &'a DocBuilder<'a>, cm: &CommentMap, st: &mut BuildState) -> (r: DocRef<'a>)
        ensures
            final(st).printed@.len() == old(st).printed@.len(),
            exists|body: Seq<DocRef<'a>>| #[trigger] wraps(*r, body) && type_arguments_layout(body, *self),
        decreases self,
    {
        let ghost len0 = st.printed@.len();
        let mut docs: Vec<DocRef<'a>> = Vec::new();
        let mut i: usize = 0;
        while i < self.types.len()
            invariant
                st.printed@.len() == len0,
                i <= self.types@.len(),
                docs@.len() == i,
            decreases self.types@.len() - i,
        {
            let d = self.types[i].build(b, cm, st);
            docs.push(d);
            i = i + 1;
        }
        let sep = b.insertable(None, Some(" "), None);
        let open = b.insertable(None, Some("<"), None);
        let close = b.insertable(None, Some(">"), None);
        let d = b.surround(docs.as_slice(), &sep, &open, &close);
        let mut body: Vec<DocRef<'a>> = Vec::new();
        body.push(d);
        let ghost body_v = body@;
        proof {
            let p = concat_parts(*d);
            assert(insertable_parts(open) =~= seq![open.text->0]);
            assert(insertable_parts(close) =~= seq![close.text->0]);
            assert(insertable_parts(sep) =~= seq![sep.text->0]);
            assert(p[0] == open.text->0);
            assert(p[2] == close.text->0);
            assert(interspersed(docs@, insertable_parts(sep)) == concat_parts(*p[1]));
            assert(type_arguments_layout(body_v, *self));
        }
        let r = with_comments_and_punc(b, cm, st, &self.node_context, body);
        assert(wraps(*r, body_v));
        r
    }
}

/// What a generic type is named by.
pub enum GenericIdentifier {
    Type(String),
    Scoped(ScopedTypeIdentifier),
}

/// The name, then the type arguments.
pub open spec fn generic_type_layout<'a>(body: Seq<DocRef<'a>>, s: GenericType) -> bool {
    &&& body.len() == 2
    &&& (s.generic_identifier matches GenericIdentifier::Type(name) ==> is_text(*body[0], name@))
    &&& (s.generic_identifier matches GenericIdentifier::Scoped(sc) ==> exists|b0: Seq<DocRef<'a>>|
        #[trigger] wraps(*body[0], b0) && scoped_type_layout(b0, sc))
    &&& exists|b1: Seq<DocRef<'a>>| #[trigger] wraps(*body[1], b1) && type_arguments_layout(b1, s.type_arguments)
}

/// `List<String>`
pub struct GenericType {
    pub generic_identifier: GenericIdentifier,
    pub type_arguments: TypeArguments,
    pub node_context: NodeContext,
}

impl GenericType {
    pub fn new(t: &SyntaxTree, n: usize) -> (r: Result<Self, String>)
        requires
            t.wf(),
            t.valid(n as int),
        ensures
            r is Ok <==> generic_type_ok(t, n as int),
            r matches Ok(v) ==> v.node_context.id == n && t.nodes@[n as int].kind@ == "generic_type"@,
        decreases t.nodes@.len() - n, 1int,
    {
        assert_check(t, n, "generic_type")?;
        let generic_identifier = match try_c_by_k(t, n, "type_identifier") {
            Some(c) => GenericIdentifier::Type(value(t, c)?),
            None => match try_c_by_k(t, n, "scoped_type_identifier") {
                Some(c) => GenericIdentifier::Scoped(ScopedTypeIdentifier::new(t, c)?),
                None => {
                    return Err(owned("## can't build generic_identifier node in GenericType"));
                },
            },
        };
        let a = c_by_k(t, n, "type_arguments")?;
        let type_arguments = TypeArguments::new(t, a)?;
        Ok(GenericType { generic_identifier, type_arguments, node_context: NodeContext::with_punctuation(t, n) })
    }

    pub fn build<'a>(&self, b: &'a DocBuilder<'a>, cm: &CommentMap, st: &mut BuildState) -> (r: DocRef<'a>)
        ensures
            final(st).printed@.len() == old(st).printed@.len(),
            exists|body: Seq<DocRef<'a>>| #[trigger] wraps(*r, body) && generic_type_layout(body, *self),
        decreases self,
    {
        let id = match &self.generic_identifier {
            GenericIdentifier::Type(s) => b.txt(s.as_str()),
            GenericIdentifier::Scoped(s) => s.build(b, cm, st),
        };
        assert(self.generic_identifier matches GenericIdentifier::Type(name) ==> is_text(*id, name@));
        assert(self.generic_identifier matches GenericIdentifier::Scoped(sc) ==> exists|b0: Seq<DocRef<'a>>|
            #[trigger] wraps(*id, b0) && scoped_type_layout(b0, sc));
        let args = self.type_arguments.build(b, cm, st);
        assert(exists|b1: Seq<DocRef<'a>>| #[trigger] wraps(*args, b1) && type_arguments_layout(b1, self.type_arguments));
        let mut body: Vec<DocRef<'a>> = Vec::new();
        body.push(id);
        body.push(args);
        let ghost body_v = body@;
        assert(body_v[0] == id && body_v[1] == args);
        assert(generic_type_layout(body_v, *self));
        let r = with_comments_and_punc(b, cm, st, &self.node_context, body);
        assert(wraps(*r, body_v));
        r
    }
}

/// What a scoped type name is prefixed by.
pub enum ScopedChoice {
    TypeIdentifier(String),
    Scoped(Box<ScopedTypeIdentifier>),
    Generic(Box<GenericType>),
}

/// The scope, `.`, the annotations and a space where there are any, the
/// name.
pub open spec fn scoped_type_layout<'a>(body: Seq<DocRef<'a>>, s: ScopedTypeIdentifier) -> bool {
    &&& body.len() == if s.annotations@.len() > 0 { 5int } else { 3int }
    &&& is_text(*body[1], "."@)
    &&& s.annotations@.len() > 0 ==> is_text(*body[3], seq![' '])
    &&& is_text(*body[body.len() - 1], s.type_identifier@)
}

/// `Outer.Inner`
pub struct ScopedTypeIdentifier {
    pub scoped_choice: ScopedChoice,
    pub annotations: Vec<Annotation>,
    pub type_identifier: String,
    pub node_context: NodeContext,
}

impl ScopedTypeIdentifier {
    pub fn new(t: &SyntaxTree, n: usize) -> (r: Result<Self, String>)
        requires
            t.wf(),
            t.valid(n as int),
        ensures
            r is Ok <==> scoped_type_ok(t, n as int),
            r matches Ok(v) ==> v.node_context.id == n && t.nodes@[n as int].kind@ == "scoped_type_identifier"@,
        decreases t.nodes@.len() - n, 1int,
    {
        assert_check(t, n, "scoped_type_identifier")?;
        let p = first_c(t, n)?;
        let scoped_choice = if kind_is(t, p, "type_identifier") {
            ScopedChoice::TypeIdentifier(value(t, p)?)
        } else if kind_is(t, p, "scoped_type_identifier") {
            ScopedChoice::Scoped(Box::new(ScopedTypeIdentifier::new(t, p)?))
        } else if kind_is(t, p, "generic_type") {
            ScopedChoice::Generic(Box::new(GenericType::new(t, p)?))
        } else {
            return Err(panic_unknown_node(t, p, "ScopedTypeIdentifier"));
        };
        let annotations = annotations_of(t, n)?;
        let ids = cs_by_k(t, n, "type_identifier")?;
        let last = ids[ids.len() - 1];
        let type_identifier = value(t, last)?;
        Ok(ScopedTypeIdentifier {
            scoped_choice,
            annotations,
            type_identifier,
            node_context: NodeContext::with_punctuation(t, n),
        })
    }

    pub fn build<'a>(&self, b: &'a DocBuilder<'a>, cm: &CommentMap, st: &mut BuildState) -> (r: DocRef<'a>)
        ensures
            final(st).printed@.len() == old(st).printed@.len(),
            exists|body: Seq<DocRef<'a>>| #[trigger] wraps(*r, body) && scoped_type_layout(body, *self),
        decreases self,
    {
        proof {
            reveal_strlit(" ");
            assert(" "@ =~= seq![' ']);
        }
        let mut body: Vec<DocRef<'a>> = Vec::new();
        let prefix = match &self.scoped_choice {
            ScopedChoice::TypeIdentifier(s) => b.txt(s.as_str()),
            ScopedChoice::Scoped(s) => s.build(b, cm, st),
            ScopedChoice::Generic(g) => g.build(b, cm, st),
        };
        body.push(prefix);
        let dot = b.txt(".");
        body.push(dot);
        if self.annotations.len() > 0 {
            let docs = build_annotations(&self.annotations, b, cm, st);
            let j = join(b, docs.as_slice(), " ");
            body.push(j);
            let s = b.txt(" ");
            body.push(s);
        }
        let id = b.txt(self.type_identifier.as_str());
        body.push(id);
        let ghost body_v = body@;
        assert(scoped_type_layout(body_v, *self));
        let r = with_comments_and_punc(b, cm, st, &self.node_context, body);
        assert(wraps(*r, body_v));
        r
    }
}

/// `[]`
pub struct Dimensions {
    pub node_context: NodeContext,
}

impl Dimensions {
    pub fn new(t: &SyntaxTree, n: usize) -> (r: Result<Self, String>)
        requires
            t.wf(),
            t.valid(n as int),
        ensures
            r is Ok <==> t.nodes@[n as int].kind@ == "dimensions"@,
            r matches Ok(v) ==> v.node_context.id == n,
    {
        let k = keyword(t, n, "dimensions")?;
        Ok(Dimensions { node_context: k.node_context })
    }

    pub fn build<'a>(&self, b: &'a DocBuilder<'a>, cm: &CommentMap, st: &mut BuildState) -> (r: DocRef<'a>)
        ensures
            final(st).printed@.len() == old(st).printed@.len(),
            wraps_text(*r, "[]"@),
    {
        build_word(b, cm, st, &self.node_context, "[]")
    }
}

/// The element type, then `[]`.
pub open spec fn array_type_layout<'a>(body: Seq<DocRef<'a>>) -> bool {
    body.len() == 2 && wraps_text(*body[1], "[]"@)
}

/// `String[]`
pub struct ArrayType {
    pub element: UnannotatedType,
    pub dimensions: Dimensions,
    pub node_context: NodeContext,
}

impl ArrayType {
    pub fn new(t: &SyntaxTree, n: usize) -> (r: Result<Self, String>)
        requires
            t.wf(),
            t.valid(n as int),
        ensures
            r is Ok <==> array_type_ok(t, n as int),
            r matches Ok(v) ==> v.node_context.id == n && t.nodes@[n as int].kind@ == "array_type"@,
        decreases t.nodes@.len() - n, 1int,
    {
        assert_check(t, n, "array_type")?;
        let e = c_by_n(t, n, "element")?;
        let element = UnannotatedType::new(t, e)?;
        let d = c_by_n(t, n, "dimensions")?;
        let dimensions = Dimensions::new(t, d)?;
        Ok(ArrayType { element, dimensions, node_context: NodeContext::with_punctuation(t, n) })
    }

    pub fn build<'a>(&self, b: &'a DocBuilder<'a>, cm: &CommentMap, st: &mut BuildState) -> (r: DocRef<'a>)
        ensures
            final(st).printed@.len() == old(st).printed@.len(),
            exists|body: Seq<DocRef<'a>>| #[trigger] wraps(*r, body) && array_type_layout(body),
        decreases self,
    {
        let e = self.element.build(b, cm, st);
        let d = self.dimensions.build(b, cm, st);
        let mut body: Vec<DocRef<'a>> = Vec::new();
        body.push(e);
        body.push(d);
        let ghost body_v = body@;
        assert(body_v[1] == d);
        assert(array_type_layout(body_v));
        let r = with_comments_and_punc(b, cm, st, &self.node_context, body);
        assert(wraps(*r, body_v));
        r
    }
}

/// `java:` and the type.
pub open spec fn java_type_layout<'a>(body: Seq<DocRef<'a>>) -> bool {
    body.len() == 2 && is_text(*body[0], "java:"@)
}

/// `java:System.Math`
pub struct JavaType {
    pub scoped_type_identifier: ScopedTypeIdentifier,
    pub node_context: NodeContext,
}

impl JavaType {
    pub fn new(t: &SyntaxTree, n: usize) -> (r: Result<Self, String>)
        requires
            t.wf(),
            t.valid(n as int),
        ensures
            r is Ok <==> java_type_ok(t, n as int),
            r matches Ok(v) ==> v.node_context.id == n,
        decreases t.nodes@.len() - n, 1int,
    {
        let c = c_by_k(t, n, "scoped_type_identifier")?;
        let scoped_type_identifier = ScopedTypeIdentifier::new(t, c)?;
        Ok(JavaType { scoped_type_identifier, node_context: NodeContext::with_punctuation(t, n) })
    }

    pub fn build<'a>(&self, b: &'a DocBuilder<'a>, cm: &CommentMap, st: &mut BuildState) -> (r: DocRef<'a>)
        ensures
            final(st).printed@.len() == old(st).printed@.len(),
            exists|body: Seq<DocRef<'a>>| #[trigger] wraps(*r, body) && java_type_layout(body),
        decreases self,
    {
        let j = b.txt("java:");
        let s = self.scoped_type_identifier.build(b, cm, st);
        let mut body: Vec<DocRef<'a>> = Vec::new();
        body.push(j);
        body.push(s);
        let ghost body_v = body@;
        assert(java_type_layout(body_v));
        let r = with_comments_and_punc(b, cm, st, &self.node_context, body);
        assert(wraps(*r, body_v));
        r
    }
}

// ---------------------------------------------------------------------------
// Annotations and modifiers.
// ---------------------------------------------------------------------------
/// The canonical spelling of an annotation that Apex knows, by the lower-case
/// form of its name.
pub open spec fn canonical_annotation(lower: Seq<char>) -> Option<Seq<char>> {
    if lower == "istest"@ {
        Some("IsTest"@)
    } else if lower == "testsetup"@ {
        Some("TestSetup"@)
    } else if lower == "testvisible"@ {
        Some("TestVisible"@)
    } else if lower == "auraenabled"@ {
        Some("AuraEnabled"@)
    } else if lower == "future"@ {
        Some("Future"@)
    } else if lower == "invocablemethod"@ {
        Some("InvocableMethod"@)
    } else if lower == "invocablevariable"@ {
        Some("InvocableVariable"@)
    } else if lower == "httpget"@ {
        Some("HttpGet"@)
    } else if lower == "httppost"@ {
        Some("HttpPost"@)
    } else if lower == "httpput"@ {
        Some("HttpPut"@)
    } else if lower == "httppatch"@ {
        Some("HttpPatch"@)
    } else if lower == "httpdelete"@ {
        Some("HttpDelete"@)
    } else if lower == "restresource"@ {
        Some("RestResource"@)
    } else if lower == "readonly"@ {
        Some("ReadOnly"@)
    } else if lower == "remoteaction"@ {
        Some("RemoteAction"@)
    } else if lower == "deprecated"@ {
        Some("Deprecated"@)
    } else if lower == "suppresswarnings"@ {
        Some("SuppressWarnings"@)
    } else if lower == "namespaceaccessible"@ {
        Some("NamespaceAccessible"@)
    } else if lower == "jsonaccess"@ {
        Some("JsonAccess"@)
    } else {
        None
    }
}

/// The canonical spelling of a known annotation name, whatever its case.
pub fn canonical_annotation_name(name: &str) -> (r: Option<&'static str>)
    ensures
        r is None <==> canonical_annotation(lowercase(name@)) is None,
        r matches Some(c) ==> canonical_annotation(lowercase(name@)) == Some(c@),
{
    let l = to_lowercase(name);
    canonical_annotation_of_lowercase(l.as_str())
}

/// The canonical spelling of an annotation name already in lower case, for
/// the names that have one.
pub fn canonical_annotation_of_lowercase(s: &str) -> (r: Option<&'static str>)
    ensures
        r is None <==> canonical_annotation(s@) is None,
        r matches Some(c) ==> canonical_annotation(s@) == Some(c@),
{
    if str_eq(s, "istest") {
        Some("IsTest")
    } else if str_eq(s, "testsetup") {
        Some("TestSetup")
    } else if str_eq(s, "testvisible") {
        Some("TestVisible")
    } else if str_eq(s, "auraenabled") {
        Some("AuraEnabled")
    } else if str_eq(s, "future") {
        Some("Future")
    } else if str_eq(s, "invocablemethod") {
        Some("InvocableMethod")
    } else if str_eq(s, "invocablevariable") {
        Some("InvocableVariable")
    } else if str_eq(s, "httpget") {
        Some("HttpGet")
    } else if str_eq(s, "httppost") {
        Some("HttpPost")
    } else if str_eq(s, "httpput") {
        Some("HttpPut")
    } else if str_eq(s, "httppatch") {
        Some("HttpPatch")
    } else if str_eq(s, "httpdelete") {
        Some("HttpDelete")
    } else if str_eq(s, "restresource") {
        Some("RestResource")
    } else if str_eq(s, "readonly") {
        Some("ReadOnly")
    } else if str_eq(s, "remoteaction") {
        Some("RemoteAction")
    } else if str_eq(s, "deprecated") {
        Some("Deprecated")
    } else if str_eq(s, "suppresswarnings") {
        Some("SuppressWarnings")
    } else if str_eq(s, "namespaceaccessible") {
        Some("NamespaceAccessible")
    } else if str_eq(s, "jsonaccess") {
        Some("JsonAccess")
    } else {
        None
    }
}

/// The key, `=`, the value.
pub open spec fn key_value_layout<'a>(body: Seq<DocRef<'a>>) -> bool {
    body.len() == 3 && is_text(*body[1], "="@)
}

/// `SeeAllData=true` in an annotation's arguments.
pub struct AnnotationKeyValue {
    pub key: ValueNode,
    pub value: ValueNode,
    pub node_context: NodeContext,
}

impl AnnotationKeyValue {
    pub fn new(t: &SyntaxTree, n: usize) -> (r: Result<Self, String>)
        requires
            t.wf(),
            t.valid(n as int),
        ensures
            r is Ok <==> t.nodes@[n as int].kind@ == "annotation_key_value"@ && crate::accessor::field_children(t, n as int, "key"@).len() > 0 && crate::accessor::readable(t, crate::accessor::field_children(t, n as int, "key"@)[0] as int) && crate::accessor::field_children(t, n as int, "value"@).len() > 0 && crate::accessor::readable(t, crate::accessor::field_children(t, n as int, "value"@)[0] as int),
            r matches Ok(v) ==> crate::strs::bytes_of(v.key.value@) == crate::accessor::node_bytes(t, crate::accessor::field_children(t, n as int, "key"@)[0] as int) && crate::strs::bytes_of(v.value.value@) == crate::accessor::node_bytes(t, crate::accessor::field_children(t, n as int, "value"@)[0] as int),
            r matches Ok(v) ==> v.node_context.id == n && t.nodes@[n as int].kind@ == "annotation_key_value"@,
    {
        assert_check(t, n, "annotation_key_value")?;
        let k = c_by_n(t, n, "key")?;
        let key = ValueNode::new(t, k)?;
        let v = c_by_n(t, n, "value")?;
        let value = ValueNode::new(t, v)?;
        Ok(AnnotationKeyValue { key, value, node_context: NodeContext::with_punctuation(t, n) })
    }

    pub fn build<'a>(&self, b: &'a DocBuilder<'a>, cm: &CommentMap, st: &mut BuildState) -> (r: DocRef<'a>)
        ensures
            final(st).printed@.len() == old(st).printed@.len(),
            exists|body: Seq<DocRef<'a>>| #[trigger] wraps(*r, body) && key_value_layout(body),
    {
        let k = self.key.build(b, cm, st);
        let e = b.txt("=");
        let v = self.value.build(b, cm, st);
        let mut body: Vec<DocRef<'a>> = Vec::new();
        body.push(k);
        body.push(e);
        body.push(v);
        let ghost body_v = body@;
        assert(key_value_layout(body_v));
        let r = with_comments_and_punc(b, cm, st, &self.node_context, body);
        assert(wraps(*r, body_v));
        r
    }
}

/// Nothing without arguments; one value between `(` and `)`; key-value
/// pairs between `(` and `)`, on one line when that fits.
pub open spec fn annotation_arguments_layout<'a>(d: Doc<'a>, a: AnnotationArgumentList, indent: u32) -> bool {
    match a {
        AnnotationArgumentList::Nil => is_text(d, Seq::empty()),
        AnnotationArgumentList::Value(_) => {
            &&& d is Concat
            &&& concat_parts(d).len() == 3
            &&& is_text(*concat_parts(d)[0], "("@)
            &&& is_text(*concat_parts(d)[2], ")"@)
        },
        AnnotationArgumentList::KeyValues(kvs) => if kvs@.len() == 0 {
            is_text(d, Seq::empty())
        } else {
            is_surrounded(d, kvs@.len(), "("@, ")"@, false, indent)
        },
    }
}

/// The arguments of an annotation: none, one value, or key-value pairs.
pub enum AnnotationArgumentList {
    Nil,
    Value(ValueNode),
    KeyValues(Vec<AnnotationKeyValue>),
}

impl AnnotationArgumentList {
    pub fn new(t: &SyntaxTree, n: usize) -> (r: Result<Self, String>)
        requires
            t.wf(),
            t.valid(n as int),
        ensures
            r is Ok <==> annotation_args_ok(t, n as int),
            r matches Ok(a) ==> (a is Nil <==> crate::accessor::code_children(t, n as int).len() == 0),
            r matches Ok(a) ==> (a is KeyValues <==> crate::accessor::code_children(t, n as int).len() > 0
                && crate::accessor::kind_children(t, n as int, "annotation_key_value"@).len() > 0),
            r matches Ok(AnnotationArgumentList::KeyValues(v)) ==> v@.len()
                == crate::accessor::kind_children(t, n as int, "annotation_key_value"@).len(),
    {
        let cs = children_vec(t, n);
        if cs.len() == 0 {
            return Ok(AnnotationArgumentList::Nil);
        }
        let kvs = try_cs_by_k(t, n, "annotation_key_value");
        if kvs.len() == 0 {
            let v = match c_by_n(t, n, "value") {
                Ok(v) => v,
                Err(e) => {
                    return Err(e);
                },
            };
            return match ValueNode::new(t, v) {
                Ok(x) => Ok(AnnotationArgumentList::Value(x)),
                Err(e) => Err(e),
            };
        }
        let mut key_values: Vec<AnnotationKeyValue> = Vec::new();
        let mut i: usize = 0;
        while i < kvs.len()
            invariant
                t.wf(),
                t.valid(n as int),
                i <= kvs@.len(),
                key_values@.len() == i,
                kvs@ == crate::accessor::kind_children(t, n as int, "annotation_key_value"@),
                crate::accessor::code_children(t, n as int).len() > 0,
                forall|j: int| 0 <= j < kvs@.len() ==> n < #[trigger] kvs@[j] < t.nodes@.len(),
                forall|j: int| 0 <= j < i ==> key_value_ok(t, #[trigger] kvs@[j] as int),
            decreases kvs@.len() - i,
        {
            let kv = match AnnotationKeyValue::new(t, kvs[i]) {
                Ok(kv) => kv,
                Err(e) => {
                    assert(!key_value_ok(t, kvs@[i as int] as int));
                    return Err(e);
                },
            };
            key_values.push(kv);
            i = i + 1;
        }
        Ok(AnnotationArgumentList::KeyValues(key_values))
    }

    pub fn build<'a>(&self, b: &'a DocBuilder<'a>, cm: &CommentMap, st: &mut BuildState) -> (r: DocRef<'a>)
        ensures
            final(st).printed@.len() == old(st).printed@.len(),
            annotation_arguments_layout(*r, *self, b.config.indent_size),
    {
        match self {
            AnnotationArgumentList::Nil => b.nil(),
            AnnotationArgumentList::Value(v) => {
                let o = b.txt("(");
                let d = v.build(b, cm, st);
                let c = b.txt(")");
                let mut parts: Vec<DocRef<'a>> = Vec::new();
                parts.push(o);
                parts.push(d);
                parts.push(c);
                assert(parts@[0] == o && parts@[2] == c);
                b.concat(parts)
            },
            AnnotationArgumentList::KeyValues(kvs) => {
                if kvs.len() == 0 {
                    return b.nil();
                }
                let ghost len0 = st.printed@.len();
                let mut docs: Vec<DocRef<'a>> = Vec::new();
                let mut i: usize = 0;
                while i < kvs.len()
                    invariant
                        st.printed@.len() == len0,
                        i <= kvs@.len(),
                        docs@.len() == i,
                    decreases kvs@.len() - i,
                {
                    let d = kvs[i].build(b, cm, st);
                    docs.push(d);
                    i = i + 1;
                }
                surround_group(b, docs.as_slice(), "(", ")", false)
            },
        }
    }
}

/// The name an annotation is written with: its canonical spelling when
/// casing is normalized and the name is a known one, else as in the source.
pub open spec fn annotation_name_text(normalize: bool, name: Seq<char>) -> Seq<char> {
    if normalize && canonical_annotation(lowercase(name)) is Some {
        canonical_annotation(lowercase(name))->0
    } else {
        name
    }
}

/// `d` starts with `@` and the name, with its comments, at the head.
pub open spec fn is_at_name<'a>(d: Doc<'a>, name: Seq<char>) -> bool {
    let p = concat_parts(d);
    d is Concat && p.len() >= 2 && is_text(*p[0], "@"@) && wraps_text(*p[1], name)
}

/// The document of an annotation written with `name`: the `@`, the name and
/// its arguments with their comments, then a line break.
pub open spec fn annotation_with_name<'a>(d: Doc<'a>, name: Seq<char>) -> bool {
    let p = concat_parts(d);
    &&& d is Concat && p.len() == 2 && *p[1] == Doc::Newline
    &&& *p[0] is Concat
    &&& exists|k: int| 0 <= k < concat_parts(*p[0]).len() && #[trigger] is_at_name(*concat_parts(*p[0])[k], name)
}

/// `@IsTest(SeeAllData=true)`, on a line of its own.
pub struct Annotation {
    pub name: ValueNode,
    pub arguments: Option<AnnotationArgumentList>,
    pub node_context: NodeContext,
}

impl Annotation {
    pub fn new(t: &SyntaxTree, n: usize) -> (r: Result<Self, String>)
        requires
            t.wf(),
            t.valid(n as int),
        ensures
            r is Ok <==> annotation_ok(t, n as int),
            r matches Ok(v) ==> v.node_context.id == n && t.nodes@[n as int].kind@ == "annotation"@,
            r matches Ok(v) ==> crate::strs::bytes_of(v.name.value@) == crate::accessor::node_bytes(
                t,
                crate::accessor::field_children(t, n as int, "name"@)[0] as int,
            ),
            r matches Ok(v) ==> (v.arguments is Some <==> crate::accessor::field_children(t, n as int, "arguments"@).len() > 0),
    {
        assert_check(t, n, "annotation")?;
        let arguments = match try_c_by_n(t, n, "arguments") {
            Some(a) => match AnnotationArgumentList::new(t, a) {
                Ok(x) => Some(x),
                Err(e) => {
                    return Err(e);
                },
            },
            None => None,
        };
        let m = match c_by_n(t, n, "name") {
            Ok(m) => m,
            Err(e) => {
                return Err(e);
            },
        };
        let name = match ValueNode::new(t, m) {
            Ok(x) => x,
            Err(e) => {
                return Err(e);
            },
        };
        Ok(Annotation { name, arguments, node_context: NodeContext::with_punctuation(t, n) })
    }

    /// The name as written, or in its canonical spelling when casing is
    /// normalized and the name is one Apex knows.
    pub fn build<'a>(&self, b: &'a DocBuilder<'a>, cm: &CommentMap, st: &mut BuildState) -> (r: DocRef<'a>)
        ensures
            final(st).printed@.len() == old(st).printed@.len(),
            annotation_with_name(*r, annotation_name_text(b.config.normalize_annotation_casing, self.name.value@)),
    {
        let ghost name = annotation_name_text(b.config.normalize_annotation_casing, self.name.value@);
        let at = b.txt("@");
        let name_doc = if b.config.normalize_annotation_casing {
            match canonical_annotation_name(self.name.value.as_str()) {
                Some(c) => {
                    let mut body: Vec<DocRef<'a>> = Vec::new();
                    let d = b.txt(c);
                    body.push(d);
                    assert(body@ =~= seq![d]);
                    let w = with_comments_and_punc(b, cm, st, &self.name.node_context, body);
                    proof { lemma_wraps_single(*w, d, c@); }
                    w
                },
                None => self.name.build(b, cm, st),
            }
        } else {
            self.name.build(b, cm, st)
        };
        assert(wraps_text(*name_doc, name));
        let mut body: Vec<DocRef<'a>> = Vec::new();
        body.push(at);
        body.push(name_doc);
        match &self.arguments {
            Some(a) => {
                let d = a.build(b, cm, st);
                body.push(d);
            },
            None => {},
        }
        let ghost body_v = body@;
        assert(body_v[0] == at && body_v[1] == name_doc);
        let d = with_comments_and_punc(b, cm, st, &self.node_context, body);
        proof {
            let k = choose|k: int| 0 <= k < concat_parts(*d).len() && #[trigger] is_concat_of(*concat_parts(*d)[k], body_v);
            assert(is_at_name(*concat_parts(*d)[k], name));
        }
        let nl = b.nl();
        let mut parts: Vec<DocRef<'a>> = Vec::new();
        parts.push(d);
        parts.push(nl);
        b.concat(parts)
    }
}

/// The annotations among the children of a node.
pub fn annotations_of(t: &SyntaxTree, n: usize) -> (r: Result<Vec<Annotation>, String>)
    requires
        t.wf(),
        t.valid(n as int),
    ensures
        r is Ok <==> annotations_ok(t, n as int),
        r matches Ok(v) ==> v@.len() == crate::accessor::kind_children(t, n as int, "annotation"@).len(),
        r matches Ok(v) ==> forall|j: int| 0 <= j < v@.len() ==> (#[trigger] v@[j]).node_context.id
            == crate::accessor::kind_children(t, n as int, "annotation"@)[j],
{
    let cs = try_cs_by_k(t, n, "annotation");
    let mut v: Vec<Annotation> = Vec::new();
    let mut i: usize = 0;
    while i < cs.len()
        invariant
            t.wf(),
            t.valid(n as int),
            i <= cs@.len(),
            v@.len() == i,
            cs@ == crate::accessor::kind_children(t, n as int, "annotation"@),
            forall|j: int| 0 <= j < cs@.len() ==> n < #[trigger] cs@[j] < t.nodes@.len(),
            forall|j: int| 0 <= j < i ==> annotation_ok(t, #[trigger] cs@[j] as int),
            forall|j: int| 0 <= j < i ==> (#[trigger] v@[j]).node_context.id == cs@[j],
        decreases cs@.len() - i,
    {
        let a = match Annotation::new(t, cs[i]) {
            Ok(a) => a,
            Err(e) => {
                assert(!annotation_ok(t, cs@[i as int] as int));
                return Err(e);
            },
        };
        v.push(a);
        i = i + 1;
    }
    Ok(v)
}

/// The documents of a list of annotations.
pub fn build_annotations<'a>(list: &Vec<Annotation>, b: &'a DocBuilder<'a>, cm: &CommentMap, st: &mut BuildState) -> (r: Vec<DocRef<'a>>)
    ensures
        final(st).printed@.len() == old(st).printed@.len(),
        r@.len() == list@.len(),
        forall|i: int|
            0 <= i < r@.len() ==> annotation_with_name(
                *#[trigger] r@[i],
                annotation_name_text(b.config.normalize_annotation_casing, list@[i].name.value@),
            ),
{
    let ghost len0 = st.printed@.len();
    let mut docs: Vec<DocRef<'a>> = Vec::new();
    let mut i: usize = 0;
    while i < list.len()
        invariant
            st.printed@.len() == len0,
            i <= list@.len(),
            docs@.len() == i,
            forall|k: int|
                0 <= k < i ==> annotation_with_name(
                    *#[trigger] docs@[k],
                    annotation_name_text(b.config.normalize_annotation_casing, list@[k].name.value@),
                ),
        decreases list@.len() - i,
    {
        let d = list[i].build(b, cm, st);
        docs.push(d);
        i = i + 1;
    }
    docs
}


/// A modifier word.
pub enum ModifierKind {
    Abstract,
    Final,
    Global,
    InheritedSharing,
    Override,
    Private,
    Protected,
    Public,
    Static,
    TestMethod,
    Transient,
    Virtual,
    Webservice,
    WithSharing,
    WithoutSharing,
}

impl ModifierKind {
    /// How a modifier is written.
    pub open spec fn text(self) -> Seq<char> {
        match self {
            ModifierKind::Abstract => "abstract"@,
            ModifierKind::Final => "final"@,
            ModifierKind::Global => "global"@,
            ModifierKind::InheritedSharing => "inherited sharing"@,
            ModifierKind::Override => "override"@,
            ModifierKind::Private => "private"@,
            ModifierKind::Protected => "protected"@,
            ModifierKind::Public => "public"@,
            ModifierKind::Static => "static"@,
            ModifierKind::TestMethod => "testMethod"@,
            ModifierKind::Transient => "transient"@,
            ModifierKind::Virtual => "virtual"@,
            ModifierKind::Webservice => "webService"@,
            ModifierKind::WithSharing => "with sharing"@,
            ModifierKind::WithoutSharing => "without sharing"@,
        }
    }

    /// The kind of node a modifier is read from.
    pub open spec fn source_kind(self) -> Seq<char> {
        match self {
            ModifierKind::Abstract => "abstract"@,
            ModifierKind::Final => "final"@,
            ModifierKind::Global => "global"@,
            ModifierKind::InheritedSharing => "inherited_sharing"@,
            ModifierKind::Override => "override"@,
            ModifierKind::Private => "private"@,
            ModifierKind::Protected => "protected"@,
            ModifierKind::Public => "public"@,
            ModifierKind::Static => "static"@,
            ModifierKind::TestMethod => "testMethod"@,
            ModifierKind::Transient => "transient"@,
            ModifierKind::Virtual => "virtual"@,
            ModifierKind::Webservice => "webservice"@,
            ModifierKind::WithSharing => "with_sharing"@,
            ModifierKind::WithoutSharing => "without_sharing"@,
        }
    }

    pub fn new(t: &SyntaxTree, n: usize) -> (r: Result<Self, String>)
        requires
            t.valid(n as int),
        ensures
            r is Ok <==> (t.nodes@[n as int].kind@ == "global"@ || t.nodes@[n as int].kind@ == "public"@ || t.nodes@[n as int].kind@ == "with_sharing"@ || t.nodes@[n as int].kind@ == "without_sharing"@ || t.nodes@[n as int].kind@ == "private"@ || t.nodes@[n as int].kind@ == "override"@ || t.nodes@[n as int].kind@ == "static"@ || t.nodes@[n as int].kind@ == "final"@ || t.nodes@[n as int].kind@ == "virtual"@ || t.nodes@[n as int].kind@ == "abstract"@ || t.nodes@[n as int].kind@ == "inherited_sharing"@ || t.nodes@[n as int].kind@ == "protected"@ || t.nodes@[n as int].kind@ == "testMethod"@ || t.nodes@[n as int].kind@ == "transient"@ || t.nodes@[n as int].kind@ == "webservice"@),
            r matches Ok(m) ==> t.nodes@[n as int].kind@ == m.source_kind(),
    {
        if kind_is(t, n, "global") {
            Ok(ModifierKind::Global)
        } else if kind_is(t, n, "public") {
            Ok(ModifierKind::Public)
        } else if kind_is(t, n, "with_sharing") {
            Ok(ModifierKind::WithSharing)
        } else if kind_is(t, n, "without_sharing") {
            Ok(ModifierKind::WithoutSharing)
        } else if kind_is(t, n, "private") {
            Ok(ModifierKind::Private)
        } else if kind_is(t, n, "override") {
            Ok(ModifierKind::Override)
        } else if kind_is(t, n, "static") {
            Ok(ModifierKind::Static)
        } else if kind_is(t, n, "final") {
            Ok(ModifierKind::Final)
        } else if kind_is(t, n, "virtual") {
            Ok(ModifierKind::Virtual)
        } else if kind_is(t, n, "abstract") {
            Ok(ModifierKind::Abstract)
        } else if kind_is(t, n, "inherited_sharing") {
            Ok(ModifierKind::InheritedSharing)
        } else if kind_is(t, n, "protected") {
            Ok(ModifierKind::Protected)
        } else if kind_is(t, n, "testMethod") {
            Ok(ModifierKind::TestMethod)
        } else if kind_is(t, n, "transient") {
            Ok(ModifierKind::Transient)
        } else if kind_is(t, n, "webservice") {
            Ok(ModifierKind::Webservice)
        } else {
            Err(panic_unknown_node(t, n, "Modifier"))
        }
    }

    /// The modifier as its word.
    pub fn build<'a>(&self, b: &'a DocBuilder<'a>) -> (r: DocRef<'a>)
        ensures
            is_text(*r, self.text()),
    {
        match self {
            ModifierKind::Abstract => b.txt("abstract"),
            ModifierKind::Final => b.txt("final"),
            ModifierKind::Global => b.txt("global"),
            ModifierKind::InheritedSharing => b.txt("inherited sharing"),
            ModifierKind::Override => b.txt("override"),
            ModifierKind::Private => b.txt("private"),
            ModifierKind::Protected => b.txt("protected"),
            ModifierKind::Public => b.txt("public"),
            ModifierKind::Static => b.txt("static"),
            ModifierKind::TestMethod => b.txt("testMethod"),
            ModifierKind::Transient => b.txt("transient"),
            ModifierKind::Virtual => b.txt("virtual"),
            ModifierKind::Webservice => b.txt("webService"),
            ModifierKind::WithSharing => b.txt("with sharing"),
            ModifierKind::WithoutSharing => b.txt("without sharing"),
        }
    }
}

/// The kinds of node that name a modifier keyword.
pub open spec fn is_modifier_keyword_kind(k: Seq<char>) -> bool {
    k == "global"@ || k == "public"@ || k == "with_sharing"@ || k == "without_sharing"@ || k == "private"@
        || k == "override"@ || k == "static"@ || k == "final"@ || k == "virtual"@ || k == "abstract"@
        || k == "inherited_sharing"@ || k == "protected"@ || k == "testMethod"@ || k == "transient"@
        || k == "webservice"@
}

/// A `modifier` node whose first code child is a modifier keyword.
pub open spec fn modifier_ok(t: &SyntaxTree, n: int) -> bool {
    let cs = crate::accessor::code_children(t, n);
    &&& t.nodes@[n].kind@ == "modifier"@
    &&& cs.len() > 0
    &&& is_modifier_keyword_kind(t.nodes@[cs[0] as int].kind@)
}

/// A `modifiers` node whose annotations and modifiers can be read.
pub open spec fn modifiers_ok(t: &SyntaxTree, n: int) -> bool {
    let ms = crate::accessor::kind_children(t, n, "modifier"@);
    &&& t.nodes@[n].kind@ == "modifiers"@
    &&& annotations_ok(t, n)
    &&& forall|j: int| 0 <= j < ms.len() ==> modifier_ok(t, #[trigger] ms[j] as int)
}

/// The optional `modifiers` child of `n` can be read where there is one.
pub open spec fn optional_modifiers_ok(t: &SyntaxTree, n: int) -> bool {
    let m = crate::accessor::kind_children(t, n, "modifiers"@);
    m.len() > 0 ==> modifiers_ok(t, m[0] as int)
}

/// One modifier node.
pub struct Modifier {
    pub kind: ModifierKind,
    pub node_context: NodeContext,
}

impl Modifier {
    pub fn new(t: &SyntaxTree, n: usize) -> (r: Result<Self, String>)
        requires
            t.wf(),
            t.valid(n as int),
        ensures
            r matches Ok(v) ==> crate::enum_def::modifier_tied(t, n as int, v),
            r is Ok <==> modifier_ok(t, n as int),
            r matches Ok(v) ==> v.node_context.id == n && t.nodes@[n as int].kind@ == "modifier"@,
    {
        assert_check(t, n, "modifier")?;
        let c = first_c(t, n)?;
        let kind = ModifierKind::new(t, c)?;
        Ok(Modifier { kind, node_context: NodeContext::with_punctuation(t, n) })
    }

    pub fn build<'a>(&self, b: &'a DocBuilder<'a>, cm: &CommentMap, st: &mut BuildState) -> (r: DocRef<'a>)
        ensures
            final(st).printed@.len() == old(st).printed@.len(),
            wraps_text(*r, self.kind.text()),
    {
        let mut body: Vec<DocRef<'a>> = Vec::new();
        let k = self.kind.build(b);
        body.push(k);
        assert(body@ =~= seq![k]);
        let r = with_comments_and_punc(b, cm, st, &self.node_context, body);
        proof { lemma_wraps_single(*r, k, self.kind.text()); }
        r
    }
}

/// The annotations, each with its name as written or normalized, then the
/// modifier words joined by spaces and a trailing space where there are any.
pub open spec fn modifiers_layout<'a>(body: Seq<DocRef<'a>>, s: Modifiers, cfg: PrettyConfig) -> bool {
    let n = s.annotations@.len() as int;
    &&& body.len() == n + if s.modifiers@.len() > 0 { 2int } else { 0int }
    &&& forall|i: int|
        0 <= i < n ==> annotation_with_name(
            *#[trigger] body[i],
            annotation_name_text(cfg.normalize_annotation_casing, s.annotations@[i].name.value@),
        )
    &&& s.modifiers@.len() > 0 ==> is_text(*body[n + 1], seq![' '])
}

/// The annotations and modifiers before a declaration: each annotation on
/// its own line, then the modifiers separated by spaces and followed by one.
pub struct Modifiers {
    pub annotations: Vec<Annotation>,
    pub modifiers: Vec<Modifier>,
    pub node_context: NodeContext,
}

impl Modifiers {
    pub fn new(t: &SyntaxTree, n: usize) -> (r: Result<Self, String>)
        requires
            t.wf(),
            t.valid(n as int),
        ensures
            r matches Ok(v) ==> crate::enum_def::modifiers_tied(t, n as int, v),
            r matches Ok(v) ==> v.node_context.id == n && t.nodes@[n as int].kind@ == "modifiers"@
                && v.modifiers@.len() == crate::accessor::kind_children(t, n as int, "modifier"@).len()
                && v.annotations@.len() == crate::accessor::kind_children(t, n as int, "annotation"@).len(),
            r is Ok <==> modifiers_ok(t, n as int),
    {
        assert_check(t, n, "modifiers")?;
        let annotations = annotations_of(t, n)?;
        let cs = try_cs_by_k(t, n, "modifier");
        let mut modifiers: Vec<Modifier> = Vec::new();
        let mut i: usize = 0;
        while i < cs.len()
            invariant
                t.wf(),
                t.valid(n as int),
                i <= cs@.len(),
                modifiers@.len() == i,
                t.nodes@[n as int].kind@ == "modifiers"@,
                annotations_ok(t, n as int),
                cs@ == crate::accessor::kind_children(t, n as int, "modifier"@),
                forall|j: int| 0 <= j < cs@.len() ==> n < #[trigger] cs@[j] < t.nodes@.len(),
                forall|j: int| 0 <= j < i ==> modifier_ok(t, #[trigger] cs@[j] as int),
                forall|j: int| 0 <= j < i ==> crate::enum_def::modifier_tied(t, cs@[j] as int, #[trigger] modifiers@[j]),
            decreases cs@.len() - i,
        {
            let m = match Modifier::new(t, cs[i]) {
                Ok(m) => m,
                Err(e) => {
                    assert(!modifier_ok(t, cs@[i as int] as int));
                    return Err(e);
                },
            };
            modifiers.push(m);
            i = i + 1;
        }
        Ok(Modifiers { annotations, modifiers, node_context: NodeContext::with_punctuation(t, n) })
    }

    pub fn build<'a>(&self, b: &'a DocBuilder<'a>, cm: &CommentMap, st: &mut BuildState) -> (r: DocRef<'a>)
        ensures
            final(st).printed@.len() == old(st).printed@.len(),
            exists|body: Seq<DocRef<'a>>| #[trigger] wraps(*r, body) && modifiers_layout(body, *self, b.config),
    {
        proof {
            reveal_strlit(" ");
            assert(" "@ =~= seq![' ']);
        }
        let mut body = build_annotations(&self.annotations, b, cm, st);
        if self.modifiers.len() > 0 {
            let ghost len0 = st.printed@.len();
            let mut docs: Vec<DocRef<'a>> = Vec::new();
            let mut i: usize = 0;
            while i < self.modifiers.len()
                invariant
                    st.printed@.len() == len0,
                decreases self.modifiers@.len() - i,
            {
                let d = self.modifiers[i].build(b, cm, st);
                docs.push(d);
                i = i + 1;
            }
            let j = join(b, docs.as_slice(), " ");
            body.push(j);
            let s = b.txt(" ");
            body.push(s);
        }
        let ghost body_v = body@;
        assert(modifiers_layout(body_v, *self, b.config));
        let r = with_comments(b, cm, st, &self.node_context, body);
        assert(wraps(*r, body_v));
        r
    }
}

/// The modifiers of a node, when it has a `modifiers` child.
pub fn modifiers_of(t: &SyntaxTree, n: usize) -> (r: Result<Option<Modifiers>, String>)
    requires
        t.wf(),
        t.valid(n as int),
    ensures
        r matches Ok(m) ==> (m is Some <==> crate::accessor::kind_children(t, n as int, "modifiers"@).len() > 0),
        r matches Ok(m) ==> crate::enum_def::optional_modifiers_tied(t, n as int, m),
        r is Ok <==> optional_modifiers_ok(t, n as int),
{
    match try_c_by_k(t, n, "modifiers") {
        Some(c) => Ok(Some(Modifiers::new(t, c)?)),
        None => Ok(None),
    }
}

/// The document of optional modifiers: nothing when there are none.
/// The number of documents the modifiers of a declaration take: one where
/// there are modifiers.
pub open spec fn modifier_count(m: Option<Modifiers>) -> int {
    if m is Some {
        1
    } else {
        0
    }
}

pub fn build_modifiers<'a>(m: &Option<Modifiers>, b: &'a DocBuilder<'a>, cm: &CommentMap, st: &mut BuildState, body: &mut Vec<DocRef<'a>>)
    ensures
        final(st).printed@.len() == old(st).printed@.len(),
        final(body)@.len() == old(body)@.len() + modifier_count(*m),
        final(body)@.subrange(0, old(body)@.len() as int) == old(body)@,
{
    match m {
        Some(m) => {
            let d = m.build(b, cm, st);
            body.push(d);
        },
        None => {},
    }
}

/// The annotations and a space where there are any, then the name.
pub open spec fn type_parameter_layout<'a>(body: Seq<DocRef<'a>>, s: TypeParameter) -> bool {
    &&& body.len() == if s.annotations@.len() > 0 { 3int } else { 1int }
    &&& s.annotations@.len() > 0 ==> is_text(*body[1], seq![' '])
    &&& is_text(*body[body.len() - 1], s.type_identifier@)
}

// ---------------------------------------------------------------------------
// Type parameters, interfaces and super classes.
// ---------------------------------------------------------------------------
/// A type parameter whose annotations and name can be read.
pub open spec fn type_parameter_ok(t: &SyntaxTree, n: int) -> bool {
    annotations_ok(t, n) && readable_first(t, crate::accessor::kind_children(t, n, "type_identifier"@))
}

/// `T` in `<T>`, with its annotations.
pub struct TypeParameter {
    pub annotations: Vec<Annotation>,
    pub type_identifier: String,
    pub node_context: NodeContext,
}

impl TypeParameter {
    pub fn new(t: &SyntaxTree, n: usize) -> (r: Result<Self, String>)
        requires
            t.wf(),
            t.valid(n as int),
        ensures
            r is Ok <==> type_parameter_ok(t, n as int),
            r matches Ok(v) ==> v.node_context.id == n,
            r matches Ok(v) ==> v.type_identifier@ == crate::accessor::node_text(
                t,
                crate::accessor::kind_children(t, n as int, "type_identifier"@)[0] as int,
            ),
    {
        let annotations = annotations_of(t, n)?;
        let c = c_by_k(t, n, "type_identifier")?;
        let type_identifier = value(t, c)?;
        Ok(TypeParameter { annotations, type_identifier, node_context: NodeContext::with_punctuation(t, n) })
    }

    pub fn build<'a>(&self, b: &'a DocBuilder<'a>, cm: &CommentMap, st: &mut BuildState) -> (r: DocRef<'a>)
        ensures
            final(st).printed@.len() == old(st).printed@.len(),
            exists|body: Seq<DocRef<'a>>| #[trigger] wraps(*r, body) && type_parameter_layout(body, *self),
    {
        proof {
            reveal_strlit(" ");
            assert(" "@ =~= seq![' ']);
        }
        let mut body: Vec<DocRef<'a>> = Vec::new();
        if self.annotations.len() > 0 {
            let docs = build_annotations(&self.annotations, b, cm, st);
            let j = join(b, docs.as_slice(), " ");
            body.push(j);
            let s = b.txt(" ");
            body.push(s);
        }
        let id = b.txt(self.type_identifier.as_str());
        body.push(id);
        let ghost body_v = body@;
        assert(type_parameter_layout(body_v, *self));
        let r = with_comments_and_punc(b, cm, st, &self.node_context, body);
        assert(wraps(*r, body_v));
        r
    }
}

/// The elements between `<` and `>`, on one line when that fits.
pub open spec fn type_parameters_layout<'a>(body: Seq<DocRef<'a>>, s: TypeParameters, cfg: PrettyConfig) -> bool {
    body.len() == 1 && is_surrounded(*body[0], s.type_parameters@.len(), "<"@, ">"@, false, cfg.indent_size)
}

/// A `type_parameters` node with type parameters, each of which can be
/// read.
pub open spec fn type_parameters_ok(t: &SyntaxTree, n: int) -> bool {
    let ps = crate::accessor::kind_children(t, n, "type_parameter"@);
    &&& t.nodes@[n].kind@ == "type_parameters"@
    &&& ps.len() > 0
    &&& forall|j: int| 0 <= j < ps.len() ==> type_parameter_ok(t, #[trigger] ps[j] as int)
}

/// `<T, U>` after a declaration's name.
pub struct TypeParameters {
    pub type_parameters: Vec<TypeParameter>,
    pub node_context: NodeContext,
}

impl TypeParameters {
    pub fn new(t: &SyntaxTree, n: usize) -> (r: Result<Self, String>)
        requires
            t.wf(),
            t.valid(n as int),
        ensures
            r matches Ok(v) ==> v.node_context.id == n && t.nodes@[n as int].kind@ == "type_parameters"@,
            r is Ok <==> type_parameters_ok(t, n as int),
            r matches Ok(v) ==> v.type_parameters@.len() == crate::accessor::kind_children(t, n as int, "type_parameter"@).len(),
    {
        assert_check(t, n, "type_parameters")?;
        let cs = cs_by_k(t, n, "type_parameter")?;
        let mut type_parameters: Vec<TypeParameter> = Vec::new();
        let mut i: usize = 0;
        while i < cs.len()
            invariant
                t.wf(),
                t.valid(n as int),
                i <= cs@.len(),
                type_parameters@.len() == i,
                t.nodes@[n as int].kind@ == "type_parameters"@,
                cs@ == crate::accessor::kind_children(t, n as int, "type_parameter"@),
                forall|j: int| 0 <= j < cs@.len() ==> n < #[trigger] cs@[j] < t.nodes@.len(),
                forall|j: int| 0 <= j < i ==> type_parameter_ok(t, #[trigger] cs@[j] as int),
            decreases cs@.len() - i,
        {
            let p = match TypeParameter::new(t, cs[i]) {
                Ok(p) => p,
                Err(e) => {
                    assert(!type_parameter_ok(t, cs@[i as int] as int));
                    return Err(e);
                },
            };
            type_parameters.push(p);
            i = i + 1;
        }
        Ok(TypeParameters { type_parameters, node_context: NodeContext::with_punctuation(t, n) })
    }

    pub fn build<'a>(&self, b: &'a DocBuilder<'a>, cm: &CommentMap, st: &mut BuildState) -> (r: DocRef<'a>)
        ensures
            final(st).printed@.len() == old(st).printed@.len(),
            exists|body: Seq<DocRef<'a>>| #[trigger] wraps(*r, body) && type_parameters_layout(body, *self, b.config),
    {
        let ghost len0 = st.printed@.len();
        let mut docs: Vec<DocRef<'a>> = Vec::new();
        let mut i: usize = 0;
        while i < self.type_parameters.len()
            invariant
                st.printed@.len() == len0,
                i <= self.type_parameters@.len(),
                docs@.len() == i,
            decreases self.type_parameters@.len() - i,
        {
            let d = self.type_parameters[i].build(b, cm, st);
            docs.push(d);
            i = i + 1;
        }
        let g = surround_group(b, docs.as_slice(), "<", ">", false);
        let mut body: Vec<DocRef<'a>> = Vec::new();
        body.push(g);
        let ghost body_v = body@;
        assert(type_parameters_layout(body_v, *self, b.config));
        let r = with_comments_and_punc(b, cm, st, &self.node_context, body);
        assert(wraps(*r, body_v));
        r
    }
}

/// The types, each two apart by a space.
pub open spec fn type_list_layout<'a>(body: Seq<DocRef<'a>>, s: TypeList) -> bool {
    body.len() == 1 && is_joined(*body[0], s.types@.len(), " "@)
}

/// A `type_list` node whose types can each be read.
pub open spec fn type_list_ok(t: &SyntaxTree, n: int) -> bool {
    let cs = crate::accessor::code_children(t, n);
    &&& t.nodes@[n].kind@ == "type_list"@
    &&& forall|j: int| 0 <= j < cs.len() ==> type_ok(t, #[trigger] cs[j] as int)
}

/// Types separated by spaces, their commas their own.
pub struct TypeList {
    pub types: Vec<Type>,
    pub node_context: NodeContext,
}

impl TypeList {
    pub fn new(t: &SyntaxTree, n: usize) -> (r: Result<Self, String>)
        requires
            t.wf(),
            t.valid(n as int),
        ensures
            r is Ok <==> type_list_ok(t, n as int),
            r matches Ok(v) ==> v.node_context.id == n && t.nodes@[n as int].kind@ == "type_list"@,
            r matches Ok(v) ==> v.types@.len() == crate::accessor::code_children(t, n as int).len(),
        decreases t.nodes@.len() - n, 1int,
    {
        assert_check(t, n, "type_list")?;
        let cs = children_vec(t, n);
        let mut types: Vec<Type> = Vec::new();
        let mut i: usize = 0;
        while i < cs.len()
            invariant
                t.wf(),
                t.valid(n as int),
                t.nodes@[n as int].kind@ == "type_list"@,
                i <= cs@.len(),
                types@.len() == i,
                cs@ == crate::accessor::code_children(t, n as int),
                forall|j: int| 0 <= j < cs@.len() ==> n < #[trigger] cs@[j] < t.nodes@.len(),
                forall|j: int| 0 <= j < i ==> type_ok(t, #[trigger] cs@[j] as int),
            decreases cs@.len() - i,
        {
            let ty = match Type::new(t, cs[i]) {
                Ok(ty) => ty,
                Err(e) => {
                    assert(!type_ok(t, cs@[i as int] as int));
                    return Err(e);
                },
            };
            types.push(ty);
            i = i + 1;
        }
        Ok(TypeList { types, node_context: NodeContext::with_punctuation(t, n) })
    }

    pub fn build<'a>(&self, b: &'a DocBuilder<'a>, cm: &CommentMap, st: &mut BuildState) -> (r: DocRef<'a>)
        ensures
            final(st).printed@.len() == old(st).printed@.len(),
            exists|body: Seq<DocRef<'a>>| #[trigger] wraps(*r, body) && type_list_layout(body, *self),
    {
        let ghost len0 = st.printed@.len();
        let mut docs: Vec<DocRef<'a>> = Vec::new();
        let mut i: usize = 0;
        while i < self.types.len()
            invariant
                st.printed@.len() == len0,
                i <= self.types@.len(),
                docs@.len() == i,
            decreases self.types@.len() - i,
        {
            let d = self.types[i].build(b, cm, st);
            docs.push(d);
            i = i + 1;
        }
        let j = join(b, docs.as_slice(), " ");
        let mut body: Vec<DocRef<'a>> = Vec::new();
        body.push(j);
        let ghost body_v = body@;
        assert(type_list_layout(body_v, *self));
        let r = with_comments_and_punc(b, cm, st, &self.node_context, body);
        assert(wraps(*r, body_v));
        r
    }
}

/// `implements ` and the types.
pub open spec fn interface_list_layout<'a>(body: Seq<DocRef<'a>>) -> bool {
    &&& body.len() == 1
    &&& *body[0] is Concat
    &&& concat_parts(*body[0]).len() == 2
    &&& is_text(*concat_parts(*body[0])[0], "implements"@ + seq![' '])
}

/// An `interfaces` node with a type list that can be read.
pub open spec fn interfaces_ok(t: &SyntaxTree, n: int) -> bool {
    let l = crate::accessor::kind_children(t, n, "type_list"@);
    t.nodes@[n].kind@ == "interfaces"@ && l.len() > 0 && type_list_ok(t, l[0] as int)
}

/// `implements A, B`
pub struct Interface {
    pub type_list: TypeList,
    pub node_context: NodeContext,
}

impl Interface {
    pub fn new(t: &SyntaxTree, n: usize) -> (r: Result<Self, String>)
        requires
            t.wf(),
            t.valid(n as int),
        ensures
            r matches Ok(v) ==> v.node_context.id == n && t.nodes@[n as int].kind@ == "interfaces"@,
            r is Ok <==> interfaces_ok(t, n as int),
        decreases t.nodes@.len() - n, 1int,
    {
        assert_check(t, n, "interfaces")?;
        let c = c_by_k(t, n, "type_list")?;
        let type_list = TypeList::new(t, c)?;
        Ok(Interface { type_list, node_context: NodeContext::with_punctuation(t, n) })
    }

    pub fn build<'a>(&self, b: &'a DocBuilder<'a>, cm: &CommentMap, st: &mut BuildState) -> (r: DocRef<'a>)
        ensures
            final(st).printed@.len() == old(st).printed@.len(),
            exists|body: Seq<DocRef<'a>>| #[trigger] wraps(*r, body) && interface_list_layout(body),
    {
        let w = b.txt_("implements");
        let d = self.type_list.build(b, cm, st);
        let mut parts: Vec<DocRef<'a>> = Vec::new();
        parts.push(w);
        parts.push(d);
        let g = b.concat(parts);
        let mut body: Vec<DocRef<'a>> = Vec::new();
        body.push(g);
        let ghost body_v = body@;
        assert(interface_list_layout(body_v));
        let r = with_comments_and_punc(b, cm, st, &self.node_context, body);
        assert(wraps(*r, body_v));
        r
    }
}

/// ` extends ` and the types.
pub open spec fn extends_interface_layout<'a>(body: Seq<DocRef<'a>>) -> bool {
    &&& body.len() == 1
    &&& *body[0] is Concat
    &&& concat_parts(*body[0]).len() == 2
    &&& is_text(*concat_parts(*body[0])[0], seq![' '] + "extends"@ + seq![' '])
}

/// `extends A, B` of an interface.
pub struct ExtendsInterface {
    pub type_list: TypeList,
    pub node_context: NodeContext,
}

impl ExtendsInterface {
    pub fn new(t: &SyntaxTree, n: usize) -> (r: Result<Self, String>)
        requires
            t.wf(),
            t.valid(n as int),
        ensures
            r matches Ok(v) ==> v.node_context.id == n,
        decreases t.nodes@.len() - n, 1int,
    {
        let c = c_by_k(t, n, "type_list")?;
        let type_list = TypeList::new(t, c)?;
        Ok(ExtendsInterface { type_list, node_context: NodeContext::with_punctuation(t, n) })
    }

    pub fn build<'a>(&self, b: &'a DocBuilder<'a>, cm: &CommentMap, st: &mut BuildState) -> (r: DocRef<'a>)
        ensures
            final(st).printed@.len() == old(st).printed@.len(),
            exists|body: Seq<DocRef<'a>>| #[trigger] wraps(*r, body) && extends_interface_layout(body),
    {
        let w = b._txt_("extends");
        let d = self.type_list.build(b, cm, st);
        let mut parts: Vec<DocRef<'a>> = Vec::new();
        parts.push(w);
        parts.push(d);
        let g = b.concat(parts);
        let mut body: Vec<DocRef<'a>> = Vec::new();
        body.push(g);
        let ghost body_v = body@;
        assert(extends_interface_layout(body_v));
        let r = with_comments_and_punc(b, cm, st, &self.node_context, body);
        assert(wraps(*r, body_v));
        r
    }
}

/// `extends ` and the type.
pub open spec fn superclass_layout<'a>(body: Seq<DocRef<'a>>) -> bool {
    body.len() == 2 && is_text(*body[0], "extends"@ + seq![' '])
}

/// A `superclass` node whose type can be read.
pub open spec fn superclass_ok(t: &SyntaxTree, n: int) -> bool {
    let cs = crate::accessor::code_children(t, n);
    t.nodes@[n].kind@ == "superclass"@ && cs.len() > 0 && type_ok(t, cs[0] as int)
}

/// `extends Base` of a class.
pub struct SuperClass {
    pub type_: Type,
    pub node_context: NodeContext,
}

impl SuperClass {
    pub fn new(t: &SyntaxTree, n: usize) -> (r: Result<Self, String>)
        requires
            t.wf(),
            t.valid(n as int),
        ensures
            r matches Ok(v) ==> v.node_context.id == n && t.nodes@[n as int].kind@ == "superclass"@,
            r is Ok <==> superclass_ok(t, n as int),
        decreases t.nodes@.len() - n, 1int,
    {
        assert_check(t, n, "superclass")?;
        let c = first_c(t, n)?;
        let type_ = Type::new(t, c)?;
        Ok(SuperClass { type_, node_context: NodeContext::with_punctuation(t, n) })
    }

    pub fn build<'a>(&self, b: &'a DocBuilder<'a>, cm: &CommentMap, st: &mut BuildState) -> (r: DocRef<'a>)
        ensures
            final(st).printed@.len() == old(st).printed@.len(),
            exists|body: Seq<DocRef<'a>>| #[trigger] wraps(*r, body) && superclass_layout(body),
    {
        let w = b.txt_("extends");
        let d = self.type_.build(b, cm, st);
        let mut body: Vec<DocRef<'a>> = Vec::new();
        body.push(w);
        body.push(d);
        let ghost body_v = body@;
        assert(superclass_layout(body_v));
        let r = with_comments_and_punc(b, cm, st, &self.node_context, body);
        assert(wraps(*r, body_v));
        r
    }
}


/// The arguments between `(` and `)`, on one line when that fits.
pub open spec fn argument_list_layout<'a>(body: Seq<DocRef<'a>>, s: ArgumentList, cfg: PrettyConfig) -> bool {
    body.len() == 1 && is_surrounded(*body[0], s.expressions@.len(), "("@, ")"@, false, cfg.indent_size)
}

/// The document of an argument list: laid out as `argument_list_layout`
/// says, each argument laid out as its kind lays it out, in their order.
pub open spec fn argument_list_doc<'a>(d: Doc<'a>, s: ArgumentList, cfg: PrettyConfig) -> bool
    decreases s,
{
    exists|body: Seq<DocRef<'a>>|
        #[trigger] wraps(d, body) && argument_list_layout(body, s, cfg) && forall|j: int|
            0 <= j < s.expressions@.len() ==> crate::enum_def::expression_doc(
                surrounded_elem(*body[0], j),
                s.expressions@[j],
                cfg,
            )
}

/// Element `j` of a list laid out as `is_surrounded` says.
pub open spec fn surrounded_elem<'a>(d: Doc<'a>, j: int) -> Doc<'a> {
    match *concat_parts(*d->Choice_1)[1] {
        Doc::Indent(_, x) => *concat_parts(*concat_parts(*x)[1])[2 * j],
        _ => d,
    }
}

/// Every code child of `n` is an expression that holds no other
/// expression.
pub open spec fn holds_leaf_expressions(t: &SyntaxTree, n: int) -> bool {
    let cs = crate::accessor::code_children(t, n);
    forall|j: int| 0 <= j < cs.len() ==> crate::enum_def::is_leaf_expression_kind(t.nodes@[#[trigger] cs[j] as int].kind@)
}

/// Every code child of `n` is such an expression that can be read.
pub open spec fn leaf_expressions_ok(t: &SyntaxTree, n: int) -> bool {
    let cs = crate::accessor::code_children(t, n);
    forall|j: int| 0 <= j < cs.len() ==> crate::enum_def::leaf_expression_ok(t, #[trigger] cs[j] as int)
}

// ---------------------------------------------------------------------------
// Expressions.
// ---------------------------------------------------------------------------
/// `(a, b)` after a method's name.
pub struct ArgumentList {
    pub expressions: Vec<Expression>,
    pub node_context: NodeContext,
}

impl ArgumentList {
    pub fn new(t: &SyntaxTree, n: usize) -> (r: Result<Self, String>)
        requires
            t.wf(),
            t.valid(n as int),
        ensures
            r matches Ok(v) ==> crate::enum_def::args_tied(t, n as int, v),
            r matches Ok(v) ==> v.node_context.id == n && v.expressions@.len() == crate::accessor::code_children(t, n as int).len(),
            holds_leaf_expressions(t, n as int) ==> (r is Ok <==> leaf_expressions_ok(t, n as int)),
            (forall|j: int| 0 <= j < crate::accessor::code_children(t, n as int).len() ==> crate::enum_def::expr_below(
                t,
                n as int,
                #[trigger] crate::accessor::code_children(t, n as int)[j] as int,
            )) ==> r is Ok,
        decreases t.nodes@.len() - n, 1int,
    {
        let cs = children_vec(t, n);
        let expressions = expressions_of(t, n, &cs)?;
        Ok(ArgumentList { expressions, node_context: NodeContext::with_punctuation(t, n) })
    }

    pub fn build<'a>(&self, b: &'a DocBuilder<'a>, cm: &CommentMap, st: &mut BuildState) -> (r: DocRef<'a>)
        ensures
            final(st).printed@.len() == old(st).printed@.len(),
            argument_list_doc(*r, *self, b.config),
        decreases self,
    {
        let docs = build_expressions(&self.expressions, b, cm, st);
        let g = surround_group(b, docs.as_slice(), "(", ")", false);
        let mut body: Vec<DocRef<'a>> = Vec::new();
        body.push(g);
        let ghost body_v = body@;
        assert(argument_list_layout(body_v, *self, b.config));
        let r = with_comments_and_punc(b, cm, st, &self.node_context, body);
        assert(wraps(*r, body_v));
        assert(forall|j: int|
            0 <= j < self.expressions@.len() ==> crate::enum_def::expression_doc(
                surrounded_elem(*body_v[0], j),
                self.expressions@[j],
                b.config,
            ));
        r
    }
}

/// `(`, the expression between two breaks that vanish on one line, indented
/// and grouped, `)`.
pub open spec fn parenthesized_layout<'a>(body: Seq<DocRef<'a>>, cfg: PrettyConfig) -> bool {
    &&& body.len() == 3
    &&& is_text(*body[0], "("@)
    &&& is_text(*body[2], ")"@)
    &&& *body[1] is Choice
    &&& *body[1]->Choice_0 == Doc::Flat(body[1]->Choice_1)
    &&& *body[1]->Choice_1 is Concat
    &&& ({
        let p = concat_parts(*body[1]->Choice_1);
        &&& p.len() == 3
        &&& (*p[0] matches Doc::Indent(i, x) && i == cfg.indent_size && *x == Doc::Maybeline)
        &&& (*p[1] matches Doc::Indent(j, _) && j == cfg.indent_size)
        &&& *p[2] == Doc::Maybeline
    })
}

/// The document of a parenthesized expression: laid out as
/// `parenthesized_layout` says, the expression inside laid out as its kind
/// lays it out.
pub open spec fn parenthesized_doc<'a>(d: Doc<'a>, s: ParenthesizedExpression, cfg: PrettyConfig) -> bool
    decreases s,
{
    exists|body: Seq<DocRef<'a>>|
        #[trigger] wraps(d, body) && parenthesized_layout(body, cfg) && crate::enum_def::expression_doc(
            match *concat_parts(*body[1]->Choice_1)[1] {
                Doc::Indent(_, x) => *x,
                _ => d,
            },
            s.exp,
            cfg,
        )
}

/// `(expression)`
pub struct ParenthesizedExpression {
    pub exp: Expression,
    pub node_context: NodeContext,
}

impl ParenthesizedExpression {
    pub fn new(t: &SyntaxTree, n: usize) -> (r: Result<Self, String>)
        requires
            t.wf(),
            t.valid(n as int),
        ensures
            r matches Ok(v) ==> crate::enum_def::paren_tied(t, n as int, v),
            r matches Ok(v) ==> v.node_context.id == n,
            leaf_inside(t, n as int) ==> (r is Ok <==> leaf_inside_ok(t, n as int)),
            crate::accessor::code_children(t, n as int).len() > 0 && crate::enum_def::expr_below(
                t,
                n as int,
                crate::accessor::code_children(t, n as int)[0] as int,
            ) ==> r is Ok,
        decreases t.nodes@.len() - n, 1int,
    {
        let c = first_c(t, n)?;
        let exp = Expression::new(t, c)?;
        Ok(ParenthesizedExpression { exp, node_context: NodeContext::with_punctuation(t, n) })
    }

    pub fn build<'a>(&self, b: &'a DocBuilder<'a>, cm: &CommentMap, st: &mut BuildState) -> (r: DocRef<'a>)
        ensures
            final(st).printed@.len() == old(st).printed@.len(),
            parenthesized_doc(*r, *self, b.config),
        decreases self,
    {
        let o = b.txt("(");
        let m1 = b.maybeline();
        let i1 = b.indent(m1);
        let e = self.exp.build(b, cm, st);
        let i2 = b.indent(e);
        let m2 = b.maybeline();
        let mut parts: Vec<DocRef<'a>> = Vec::new();
        parts.push(i1);
        parts.push(i2);
        parts.push(m2);
        let c = b.concat(parts);
        let g = b.group(c);
        let cl = b.txt(")");
        let mut body: Vec<DocRef<'a>> = Vec::new();
        body.push(o);
        body.push(g);
        body.push(cl);
        let ghost body_v = body@;
        assert(parenthesized_layout(body_v, b.config));
        let r = with_comments_and_punc(b, cm, st, &self.node_context, body);
        assert(wraps(*r, body_v));
        assert(*concat_parts(*body_v[1]->Choice_1)[1] == Doc::Indent(b.config.indent_size, e));
        r
    }
}

/// What is assigned to.
pub enum AssignmentLeft {
    Identifier(ValueNode),
    Field(FieldAccess),
    Array(ArrayAccess),
}

/// The document of the target of an assignment, as its kind lays it out.
pub open spec fn assignment_left_doc<'a>(d: Doc<'a>, l: AssignmentLeft, cfg: PrettyConfig) -> bool
    decreases l,
{
    match l {
        AssignmentLeft::Identifier(x) => wraps_text(d, x.value@),
        AssignmentLeft::Field(x) => field_access_doc(d, x, cfg),
        AssignmentLeft::Array(x) => exists|body: Seq<DocRef<'a>>| #[trigger] wraps(d, body) && array_access_layout(body, x, cfg),
    }
}

/// The target, a space, the operator, then the value: after a space when it
/// is a query, else after a soft line break with the whole grouped and
/// indented.
pub open spec fn assignment_layout<'a>(body: Seq<DocRef<'a>>, s: AssignmentExpression, cfg: PrettyConfig) -> bool
    decreases s,
{
    &&& body.len() == 1
    &&& ({
        let p = if s.is_right_child_a_query_node {
            concat_parts(*body[0])
        } else {
            concat_parts(*inner(*body[0]->Choice_1).unwrap())
        };
        &&& assignment_left_doc(*p[0], s.left, cfg)
        &&& wraps_text(*p[2], s.op.value@)
        &&& crate::enum_def::expression_doc(*p[4], s.right, cfg)
    })
    &&& if s.is_right_child_a_query_node {
        let p = concat_parts(*body[0]);
        *body[0] is Concat && p.len() == 5 && is_text(*p[1], seq![' ']) && is_text(*p[3], seq![' '])
    } else {
        let d = *body[0];
        &&& d is Choice
        &&& *d->Choice_0 == Doc::Flat(d->Choice_1)
        &&& *d->Choice_1 is Indent
        &&& inner(*d->Choice_1) is Some
        &&& *inner(*d->Choice_1).unwrap() is Concat
        &&& ({
            let p = concat_parts(*inner(*d->Choice_1).unwrap());
            p.len() == 5 && is_text(*p[1], seq![' ']) && *p[3] == Doc::Softline
        })
    }
}

/// `left = right`, broken after the operator when too long; a query on the
/// right stays on the operator's line.
pub struct AssignmentExpression {
    pub left: AssignmentLeft,
    pub op: ValueNode,
    pub right: Expression,
    pub is_right_child_a_query_node: bool,
    pub node_context: NodeContext,
}

impl AssignmentExpression {
    pub fn new(t: &SyntaxTree, n: usize) -> (r: Result<Self, String>)
        requires
            t.wf(),
            t.valid(n as int),
        ensures
            r matches Ok(v) ==> crate::enum_def::assignment_left_tied(t, crate::enum_def::field_child(t, n as int, "left"@), v.left) && crate::data_model::read_from(t, crate::enum_def::field_child(t, n as int, "operator"@), v.op.node_context.id, v.op.value),
            r matches Ok(v) ==> crate::enum_def::expr_tied(t, crate::enum_def::field_child(t, n as int, "right"@), v.right),
            r matches Ok(v) ==> v.node_context.id == n && t.nodes@[n as int].kind@ == "assignment_expression"@,
            ({
                let l = crate::accessor::field_children(t, n as int, "left"@);
                l.len() > 0 && t.nodes@[l[0] as int].kind@ == "identifier"@ && leaf_field(t, n as int, "right"@)
            }) ==> (r is Ok <==> t.nodes@[n as int].kind@ == "assignment_expression"@
                && crate::accessor::readable(t, crate::accessor::field_children(t, n as int, "left"@)[0] as int)
                && readable_first(t, crate::accessor::field_children(t, n as int, "operator"@)) && leaf_field_ok(t, n as int, "right"@)),
            crate::accessor::field_children(t, n as int, "left"@).len() > 0 && !({
                let k = t.nodes@[crate::accessor::field_children(t, n as int, "left"@)[0] as int].kind@;
                k == "identifier"@ || k == "field_access"@ || k == "array_access"@
            }) ==> r is Err,
            t.nodes@[n as int].kind@ == "assignment_expression"@ && crate::enum_def::expr_reads(t, n as int) ==> r is Ok,
        decreases t.nodes@.len() - n, 1int,
    {
        proof {
            crate::enum_def::lemma_composite_expression_kinds(t.nodes@[n as int].kind@);
            let l = crate::accessor::field_children(t, n as int, "left"@);
            if l.len() > 0 {
                crate::enum_def::lemma_composite_expression_kinds(t.nodes@[l[0] as int].kind@);
            }
        }
        assert_check(t, n, "assignment_expression")?;
        let l = c_by_n(t, n, "left")?;
        let left = if kind_is(t, l, "identifier") {
            AssignmentLeft::Identifier(ValueNode::new(t, l)?)
        } else if kind_is(t, l, "field_access") {
            AssignmentLeft::Field(FieldAccess::new(t, l)?)
        } else if kind_is(t, l, "array_access") {
            AssignmentLeft::Array(ArrayAccess::new(t, l)?)
        } else {
            return Err(panic_unknown_node(t, l, "AssignmentLeft"));
        };
        let o = c_by_n(t, n, "operator")?;
        let op = ValueNode::new(t, o)?;
        let rc = c_by_n(t, n, "right")?;
        let right = Expression::new(t, rc)?;
        let is_right_child_a_query_node = crate::utility::is_query_expression(t, rc);
        Ok(AssignmentExpression {
            left,
            op,
            right,
            is_right_child_a_query_node,
            node_context: NodeContext::with_punctuation(t, n),
        })
    }

    pub fn build<'a>(&self, b: &'a DocBuilder<'a>, cm: &CommentMap, st: &mut BuildState) -> (r: DocRef<'a>)
        ensures
            final(st).printed@.len() == old(st).printed@.len(),
            exists|body: Seq<DocRef<'a>>| #[trigger] wraps(*r, body) && assignment_layout(body, *self, b.config),
        decreases self,
    {
        proof {
            reveal_strlit(" ");
            assert(" "@ =~= seq![' ']);
        }
        let l = match &self.left {
            AssignmentLeft::Identifier(v) => v.build(b, cm, st),
            AssignmentLeft::Field(v) => v.build(b, cm, st),
            AssignmentLeft::Array(v) => v.build(b, cm, st),
        };
        assert(assignment_left_doc(*l, self.left, b.config));
        let mut docs: Vec<DocRef<'a>> = Vec::new();
        docs.push(l);
        let sp = b.txt(" ");
        docs.push(sp);
        let op = self.op.build(b, cm, st);
        docs.push(op);
        let d = if self.is_right_child_a_query_node {
            let s = b.txt(" ");
            docs.push(s);
            let r = self.right.build(b, cm, st);
            docs.push(r);
            b.concat(docs)
        } else {
            let s = b.softline();
            docs.push(s);
            let r = self.right.build(b, cm, st);
            docs.push(r);
            b.group_indent_concat(docs)
        };
        let mut body: Vec<DocRef<'a>> = Vec::new();
        body.push(d);
        let ghost body_v = body@;
        assert(assignment_layout(body_v, *self, b.config));
        let r = with_comments_and_punc(b, cm, st, &self.node_context, body);
        assert(wraps(*r, body_v));
        r
    }
}

/// Where a binary expression stands among others.
pub struct BinaryExpressionContext {
    pub is_a_chaining_inner_node: bool,
    pub has_parent_same_precedence: bool,
    pub is_parent_return_statement: bool,
}

/// The parts of a binary expression: the left operand, a soft line break,
/// the operator, a space and the right operand.
pub open spec fn binary_parts<'a>(p: Seq<DocRef<'a>>, op: Seq<char>) -> bool {
    p.len() == 5 && *p[1] == Doc::Softline && is_text(*p[2], op) && is_text(*p[3], seq![' '])
}

/// A binary expression: its parts as they are inside a chain of one
/// precedence; grouped on their own; grouped and indented when inside
/// another chain or returned.
pub open spec fn binary_layout<'a>(body: Seq<DocRef<'a>>, op: Seq<char>, c: BinaryExpressionContext) -> bool {
    &&& body.len() == 1
    &&& if c.has_parent_same_precedence {
        *body[0] is Concat && binary_parts(concat_parts(*body[0]), op)
    } else if !c.is_a_chaining_inner_node && !c.is_parent_return_statement {
        let d = *body[0];
        d is Choice && *d->Choice_0 == Doc::Flat(d->Choice_1) && *d->Choice_1 is Concat && binary_parts(
            concat_parts(*d->Choice_1),
            op,
        )
    } else {
        let d = *body[0];
        &&& d is Choice
        &&& *d->Choice_0 == Doc::Flat(d->Choice_1)
        &&& *d->Choice_1 is Indent
        &&& inner(*d->Choice_1) is Some
        &&& *inner(*d->Choice_1).unwrap() is Concat
        &&& binary_parts(concat_parts(*inner(*d->Choice_1).unwrap()), op)
    }
}

/// The parts of a binary expression's document, where `binary_layout` puts
/// them.
pub open spec fn binary_parts_of<'a>(d: Doc<'a>, c: BinaryExpressionContext) -> Seq<DocRef<'a>> {
    if c.has_parent_same_precedence {
        concat_parts(d)
    } else if !c.is_a_chaining_inner_node && !c.is_parent_return_statement {
        concat_parts(*d->Choice_1)
    } else {
        concat_parts(*inner(*d->Choice_1).unwrap())
    }
}

/// The operands of a binary expression, each laid out as its kind lays it
/// out, at both ends of its parts.
pub open spec fn binary_operands<'a>(body: Seq<DocRef<'a>>, s: BinaryExpression, cfg: PrettyConfig) -> bool
    decreases s,
{
    let p = binary_parts_of(*body[0], s.context);
    crate::enum_def::expression_doc(*p[0], s.left, cfg) && crate::enum_def::expression_doc(*p[4], s.right, cfg)
}

/// The precedence of the first `operator` child of `n`, if it has one with
/// a known precedence.
pub open spec fn operator_precedence(t: &SyntaxTree, n: int) -> Option<u8> {
    let ops = crate::accessor::field_children(t, n, "operator"@);
    if ops.len() > 0 {
        crate::utility::spec_precedence(t.nodes@[ops[0] as int].kind@)
    } else {
        None
    }
}

/// The context of a binary expression can be found: its operator has a
/// known precedence, it has a parent, and a parent that is a binary
/// expression has an operator of known precedence too.
pub open spec fn binary_context_ok(t: &SyntaxTree, n: int) -> bool {
    &&& operator_precedence(t, n) is Some
    &&& t.nodes@[n].parent matches Some(p) && (t.nodes@[p as int].kind@ == "binary_expression"@ ==> operator_precedence(
        t,
        p as int,
    ) is Some)
}

/// `left op right`: chains of one precedence break at each operator.
pub struct BinaryExpression {
    pub left: Expression,
    pub op: String,
    pub right: Expression,
    pub context: BinaryExpressionContext,
    pub node_context: NodeContext,
}

impl BinaryExpression {
    /// The context of a binary expression, read from its parent.
    pub fn build_context(t: &SyntaxTree, n: usize) -> (r: Result<BinaryExpressionContext, String>)
        requires
            t.wf(),
            t.valid(n as int),
        ensures
            r matches Ok(c) ==> t.nodes@[n as int].parent matches Some(p) && c.is_a_chaining_inner_node
                == (t.nodes@[p as int].kind@ == "binary_expression"@) && c.is_parent_return_statement
                == (t.nodes@[p as int].kind@ == "return_statement"@) && (c.has_parent_same_precedence
                ==> c.is_a_chaining_inner_node),
            r is Ok <==> binary_context_ok(t, n as int),
            r matches Ok(c) ==> c.has_parent_same_precedence == (c.is_a_chaining_inner_node && operator_precedence(t, n as int)
                == operator_precedence(t, t.nodes@[n as int].parent->0 as int)),
    {
        let o = c_by_n(t, n, "operator")?;
        let precedence = crate::utility::precedence_of(t.nodes[o].kind.as_str())?;
        let p = match t.nodes[n].parent {
            Some(p) => p,
            None => {
                return Err(owned("BinaryExpression node should always have a parent"));
            },
        };
        let is_a_chaining_inner_node = crate::utility::is_binary_exp(t, p);
        let has_parent_same_precedence = if is_a_chaining_inner_node {
            let po = c_by_n(t, p, "operator")?;
            let pp = crate::utility::precedence_of(t.nodes[po].kind.as_str())?;
            precedence == pp
        } else {
            false
        };
        Ok(BinaryExpressionContext {
            has_parent_same_precedence,
            is_a_chaining_inner_node,
            is_parent_return_statement: kind_is(t, p, "return_statement"),
        })
    }

    pub fn new(t: &SyntaxTree, n: usize) -> (r: Result<Self, String>)
        requires
            t.wf(),
            t.valid(n as int),
        ensures
            r matches Ok(v) ==> crate::enum_def::expr_tied(t, crate::enum_def::field_child(t, n as int, "left"@), v.left) && crate::enum_def::expr_tied(t, crate::enum_def::field_child(t, n as int, "right"@), v.right),
            r matches Ok(v) ==> v.node_context.id == n && t.nodes@[n as int].kind@ == "binary_expression"@,
            leaf_field(t, n as int, "left"@) && leaf_field(t, n as int, "right"@) ==> (r is Ok <==> t.nodes@[n as int].kind@
                == "binary_expression"@ && leaf_field_ok(t, n as int, "left"@)
                && crate::accessor::field_children(t, n as int, "operator"@).len() > 0 && leaf_field_ok(t, n as int, "right"@)
                && binary_context_ok(t, n as int)),
            r matches Ok(v) ==> v.op@ == t.nodes@[crate::accessor::field_children(t, n as int, "operator"@)[0] as int].kind@,
            t.nodes@[n as int].kind@ == "binary_expression"@ && crate::enum_def::expr_reads(t, n as int) ==> r is Ok,
        decreases t.nodes@.len() - n, 1int,
    {
        proof {
            crate::enum_def::lemma_composite_expression_kinds(t.nodes@[n as int].kind@);
        }
        assert_check(t, n, "binary_expression")?;
        let l = c_by_n(t, n, "left")?;
        let left = Expression::new(t, l)?;
        let o = c_by_n(t, n, "operator")?;
        let op = owned(t.nodes[o].kind.as_str());
        let rc = c_by_n(t, n, "right")?;
        let right = Expression::new(t, rc)?;
        let context = Self::build_context(t, n)?;
        Ok(BinaryExpression { left, op, right, context, node_context: NodeContext::with_punctuation(t, n) })
    }

    /// A chain of one precedence is left to the outermost expression to
    /// group; an expression on its own is grouped at the current indent; the
    /// inner ones of other chains, and those returned, are grouped indented.
    pub fn build<'a>(&self, b: &'a DocBuilder<'a>, cm: &CommentMap, st: &mut BuildState) -> (r: DocRef<'a>)
        ensures
            final(st).printed@.len() == old(st).printed@.len(),
            exists|body: Seq<DocRef<'a>>| #[trigger] wraps(*r, body) && binary_layout(body, self.op@, self.context)
                && binary_operands(body, *self, b.config),
        decreases self,
    {
        proof {
            reveal_strlit(" ");
            assert(" "@ =~= seq![' ']);
        }
        let l = self.left.build(b, cm, st);
        let op = b.txt(self.op.as_str());
        let r = self.right.build(b, cm, st);
        let mut docs: Vec<DocRef<'a>> = Vec::new();
        docs.push(l);
        let s = b.softline();
        docs.push(s);
        docs.push(op);
        let sp = b.txt(" ");
        docs.push(sp);
        docs.push(r);
        let c = &self.context;
        let d = if c.has_parent_same_precedence {
            b.concat(docs)
        } else if !c.is_a_chaining_inner_node && !c.is_parent_return_statement {
            b.group_concat(docs)
        } else {
            b.group_indent_concat(docs)
        };
        let mut body: Vec<DocRef<'a>> = Vec::new();
        body.push(d);
        let ghost body_v = body@;
        assert(binary_layout(body_v, self.op@, self.context));
        assert(binary_operands(body_v, *self, b.config));
        let r = with_comments_and_punc(b, cm, st, &self.node_context, body);
        assert(wraps(*r, body_v));
        r
    }
}

/// The operator, then the operand.
pub open spec fn unary_layout<'a>(body: Seq<DocRef<'a>>, s: UnaryExpression, cfg: PrettyConfig) -> bool
    decreases s,
{
    body.len() == 2 && is_text(*body[0], s.operator@) && crate::enum_def::expression_doc(*body[1], *s.operand, cfg)
}

/// The first child of `n` named `f`, where there is one, is an expression
/// that holds no other expression.
pub open spec fn leaf_field(t: &SyntaxTree, n: int, f: Seq<char>) -> bool {
    let c = crate::accessor::field_children(t, n, f);
    c.len() > 0 ==> crate::enum_def::is_leaf_expression_kind(t.nodes@[c[0] as int].kind@)
}

/// `n` has a child named `f`, and the first is an expression that holds no
/// other expression and can be read.
pub open spec fn leaf_field_ok(t: &SyntaxTree, n: int, f: Seq<char>) -> bool {
    let c = crate::accessor::field_children(t, n, f);
    c.len() > 0 && crate::enum_def::leaf_expression_ok(t, c[0] as int)
}

/// `n` has a child named `f`, and the first is a type that can be read.
pub open spec fn type_field_ok(t: &SyntaxTree, n: int, f: Seq<char>) -> bool {
    let c = crate::accessor::field_children(t, n, f);
    first_below(t, n, c) && type_ok(t, c[0] as int)
}

/// `!x`, `-x`
pub struct UnaryExpression {
    pub operator: String,
    pub operand: Box<Expression>,
    pub node_context: NodeContext,
}

impl UnaryExpression {
    pub fn new(t: &SyntaxTree, n: usize) -> (r: Result<Self, String>)
        requires
            t.wf(),
            t.valid(n as int),
        ensures
            r matches Ok(v) ==> crate::enum_def::expr_tied(t, crate::enum_def::field_child(t, n as int, "operand"@), *v.operand),
            r matches Ok(v) ==> v.node_context.id == n && t.nodes@[n as int].kind@ == "unary_expression"@,
            leaf_field(t, n as int, "operand"@) ==> (r is Ok <==> t.nodes@[n as int].kind@ == "unary_expression"@
                && readable_first(t, crate::accessor::field_children(t, n as int, "operator"@)) && leaf_field_ok(t, n as int, "operand"@)),
            r matches Ok(v) ==> v.operator@ == crate::accessor::node_text(t, crate::accessor::field_children(t, n as int, "operator"@)[0] as int),
            t.nodes@[n as int].kind@ == "unary_expression"@ && crate::enum_def::expr_reads(t, n as int) ==> r is Ok,
        decreases t.nodes@.len() - n, 1int,
    {
        proof {
            crate::enum_def::lemma_composite_expression_kinds(t.nodes@[n as int].kind@);
        }
        assert_check(t, n, "unary_expression")?;
        let operator = crate::accessor::cvalue_by_n(t, n, "operator")?;
        let o = c_by_n(t, n, "operand")?;
        let operand = Box::new(Expression::new(t, o)?);
        Ok(UnaryExpression { operator, operand, node_context: NodeContext::with_punctuation(t, n) })
    }

    pub fn build<'a>(&self, b: &'a DocBuilder<'a>, cm: &CommentMap, st: &mut BuildState) -> (r: DocRef<'a>)
        ensures
            final(st).printed@.len() == old(st).printed@.len(),
            exists|body: Seq<DocRef<'a>>| #[trigger] wraps(*r, body) && unary_layout(body, *self, b.config),
        decreases self,
    {
        let o = b.txt(self.operator.as_str());
        let e = self.operand.build(b, cm, st);
        let mut body: Vec<DocRef<'a>> = Vec::new();
        body.push(o);
        body.push(e);
        let ghost body_v = body@;
        assert(unary_layout(body_v, *self, b.config));
        let r = with_comments_and_punc(b, cm, st, &self.node_context, body);
        assert(wraps(*r, body_v));
        r
    }
}

/// The operator before the operand for `++x`, after it for `x++`.
pub open spec fn update_layout<'a>(d: Doc<'a>, v: UpdateExpressionVariant) -> bool {
    &&& d is Concat
    &&& concat_parts(d).len() == 2
    &&& match v {
        UpdateExpressionVariant::Pre { operator, .. } => is_text(*concat_parts(d)[0], operator@),
        UpdateExpressionVariant::Post { operator, .. } => is_text(*concat_parts(d)[1], operator@),
    }
}

/// `++x` or `x++`.
pub enum UpdateExpressionVariant {
    Pre { operator: String, operand: Box<Expression> },
    Post { operand: Box<Expression>, operator: String },
}

impl UpdateExpressionVariant {
    pub fn new(t: &SyntaxTree, n: usize) -> (r: Result<Self, String>)
        requires
            t.wf(),
            t.valid(n as int),
        ensures
            r is Ok ==> t.nodes@[n as int].kind@ == "update_expression"@,
            leaf_field(t, n as int, "operand"@) ==> (r is Ok <==> t.nodes@[n as int].kind@ == "update_expression"@
                && readable_first(t, crate::accessor::field_children(t, n as int, "operator"@)) && leaf_field_ok(t, n as int, "operand"@)),
            r matches Ok(v) ==> (v is Pre <==> t.nodes@[crate::accessor::field_children(t, n as int, "operator"@)[0] as int].start_byte
                < t.nodes@[crate::accessor::field_children(t, n as int, "operand"@)[0] as int].start_byte),
            t.nodes@[n as int].kind@ == "update_expression"@ && crate::enum_def::expr_reads(t, n as int) ==> r is Ok,
        decreases t.nodes@.len() - n, 1int,
    {
        proof {
            crate::enum_def::lemma_composite_expression_kinds(t.nodes@[n as int].kind@);
        }
        assert_check(t, n, "update_expression")?;
        let o = c_by_n(t, n, "operator")?;
        let d = c_by_n(t, n, "operand")?;
        let operator = value(t, o)?;
        let operand = Box::new(Expression::new(t, d)?);
        if t.nodes[o].start_byte < t.nodes[d].start_byte {
            Ok(UpdateExpressionVariant::Pre { operator, operand })
        } else {
            Ok(UpdateExpressionVariant::Post { operand, operator })
        }
    }

    pub fn build<'a>(&self, b: &'a DocBuilder<'a>, cm: &CommentMap, st: &mut BuildState) -> (r: DocRef<'a>)
        ensures
            final(st).printed@.len() == old(st).printed@.len(),
            update_layout(*r, *self),
        decreases self,
    {
        let mut parts: Vec<DocRef<'a>> = Vec::new();
        match self {
            UpdateExpressionVariant::Pre { operator, operand } => {
                let o = b.txt(operator.as_str());
                parts.push(o);
                let e = operand.build(b, cm, st);
                parts.push(e);
                assert(parts@[0] == o);
            },
            UpdateExpressionVariant::Post { operand, operator } => {
                let e = operand.build(b, cm, st);
                parts.push(e);
                let o = b.txt(operator.as_str());
                parts.push(o);
                assert(parts@[1] == o);
            },
        }
        b.concat(parts)
    }
}

pub struct UpdateExpression {
    pub variant: UpdateExpressionVariant,
    pub node_context: NodeContext,
}

impl UpdateExpression {
    pub fn new(t: &SyntaxTree, n: usize) -> (r: Result<Self, String>)
        requires
            t.wf(),
            t.valid(n as int),
        ensures
            r matches Ok(v) ==> v.node_context.id == n && t.nodes@[n as int].kind@ == "update_expression"@,
            t.nodes@[n as int].kind@ == "update_expression"@ && crate::enum_def::expr_reads(t, n as int) ==> r is Ok,
        decreases t.nodes@.len() - n, 2int,
    {
        assert_check(t, n, "update_expression")?;
        let variant = UpdateExpressionVariant::new(t, n)?;
        Ok(UpdateExpression { variant, node_context: NodeContext::with_punctuation(t, n) })
    }

    pub fn build<'a>(&self, b: &'a DocBuilder<'a>, cm: &CommentMap, st: &mut BuildState) -> (r: DocRef<'a>)
        ensures
            final(st).printed@.len() == old(st).printed@.len(),
            exists|body: Seq<DocRef<'a>>| #[trigger] wraps(*r, body) && body.len() == 1 && update_layout(*body[0], self.variant),
        decreases self,
    {
        let v = self.variant.build(b, cm, st);
        let mut body: Vec<DocRef<'a>> = Vec::new();
        body.push(v);
        let ghost body_v = body@;
        let r = with_comments_and_punc(b, cm, st, &self.node_context, body);
        assert(wraps(*r, body_v));
        r
    }
}

/// The condition, `? ` and the consequence, `: ` and the alternative, each
/// after a soft line break, grouped.
pub open spec fn ternary_layout<'a>(body: Seq<DocRef<'a>>) -> bool {
    &&& body.len() == 1
    &&& *body[0] is Choice
    &&& *body[0]->Choice_0 == Doc::Flat(body[0]->Choice_1)
    &&& *body[0]->Choice_1 is Concat
    &&& ({
        let p = concat_parts(*body[0]->Choice_1);
        p.len() == 7 && *p[1] == Doc::Softline && is_text(*p[2], "?"@ + seq![' ']) && *p[4] == Doc::Softline
            && is_text(*p[5], ":"@ + seq![' '])
    })
}

/// The operands of a ternary in the source's order: the condition first,
/// the consequence after `? `, the alternative after `: `, each laid out as
/// its kind lays it out.
pub open spec fn ternary_operands<'a>(body: Seq<DocRef<'a>>, s: TernaryExpression, cfg: PrettyConfig) -> bool
    decreases s,
{
    let p = concat_parts(*body[0]->Choice_1);
    &&& crate::enum_def::expression_doc(*p[0], s.condition, cfg)
    &&& crate::enum_def::expression_doc(*p[3], s.consequence, cfg)
    &&& crate::enum_def::expression_doc(*p[6], s.alternative, cfg)
}

/// In the document of a ternary, the text `? ` is followed by the document
/// of the consequence and the text `: ` by that of the alternative, and the
/// whole begins with the document of the condition.
pub proof fn law_ternary_keeps_its_operands_in_place<'a>(d: Doc<'a>, x: TernaryExpression, cfg: PrettyConfig)
    requires
        crate::enum_def::expression_doc(d, crate::enum_def::Expression::Te(Box::new(x)), cfg),
    ensures
        exists|body: Seq<DocRef<'a>>|
            #[trigger] wraps(d, body) && ({
                let p = concat_parts(*body[0]->Choice_1);
                &&& p.len() == 7
                &&& crate::enum_def::expression_doc(*p[0], x.condition, cfg)
                &&& is_text(*p[2], "?"@ + seq![' '])
                &&& crate::enum_def::expression_doc(*p[3], x.consequence, cfg)
                &&& is_text(*p[5], ":"@ + seq![' '])
                &&& crate::enum_def::expression_doc(*p[6], x.alternative, cfg)
            }),
{
}

/// `c ? a : b`, broken before `?` and `:` when too long.
pub struct TernaryExpression {
    pub condition: Expression,
    pub consequence: Expression,
    pub alternative: Expression,
    pub node_context: NodeContext,
}

impl TernaryExpression {
    pub fn new(t: &SyntaxTree, n: usize) -> (r: Result<Self, String>)
        requires
            t.wf(),
            t.valid(n as int),
        ensures
            r matches Ok(v) ==> crate::enum_def::expr_tied(t, crate::enum_def::field_child(t, n as int, "condition"@), v.condition) && crate::enum_def::expr_tied(t, crate::enum_def::field_child(t, n as int, "consequence"@), v.consequence) && crate::enum_def::expr_tied(t, crate::enum_def::field_child(t, n as int, "alternative"@), v.alternative),
            r matches Ok(v) ==> v.node_context.id == n && t.nodes@[n as int].kind@ == "ternary_expression"@,
            leaf_field(t, n as int, "condition"@) && leaf_field(t, n as int, "consequence"@) && leaf_field(t, n as int, "alternative"@)
                ==> (r is Ok <==> t.nodes@[n as int].kind@ == "ternary_expression"@ && leaf_field_ok(t, n as int, "condition"@)
                && leaf_field_ok(t, n as int, "consequence"@) && leaf_field_ok(t, n as int, "alternative"@)),
        decreases t.nodes@.len() - n, 1int,
    {
        assert_check(t, n, "ternary_expression")?;
        let c = c_by_n(t, n, "condition")?;
        let condition = Expression::new(t, c)?;
        let q = c_by_n(t, n, "consequence")?;
        let consequence = Expression::new(t, q)?;
        let a = c_by_n(t, n, "alternative")?;
        let alternative = Expression::new(t, a)?;
        Ok(TernaryExpression { condition, consequence, alternative, node_context: NodeContext::with_punctuation(t, n) })
    }

    pub fn build<'a>(&self, b: &'a DocBuilder<'a>, cm: &CommentMap, st: &mut BuildState) -> (r: DocRef<'a>)
        ensures
            final(st).printed@.len() == old(st).printed@.len(),
            exists|body: Seq<DocRef<'a>>| #[trigger] wraps(*r, body) && ternary_layout(body),
            exists|body: Seq<DocRef<'a>>| #[trigger] wraps(*r, body) && ternary_layout(body) && ternary_operands(body, *self, b.config),
        decreases self,
    {
        let c = self.condition.build(b, cm, st);
        let s1 = b.softline();
        let q = b.txt_("?");
        let x = self.consequence.build(b, cm, st);
        let s2 = b.softline();
        let col = b.txt_(":");
        let y = self.alternative.build(b, cm, st);
        let mut docs: Vec<DocRef<'a>> = Vec::new();
        docs.push(c);
        docs.push(s1);
        docs.push(q);
        docs.push(x);
        docs.push(s2);
        docs.push(col);
        docs.push(y);
        let g = b.group_concat(docs);
        let mut body: Vec<DocRef<'a>> = Vec::new();
        body.push(g);
        let ghost body_v = body@;
        assert(ternary_layout(body_v));
        assert(ternary_operands(body_v, *self, b.config));
        let r = with_comments_and_punc(b, cm, st, &self.node_context, body);
        assert(wraps(*r, body_v));
        r
    }
}

/// `(`, the type, `) `, the value.
pub open spec fn cast_layout<'a>(body: Seq<DocRef<'a>>) -> bool {
    body.len() == 4 && is_text(*body[0], "("@) && is_text(*body[2], ")"@ + seq![' '])
}

/// The type of a cast between the parentheses, and the value after them.
pub open spec fn cast_operands<'a>(body: Seq<DocRef<'a>>, s: CastExpression, cfg: PrettyConfig) -> bool
    decreases s,
{
    &&& (s.type_ matches crate::enum_def::Type::Unannotated(u) && crate::enum_def::unannotated_type_doc(*body[1], u))
    &&& crate::enum_def::expression_doc(*body[3], s.value, cfg)
}

/// `(Type) value`
pub struct CastExpression {
    pub type_: Type,
    pub value: Expression,
    pub node_context: NodeContext,
}

impl CastExpression {
    pub fn new(t: &SyntaxTree, n: usize) -> (r: Result<Self, String>)
        requires
            t.wf(),
            t.valid(n as int),
        ensures
            r matches Ok(v) ==> (v.type_ matches crate::enum_def::Type::Unannotated(u) && crate::enum_def::type_tied(t, crate::enum_def::field_child(t, n as int, "type"@), u)),
            r matches Ok(v) ==> crate::enum_def::expr_tied(t, crate::enum_def::field_child(t, n as int, "value"@), v.value),
            r matches Ok(v) ==> v.node_context.id == n && t.nodes@[n as int].kind@ == "cast_expression"@,
            leaf_field(t, n as int, "value"@) ==> (r is Ok <==> t.nodes@[n as int].kind@ == "cast_expression"@
                && type_field_ok(t, n as int, "type"@) && leaf_field_ok(t, n as int, "value"@)),
        decreases t.nodes@.len() - n, 1int,
    {
        assert_check(t, n, "cast_expression")?;
        let ty = c_by_n(t, n, "type")?;
        let type_ = Type::new(t, ty)?;
        let v = c_by_n(t, n, "value")?;
        let value = Expression::new(t, v)?;
        Ok(CastExpression { type_, value, node_context: NodeContext::with_punctuation(t, n) })
    }

    pub fn build<'a>(&self, b: &'a DocBuilder<'a>, cm: &CommentMap, st: &mut BuildState) -> (r: DocRef<'a>)
        ensures
            final(st).printed@.len() == old(st).printed@.len(),
            exists|body: Seq<DocRef<'a>>| #[trigger] wraps(*r, body) && cast_layout(body),
            exists|body: Seq<DocRef<'a>>| #[trigger] wraps(*r, body) && cast_layout(body) && cast_operands(body, *self, b.config),
        decreases self,
    {
        let o = b.txt("(");
        let ty = self.type_.build(b, cm, st);
        let c = b.txt_(")");
        let v = self.value.build(b, cm, st);
        let mut body: Vec<DocRef<'a>> = Vec::new();
        body.push(o);
        body.push(ty);
        body.push(c);
        body.push(v);
        let ghost body_v = body@;
        assert(cast_layout(body_v));
        assert(cast_operands(body_v, *self, b.config));
        let r = with_comments_and_punc(b, cm, st, &self.node_context, body);
        assert(wraps(*r, body_v));
        r
    }
}

/// The value, ` instanceof `, the type.
pub open spec fn instanceof_layout<'a>(body: Seq<DocRef<'a>>) -> bool {
    body.len() == 3 && is_text(*body[1], seq![' '] + "instanceof"@ + seq![' '])
}

/// The tested value before `instanceof`, the type after it.
pub open spec fn instanceof_operands<'a>(body: Seq<DocRef<'a>>, s: InstanceOfExpression, cfg: PrettyConfig) -> bool
    decreases s,
{
    &&& crate::enum_def::expression_doc(*body[0], s.left, cfg)
    &&& (s.right matches crate::enum_def::Type::Unannotated(u) && crate::enum_def::unannotated_type_doc(*body[2], u))
}

/// `x instanceof Type`
pub struct InstanceOfExpression {
    pub left: Expression,
    pub right: Type,
    pub node_context: NodeContext,
}

impl InstanceOfExpression {
    pub fn new(t: &SyntaxTree, n: usize) -> (r: Result<Self, String>)
        requires
            t.wf(),
            t.valid(n as int),
        ensures
            r matches Ok(v) ==> (v.right matches crate::enum_def::Type::Unannotated(u) && crate::enum_def::type_tied(t, crate::enum_def::field_child(t, n as int, "right"@), u)),
            r matches Ok(v) ==> crate::enum_def::expr_tied(t, crate::enum_def::field_child(t, n as int, "left"@), v.left),
            r matches Ok(v) ==> v.node_context.id == n && t.nodes@[n as int].kind@ == "instanceof_expression"@,
            leaf_field(t, n as int, "left"@) ==> (r is Ok <==> t.nodes@[n as int].kind@ == "instanceof_expression"@
                && leaf_field_ok(t, n as int, "left"@) && type_field_ok(t, n as int, "right"@)),
        decreases t.nodes@.len() - n, 1int,
    {
        assert_check(t, n, "instanceof_expression")?;
        let l = c_by_n(t, n, "left")?;
        let left = Expression::new(t, l)?;
        let rc = c_by_n(t, n, "right")?;
        let right = Type::new(t, rc)?;
        Ok(InstanceOfExpression { left, right, node_context: NodeContext::with_punctuation(t, n) })
    }

    pub fn build<'a>(&self, b: &'a DocBuilder<'a>, cm: &CommentMap, st: &mut BuildState) -> (r: DocRef<'a>)
        ensures
            final(st).printed@.len() == old(st).printed@.len(),
            exists|body: Seq<DocRef<'a>>| #[trigger] wraps(*r, body) && instanceof_layout(body),
            exists|body: Seq<DocRef<'a>>| #[trigger] wraps(*r, body) && instanceof_layout(body) && instanceof_operands(body, *self, b.config),
        decreases self,
    {
        let l = self.left.build(b, cm, st);
        let w = b._txt_("instanceof");
        let r = self.right.build(b, cm, st);
        let mut body: Vec<DocRef<'a>> = Vec::new();
        body.push(l);
        body.push(w);
        body.push(r);
        let ghost body_v = body@;
        assert(instanceof_layout(body_v));
        assert(instanceof_operands(body_v, *self, b.config));
        let r = with_comments_and_punc(b, cm, st, &self.node_context, body);
        assert(wraps(*r, body_v));
        r
    }
}

/// How a member is reached: `?.` or `.`.
pub enum PropertyNavigation {
    Safe(SafeNavigationOperator),
    Dot,
}

impl PropertyNavigation {
    /// The navigation of a node: safe when it has a `safe_navigation_operator`
    /// child.
    pub fn of(t: &SyntaxTree, n: usize) -> (r: Result<Self, String>)
        requires
            t.wf(),
            t.valid(n as int),
        ensures
            r matches Ok(p) ==> (p is Safe <==> crate::accessor::kind_children(t, n as int, "safe_navigation_operator"@).len() > 0),
            r is Ok,
    {
        proof {
            crate::accessor::lemma_kind_children_kind(t, n as int, "safe_navigation_operator"@);
        }
        match try_c_by_k(t, n, "safe_navigation_operator") {
            Some(c) => Ok(PropertyNavigation::Safe(SafeNavigationOperator::new(t, c)?)),
            None => Ok(PropertyNavigation::Dot),
        }
    }

    pub fn build<'a>(&self, b: &'a DocBuilder<'a>, cm: &CommentMap, st: &mut BuildState) -> (r: DocRef<'a>)
        ensures
            final(st).printed@.len() == old(st).printed@.len(),
            self is Dot ==> is_text(*r, seq!['.']),
    {
        match self {
            PropertyNavigation::Safe(s) => s.build(b, cm, st),
            PropertyNavigation::Dot => {
                let r = b.txt(".");
                proof {
                    reveal_strlit(".");
                    assert("."@ =~= seq!['.']);
                }
                r
            },
        }
    }
}

/// What a method is called on.
pub enum ObjectExpression {
    Primary(Box<PrimaryExpression>),
    Super(Super),
}

impl ObjectExpression {
    pub fn new(t: &SyntaxTree, n: usize) -> (r: Result<Self, String>)
        requires
            t.wf(),
            t.valid(n as int),
        ensures
            r matches Ok(o) ==> (o is Super <==> t.nodes@[n as int].kind@ == "super"@),
            crate::enum_def::is_primary_kind(t.nodes@[n as int].kind@) && crate::enum_def::expr_reads(t, n as int) ==> r is Ok,
        decreases t.nodes@.len() - n, 6int,
    {
        proof {
            crate::enum_def::lemma_composite_expression_kinds(t.nodes@[n as int].kind@);
        }
        if kind_is(t, n, "super") {
            Ok(ObjectExpression::Super(Super::new(t, n)?))
        } else {
            Ok(ObjectExpression::Primary(Box::new(PrimaryExpression::new(t, n)?)))
        }
    }

    pub fn build<'a>(&self, b: &'a DocBuilder<'a>, cm: &CommentMap, st: &mut BuildState) -> (r: DocRef<'a>)
        ensures
            final(st).printed@.len() == old(st).printed@.len(),
            *self matches ObjectExpression::Primary(p) ==> crate::enum_def::primary_doc(*r, *p, b.config),
            self is Super ==> wraps_text(*r, "super"@),
        decreases self,
    {
        match self {
            ObjectExpression::Primary(p) => p.build(b, cm, st),
            ObjectExpression::Super(s) => s.build(b, cm, st),
        }
    }
}

/// In a chain, a call or an access may break before its navigation.
pub open spec fn chain_breaks(context: Option<ChainingContext>) -> bool {
    context matches Some(c) && (c.is_parent_a_chaining_node || c.is_top_most_in_a_chain)
}

/// The top-most call or access of a chain groups and indents the chain.
pub open spec fn chain_top(context: Option<ChainingContext>) -> bool {
    context matches Some(c) && c.is_top_most_in_a_chain
}

/// The parts of a call or access on an object: the object, a line that
/// breaks only when the group does not fit where the chain may break, the
/// navigation (`.` for a dot), then `rest` parts.
pub open spec fn chain_parts_ok<'a>(p: Seq<DocRef<'a>>, context: Option<ChainingContext>, nav: PropertyNavigation, rest: nat) -> bool {
    let off = if chain_breaks(context) {
        1int
    } else {
        0int
    };
    &&& p.len() == 2 + off + rest
    &&& chain_breaks(context) ==> *p[1] == Doc::Maybeline
    &&& nav is Dot ==> is_text(*p[1 + off], seq!['.'])
}

/// The parts of a call or access on an object, grouped and indented at the
/// top of a chain, else concatenated.
pub open spec fn chained<'a>(d: Doc<'a>, context: Option<ChainingContext>, nav: PropertyNavigation, rest: nat) -> bool {
    if chain_top(context) {
        &&& d is Choice
        &&& *d->Choice_0 == Doc::Flat(d->Choice_1)
        &&& *d->Choice_1 is Indent
        &&& inner(*d->Choice_1) is Some
        &&& *inner(*d->Choice_1).unwrap() is Concat
        &&& chain_parts_ok(concat_parts(*inner(*d->Choice_1).unwrap()), context, nav, rest)
    } else {
        d is Concat && chain_parts_ok(concat_parts(d), context, nav, rest)
    }
}

/// The parts of a call on an object, where `chained` puts them.
pub open spec fn chain_parts_of<'a>(d: Doc<'a>, context: Option<ChainingContext>) -> Seq<DocRef<'a>> {
    if chain_top(context) {
        concat_parts(*inner(*d->Choice_1).unwrap())
    } else {
        concat_parts(d)
    }
}

/// The name and the arguments of a plain call; the chained parts of a call
/// on an object, the type arguments among them where there are any, ending
/// with the call's name and its arguments. Each argument is laid out as its
/// kind lays it out.
pub open spec fn method_kind_layout<'a>(d: Doc<'a>, k: MethodInvocationKind, cfg: PrettyConfig) -> bool
    decreases k,
{
    match k {
        MethodInvocationKind::Simple { name, arguments } => d is Concat && concat_parts(d).len() == 2 && wraps_text(
            *concat_parts(d)[0],
            name.value@,
        ) && argument_list_doc(*concat_parts(d)[1], arguments, cfg),
        MethodInvocationKind::Complex { object, property_navigation, type_arguments, context, name, arguments } => chained(
            d,
            context,
            property_navigation,
            if type_arguments is Some {
                3nat
            } else {
                2nat
            },
        ) && ({
            let p = chain_parts_of(d, context);
            &&& object matches ObjectExpression::Primary(x) ==> crate::enum_def::primary_doc(*p[0], *x, cfg)
            &&& wraps_text(*p[p.len() - 2], name.value@)
            &&& argument_list_doc(*p[p.len() - 1], arguments, cfg)
        }),
    }
}

/// A call: `name(args)` alone, or on an object, perhaps in a chain of calls.
pub enum MethodInvocationKind {
    Simple { name: ValueNode, arguments: ArgumentList },
    Complex {
        object: ObjectExpression,
        property_navigation: PropertyNavigation,
        type_arguments: Option<TypeArguments>,
        name: ValueNode,
        arguments: ArgumentList,
        context: Option<ChainingContext>,
    },
}

impl MethodInvocationKind {
    /// A call on an object: the object, then, in a chain, a line that breaks
    /// before the navigation when the chain does not fit; the top of a chain
    /// groups and indents the whole chain.
    pub fn build<'a>(&self, b: &'a DocBuilder<'a>, cm: &CommentMap, st: &mut BuildState) -> (r: DocRef<'a>)
        ensures
            final(st).printed@.len() == old(st).printed@.len(),
            method_kind_layout(*r, *self, b.config),
        decreases self,
    {
        match self {
            MethodInvocationKind::Simple { name, arguments } => {
                let n = name.build(b, cm, st);
                let a = arguments.build(b, cm, st);
                let mut parts: Vec<DocRef<'a>> = Vec::new();
                parts.push(n);
                parts.push(a);
                b.concat(parts)
            },
            MethodInvocationKind::Complex {
                object,
                property_navigation,
                type_arguments,
                name,
                arguments,
                context,
            } => {
                let mut docs: Vec<DocRef<'a>> = Vec::new();
                let o = object.build(b, cm, st);
                docs.push(o);
                match context {
                    Some(c) => {
                        if c.is_parent_a_chaining_node || c.is_top_most_in_a_chain {
                            let m = b.maybeline();
                            docs.push(m);
                        }
                    },
                    None => {},
                }
                let ghost off: int = if chain_breaks(*context) { 1 } else { 0 };
                assert(docs@.len() == 1 + off);
                assert(chain_breaks(*context) ==> *docs@[1] == Doc::Maybeline);
                let p = property_navigation.build(b, cm, st);
                docs.push(p);
                assert(docs@[1 + off] == p);
                match type_arguments {
                    Some(ta) => {
                        let d = ta.build(b, cm, st);
                        docs.push(d);
                    },
                    None => {},
                }
                let n = name.build(b, cm, st);
                docs.push(n);
                let a = arguments.build(b, cm, st);
                docs.push(a);
                assert(chain_parts_ok(docs@, *context, *property_navigation, if type_arguments is Some { 3nat } else { 2nat }));
                match context {
                    Some(c) => {
                        if c.is_top_most_in_a_chain {
                            return b.group_indent_concat(docs);
                        }
                        b.concat(docs)
                    },
                    None => b.concat(docs),
                }
            },
        }
    }
}

/// The call, laid out as its kind says.
pub open spec fn method_invocation_layout<'a>(body: Seq<DocRef<'a>>, m: MethodInvocation, cfg: PrettyConfig) -> bool
    decreases m,
{
    body.len() == 1 && method_kind_layout(*body[0], m.kind, cfg)
}

/// A method call.
pub struct MethodInvocation {
    pub kind: MethodInvocationKind,
    pub node_context: NodeContext,
}

impl MethodInvocation {
    pub fn new(t: &SyntaxTree, n: usize) -> (r: Result<Self, String>)
        requires
            t.wf(),
            t.valid(n as int),
        ensures
            r matches Ok(v) ==> crate::enum_def::invocation_tied(t, n as int, v.kind),
            r matches Ok(v) ==> v.node_context.id == n && t.nodes@[n as int].kind@ == "method_invocation"@
                && (v.kind is Complex <==> crate::accessor::field_children(t, n as int, "object"@).len() > 0),
            crate::accessor::field_children(t, n as int, "object"@).len() == 0
                && first_field_if(t, n as int, "arguments"@, |c: int| holds_leaf_expressions(t, c))
                ==> (r is Ok <==> t.nodes@[n as int].kind@ == "method_invocation"@
                && readable_first(t, crate::accessor::field_children(t, n as int, "name"@))
                && first_field_is(t, n as int, "arguments"@, |c: int| leaf_expressions_ok(t, c))),
            t.nodes@[n as int].kind@ == "method_invocation"@ && crate::enum_def::expr_reads(t, n as int) ==> r is Ok,
        decreases t.nodes@.len() - n, 1int,
    {
        proof {
            crate::enum_def::lemma_composite_expression_kinds(t.nodes@[n as int].kind@);
            let o = crate::accessor::field_children(t, n as int, "object"@);
            if o.len() > 0 {
                crate::enum_def::lemma_composite_expression_kinds(t.nodes@[o[0] as int].kind@);
            }
        }
        assert_check(t, n, "method_invocation")?;
        let nm = c_by_n(t, n, "name")?;
        let name = ValueNode::new(t, nm)?;
        let ar = c_by_n(t, n, "arguments")?;
        let arguments = ArgumentList::new(t, ar)?;
        let kind = match try_c_by_n(t, n, "object") {
            Some(obj) => {
                let object = ObjectExpression::new(t, obj)?;
                let property_navigation = PropertyNavigation::of(t, n)?;
                let type_arguments = match try_c_by_k(t, n, "type_arguments") {
                    Some(a) => Some(TypeArguments::new(t, a)?),
                    None => None,
                };
                let context = crate::utility::build_chaining_context(t, n)?;
                MethodInvocationKind::Complex {
                    object,
                    property_navigation,
                    type_arguments,
                    name,
                    arguments,
                    context,
                }
            },
            None => MethodInvocationKind::Simple { name, arguments },
        };
        Ok(MethodInvocation { kind, node_context: NodeContext::with_punctuation(t, n) })
    }

    pub fn build<'a>(&self, b: &'a DocBuilder<'a>, cm: &CommentMap, st: &mut BuildState) -> (r: DocRef<'a>)
        ensures
            final(st).printed@.len() == old(st).printed@.len(),
            exists|body: Seq<DocRef<'a>>| #[trigger] wraps(*r, body) && method_invocation_layout(body, *self, b.config),
        decreases self,
    {
        let k = self.kind.build(b, cm, st);
        let mut body: Vec<DocRef<'a>> = Vec::new();
        body.push(k);
        let ghost body_v = body@;
        assert(method_invocation_layout(body_v, *self, b.config));
        let r = with_comments_and_punc(b, cm, st, &self.node_context, body);
        assert(wraps(*r, body_v));
        r
    }
}

/// The object of a field access.
pub enum MethodObject {
    Super(Super),
    Primary(Box<PrimaryExpression>),
}

/// The field of a field access.
pub enum FieldOption {
    This(This),
    Identifier(ValueNode),
}

/// The chained parts of the access: object, navigation, field.
pub open spec fn field_access_layout<'a>(body: Seq<DocRef<'a>>, f: FieldAccess) -> bool {
    &&& body.len() == 1 && chained(*body[0], f.context, f.property_navigation, 1)
    &&& ({
        let p = chain_parts_of(*body[0], f.context);
        f.field matches FieldOption::Identifier(x) ==> wraps_text(*p[p.len() - 1], x.value@)
    })
}

/// The document of a field access: laid out as `field_access_layout` says,
/// its object laid out as its kind lays it out.
pub open spec fn field_access_doc<'a>(d: Doc<'a>, f: FieldAccess, cfg: PrettyConfig) -> bool
    decreases f,
{
    exists|body: Seq<DocRef<'a>>|
        #[trigger] wraps(d, body) && field_access_layout(body, f) && (f.object matches MethodObject::Primary(x)
            ==> crate::enum_def::primary_doc(*chain_parts_of(*body[0], f.context)[0], *x, cfg))
}

/// `object.field`, in a chain like a call.
pub struct FieldAccess {
    pub object: MethodObject,
    pub property_navigation: PropertyNavigation,
    pub field: FieldOption,
    pub context: Option<ChainingContext>,
    pub node_context: NodeContext,
}

impl FieldAccess {
    pub fn new(t: &SyntaxTree, n: usize) -> (r: Result<Self, String>)
        requires
            t.wf(),
            t.valid(n as int),
        ensures
            r matches Ok(v) ==> crate::enum_def::field_access_tied(t, n as int, v),
            r matches Ok(v) ==> v.node_context.id == n && t.nodes@[n as int].kind@ == "field_access"@,
            leaf_field(t, n as int, "object"@) && first_field_if(t, n as int, "field"@, |c: int| t.nodes@[c].kind@ == "identifier"@)
                ==> (r is Ok <==> t.nodes@[n as int].kind@ == "field_access"@ && leaf_field_ok(t, n as int, "object"@)
                && readable_first(t, crate::accessor::field_children(t, n as int, "field"@))
                && t.nodes@[n as int].parent is Some),
            t.nodes@[n as int].kind@ == "field_access"@ && crate::enum_def::expr_reads(t, n as int) ==> r is Ok,
        decreases t.nodes@.len() - n, 1int,
    {
        proof {
            crate::enum_def::lemma_composite_expression_kinds(t.nodes@[n as int].kind@);
            let o = crate::accessor::field_children(t, n as int, "object"@);
            if o.len() > 0 {
                crate::enum_def::lemma_composite_expression_kinds(t.nodes@[o[0] as int].kind@);
            }

            reveal_strlit("super");
            reveal_strlit("int");
            reveal_strlit("decimal_floating_point_literal");
            reveal_strlit("boolean");
            reveal_strlit("null_literal");
            reveal_strlit("string_literal");
            reveal_strlit("identifier");
            reveal_strlit("this");
            assert("super"@.len() != "int"@.len());
            assert("super"@.len() != "decimal_floating_point_literal"@.len());
            assert("super"@.len() != "boolean"@.len());
            assert("super"@.len() != "null_literal"@.len());
            assert("super"@.len() != "string_literal"@.len());
            assert("super"@.len() != "identifier"@.len());
            assert("super"@.len() != "this"@.len());
            assert("identifier"@.len() != "this"@.len());
        }
        assert_check(t, n, "field_access")?;
        let o = c_by_n(t, n, "object")?;
        let object = if kind_is(t, o, "super") {
            MethodObject::Super(Super::new(t, o)?)
        } else {
            MethodObject::Primary(Box::new(PrimaryExpression::new(t, o)?))
        };
        let property_navigation = PropertyNavigation::of(t, n)?;
        let f = c_by_n(t, n, "field")?;
        let field = if kind_is(t, f, "this") {
            FieldOption::This(This::new(t, f)?)
        } else {
            FieldOption::Identifier(ValueNode::new(t, f)?)
        };
        let context = crate::utility::build_chaining_context(t, n)?;
        Ok(FieldAccess { object, property_navigation, field, context, node_context: NodeContext::with_punctuation(t, n) })
    }

    pub fn build<'a>(&self, b: &'a DocBuilder<'a>, cm: &CommentMap, st: &mut BuildState) -> (r: DocRef<'a>)
        ensures
            final(st).printed@.len() == old(st).printed@.len(),
            field_access_doc(*r, *self, b.config),
        decreases self,
    {
        let mut docs: Vec<DocRef<'a>> = Vec::new();
        let o = match &self.object {
            MethodObject::Super(s) => s.build(b, cm, st),
            MethodObject::Primary(p) => p.build(b, cm, st),
        };
        docs.push(o);
        let mut top = false;
        match &self.context {
            Some(c) => {
                if c.is_parent_a_chaining_node || c.is_top_most_in_a_chain {
                    let m = b.maybeline();
                    docs.push(m);
                }
                top = c.is_top_most_in_a_chain;
            },
            None => {},
        }
        let ghost off: int = if chain_breaks(self.context) { 1 } else { 0 };
        assert(docs@.len() == 1 + off);
        assert(chain_breaks(self.context) ==> *docs@[1] == Doc::Maybeline);
        assert(top == chain_top(self.context));
        let p = self.property_navigation.build(b, cm, st);
        docs.push(p);
        assert(docs@[1 + off] == p);
        let f = match &self.field {
            FieldOption::This(x) => x.build(b, cm, st),
            FieldOption::Identifier(x) => x.build(b, cm, st),
        };
        docs.push(f);
        assert(chain_parts_ok(docs@, self.context, self.property_navigation, 1));
        let d = if top {
            b.group_indent_concat(docs)
        } else {
            b.concat(docs)
        };
        let mut body: Vec<DocRef<'a>> = Vec::new();
        body.push(d);
        let ghost body_v = body@;
        assert(field_access_layout(body_v, *self));
        let r = with_comments_and_punc(b, cm, st, &self.node_context, body);
        assert(wraps(*r, body_v));
        r
    }
}

/// The array, `[`, the index, `]`.
pub open spec fn array_access_layout<'a>(body: Seq<DocRef<'a>>, s: ArrayAccess, cfg: PrettyConfig) -> bool
    decreases s,
{
    &&& body.len() == 4 && is_text(*body[1], "["@) && is_text(*body[3], "]"@)
    &&& crate::enum_def::primary_doc(*body[0], s.array, cfg)
    &&& crate::enum_def::expression_doc(*body[2], s.index, cfg)
}

/// `array[index]`
pub struct ArrayAccess {
    pub array: PrimaryExpression,
    pub index: Expression,
    pub node_context: NodeContext,
}

impl ArrayAccess {
    pub fn new(t: &SyntaxTree, n: usize) -> (r: Result<Self, String>)
        requires
            t.wf(),
            t.valid(n as int),
        ensures
            r matches Ok(v) ==> crate::enum_def::primary_tied(t, crate::enum_def::field_child(t, n as int, "array"@), v.array) && crate::enum_def::expr_tied(t, crate::enum_def::field_child(t, n as int, "index"@), v.index),
            r matches Ok(v) ==> v.node_context.id == n && t.nodes@[n as int].kind@ == "array_access"@,
            leaf_field(t, n as int, "array"@) && leaf_field(t, n as int, "index"@) ==> (r is Ok <==> t.nodes@[n as int].kind@
                == "array_access"@ && leaf_field_ok(t, n as int, "array"@) && leaf_field_ok(t, n as int, "index"@)),
            t.nodes@[n as int].kind@ == "array_access"@ && crate::enum_def::expr_reads(t, n as int) ==> r is Ok,
        decreases t.nodes@.len() - n, 1int,
    {
        proof {
            crate::enum_def::lemma_composite_expression_kinds(t.nodes@[n as int].kind@);
        }
        assert_check(t, n, "array_access")?;
        let a = c_by_n(t, n, "array")?;
        let array = PrimaryExpression::new(t, a)?;
        let i = c_by_n(t, n, "index")?;
        let index = Expression::new(t, i)?;
        Ok(ArrayAccess { array, index, node_context: NodeContext::with_punctuation(t, n) })
    }

    pub fn build<'a>(&self, b: &'a DocBuilder<'a>, cm: &CommentMap, st: &mut BuildState) -> (r: DocRef<'a>)
        ensures
            final(st).printed@.len() == old(st).printed@.len(),
            exists|body: Seq<DocRef<'a>>| #[trigger] wraps(*r, body) && array_access_layout(body, *self, b.config),
        decreases self,
    {
        let a = self.array.build(b, cm, st);
        let o = b.txt("[");
        let i = self.index.build(b, cm, st);
        let c = b.txt("]");
        let mut body: Vec<DocRef<'a>> = Vec::new();
        body.push(a);
        body.push(o);
        body.push(i);
        body.push(c);
        let ghost body_v = body@;
        assert(array_access_layout(body_v, *self, b.config));
        let r = with_comments_and_punc(b, cm, st, &self.node_context, body);
        assert(wraps(*r, body_v));
        r
    }
}

/// `[`, the size, `]`.
pub open spec fn dimensions_expr_layout<'a>(body: Seq<DocRef<'a>>) -> bool {
    body.len() == 3 && is_text(*body[0], "["@) && is_text(*body[2], "]"@)
}

/// `[size]` in an array creation.
pub struct DimensionsExpr {
    pub exp: Expression,
    pub node_context: NodeContext,
}

impl DimensionsExpr {
    pub fn new(t: &SyntaxTree, n: usize) -> (r: Result<Self, String>)
        requires
            t.wf(),
            t.valid(n as int),
        ensures
            r matches Ok(v) ==> v.node_context.id == n && t.nodes@[n as int].kind@ == "dimensions_expr"@,
        decreases t.nodes@.len() - n, 1int,
    {
        assert_check(t, n, "dimensions_expr")?;
        let c = first_c(t, n)?;
        let exp = Expression::new(t, c)?;
        Ok(DimensionsExpr { exp, node_context: NodeContext::with_punctuation(t, n) })
    }

    pub fn build<'a>(&self, b: &'a DocBuilder<'a>, cm: &CommentMap, st: &mut BuildState) -> (r: DocRef<'a>)
        ensures
            final(st).printed@.len() == old(st).printed@.len(),
            exists|body: Seq<DocRef<'a>>| #[trigger] wraps(*r, body) && dimensions_expr_layout(body),
        decreases self,
    {
        let o = b.txt("[");
        let e = self.exp.build(b, cm, st);
        let c = b.txt("]");
        let mut body: Vec<DocRef<'a>> = Vec::new();
        body.push(o);
        body.push(e);
        body.push(c);
        let ghost body_v = body@;
        assert(dimensions_expr_layout(body_v));
        let r = with_comments_and_punc(b, cm, st, &self.node_context, body);
        assert(wraps(*r, body_v));
        r
    }
}

/// Appends the documents of array sizes.
fn build_dimensions_exprs<'a>(list: &Vec<DimensionsExpr>, b: &'a DocBuilder<'a>, cm: &CommentMap, st: &mut BuildState, out: &mut Vec<DocRef<'a>>)
    ensures
        final(st).printed@.len() == old(st).printed@.len(),
        final(out)@.len() == old(out)@.len() + list@.len(),
        final(out)@.subrange(0, old(out)@.len() as int) == old(out)@,
    decreases list,
{
    let ghost len0 = st.printed@.len();
    let ghost out0 = out@;
    let mut i: usize = 0;
    while i < list.len()
        invariant
            st.printed@.len() == len0,
            i <= list@.len(),
            out@.len() == out0.len() + i,
            out@.subrange(0, out0.len() as int) == out0,
        decreases list@.len() - i,
    {
        let d = list[i].build(b, cm, st);
        out.push(d);
        i = i + 1;
    }
}

/// The elements between `{` and `}`, on one line when that fits.
pub open spec fn array_initializer_layout<'a>(body: Seq<DocRef<'a>>, s: ArrayInitializer, cfg: PrettyConfig) -> bool {
    body.len() == 1 && is_surrounded(*body[0], s.initializers@.len(), "{"@, "}"@, true, cfg.indent_size)
}

/// `{a, b}`
pub struct ArrayInitializer {
    pub initializers: Vec<VariableInitializer>,
    pub node_context: NodeContext,
}

impl ArrayInitializer {
    pub fn new(t: &SyntaxTree, n: usize) -> (r: Result<Self, String>)
        requires
            t.wf(),
            t.valid(n as int),
        ensures
            r matches Ok(v) ==> v.node_context.id == n && t.nodes@[n as int].kind@ == "array_initializer"@,
            crate::accessor::code_children(t, n as int).len() == 0 ==> (r is Ok <==> t.nodes@[n as int].kind@ == "array_initializer"@),
            r matches Ok(v) ==> v.initializers@.len() == crate::accessor::code_children(t, n as int).len(),
        decreases t.nodes@.len() - n, 1int,
    {
        assert_check(t, n, "array_initializer")?;
        let cs = children_vec(t, n);
        let mut initializers: Vec<VariableInitializer> = Vec::new();
        let mut i: usize = 0;
        while i < cs.len()
            invariant
                t.wf(),
                t.valid(n as int),
                cs@ == crate::accessor::code_children(t, n as int),
                initializers@.len() == i,
                i <= cs@.len(),
                forall|j: int| 0 <= j < cs@.len() ==> n < #[trigger] cs@[j] < t.nodes@.len(),
            decreases cs@.len() - i,
        {
            let v = VariableInitializer::new(t, cs[i])?;
            initializers.push(v);
            i = i + 1;
        }
        Ok(ArrayInitializer { initializers, node_context: NodeContext::with_punctuation(t, n) })
    }

    pub fn build<'a>(&self, b: &'a DocBuilder<'a>, cm: &CommentMap, st: &mut BuildState) -> (r: DocRef<'a>)
        ensures
            final(st).printed@.len() == old(st).printed@.len(),
            exists|body: Seq<DocRef<'a>>| #[trigger] wraps(*r, body) && array_initializer_layout(body, *self, b.config),
        decreases self,
    {
        let ghost len0 = st.printed@.len();
        let mut docs: Vec<DocRef<'a>> = Vec::new();
        let mut i: usize = 0;
        while i < self.initializers.len()
            invariant
                st.printed@.len() == len0,
                i <= self.initializers@.len(),
                docs@.len() == i,
            decreases self.initializers@.len() - i,
        {
            let d = self.initializers[i].build(b, cm, st);
            docs.push(d);
            i = i + 1;
        }
        let g = surround_group(b, docs.as_slice(), "{", "}", true);
        let mut body: Vec<DocRef<'a>> = Vec::new();
        body.push(g);
        let ghost body_v = body@;
        assert(array_initializer_layout(body_v, *self, b.config));
        let r = with_comments_and_punc(b, cm, st, &self.node_context, body);
        assert(wraps(*r, body_v));
        r
    }
}

/// The shapes of an array creation: sizes, or values, or both.
pub enum ArrayCreationVariant {
    DD { dimensions_exprs: Vec<DimensionsExpr>, dimensions: Option<Dimensions> },
    DV { dimensions: Dimensions, value: ArrayInitializer },
    OnlyV { value: ArrayInitializer },
}

/// `new `, the type, then the sizes (and a space and the extra dimensions),
/// or the dimensions and the values, or the values.
pub open spec fn array_creation_layout<'a>(body: Seq<DocRef<'a>>, s: ArrayCreationExpression) -> bool {
    &&& body.len() >= 2
    &&& is_text(*body[0], "new"@ + seq![' '])
    &&& match s.variant {
        ArrayCreationVariant::OnlyV { .. } => body.len() == 3,
        ArrayCreationVariant::DV { .. } => body.len() == 4,
        ArrayCreationVariant::DD { dimensions_exprs, dimensions } => {
            &&& body.len() == 2 + dimensions_exprs@.len() + if dimensions is Some { 2int } else { 0int }
            &&& dimensions is Some ==> is_text(*body[body.len() - 2], seq![' '])
        },
    }
}

/// `new Type[size]`, `new Type[]{a, b}`, `new Type{a, b}`
pub struct ArrayCreationExpression {
    pub type_: SimpleType,
    pub variant: ArrayCreationVariant,
    pub node_context: NodeContext,
}

impl ArrayCreationExpression {
    pub fn new(t: &SyntaxTree, n: usize) -> (r: Result<Self, String>)
        requires
            t.wf(),
            t.valid(n as int),
        ensures
            r matches Ok(v) ==> v.node_context.id == n && t.nodes@[n as int].kind@ == "array_creation_expression"@,
            crate::accessor::field_children(t, n as int, "dimensions"@).len() == 0
                && first_field_is(t, n as int, "value"@, |c: int| crate::accessor::code_children(t, c).len() == 0)
                ==> (r is Ok <==> t.nodes@[n as int].kind@ == "array_creation_expression"@
                && first_field_is(t, n as int, "value"@, |c: int| t.nodes@[c].kind@ == "array_initializer"@)
                && first_field_is(t, n as int, "type"@, |c: int| simple_type_ok(t, c))),
            r matches Ok(v) ==> (v.variant is DD <==> crate::accessor::field_children(t, n as int, "value"@).len() == 0),
        decreases t.nodes@.len() - n, 1int,
    {
        assert_check(t, n, "array_creation_expression")?;
        let variant = match try_c_by_n(t, n, "value") {
            None => {
                let cs = cs_by_k(t, n, "dimensions_expr")?;
                let mut dimensions_exprs: Vec<DimensionsExpr> = Vec::new();
                let mut i: usize = 0;
                while i < cs.len()
                    invariant
                        t.wf(),
                        t.valid(n as int),
                        i <= cs@.len(),
                        crate::accessor::field_children(t, n as int, "value"@).len() == 0,
                        forall|j: int| 0 <= j < cs@.len() ==> n < #[trigger] cs@[j] < t.nodes@.len(),
                    decreases cs@.len() - i,
                {
                    let d = DimensionsExpr::new(t, cs[i])?;
                    dimensions_exprs.push(d);
                    i = i + 1;
                }
                let dimensions = match try_c_by_k(t, n, "dimensions") {
                    Some(d) => Some(Dimensions::new(t, d)?),
                    None => None,
                };
                ArrayCreationVariant::DD { dimensions_exprs, dimensions }
            },
            Some(v) => match try_c_by_n(t, n, "dimensions") {
                None => ArrayCreationVariant::OnlyV { value: ArrayInitializer::new(t, v)? },
                Some(d) => ArrayCreationVariant::DV {
                    value: ArrayInitializer::new(t, v)?,
                    dimensions: Dimensions::new(t, d)?,
                },
            },
        };
        let ty = c_by_n(t, n, "type")?;
        let type_ = SimpleType::new(t, ty)?;
        Ok(ArrayCreationExpression { type_, variant, node_context: NodeContext::with_punctuation(t, n) })
    }

    pub fn build<'a>(&self, b: &'a DocBuilder<'a>, cm: &CommentMap, st: &mut BuildState) -> (r: DocRef<'a>)
        ensures
            final(st).printed@.len() == old(st).printed@.len(),
            exists|body: Seq<DocRef<'a>>| #[trigger] wraps(*r, body) && array_creation_layout(body, *self),
        decreases self,
    {
        proof {
            reveal_strlit(" ");
            assert(" "@ =~= seq![' ']);
        }
        let mut body: Vec<DocRef<'a>> = Vec::new();
        let w = b.txt_("new");
        body.push(w);
        let ty = self.type_.build(b, cm, st);
        body.push(ty);
        match &self.variant {
            ArrayCreationVariant::OnlyV { value } => {
                let v = value.build(b, cm, st);
                body.push(v);
            },
            ArrayCreationVariant::DD { dimensions_exprs, dimensions } => {
                let ghost before = body@;
                build_dimensions_exprs(dimensions_exprs, b, cm, st, &mut body);
                assert(body@[0] == before[0]) by {
                    assert(body@.subrange(0, 2)[0] == body@[0]);
                }
                match dimensions {
                    Some(d) => {
                        let s = b.txt(" ");
                        body.push(s);
                        let x = d.build(b, cm, st);
                        body.push(x);
                    },
                    None => {},
                }
            },
            ArrayCreationVariant::DV { dimensions, value } => {
                let d = dimensions.build(b, cm, st);
                body.push(d);
                let v = value.build(b, cm, st);
                body.push(v);
            },
        }
        let ghost body_v = body@;
        assert(array_creation_layout(body_v, *self));
        let r = with_comments_and_punc(b, cm, st, &self.node_context, body);
        assert(wraps(*r, body_v));
        r
    }
}

/// `Package.Version.` and the version, or `Request` when none is named.
pub open spec fn version_layout<'a>(body: Seq<DocRef<'a>>, s: VersionExpression) -> bool {
    &&& body.len() == 2
    &&& is_text(*body[0], "Package.Version."@)
    &&& s.version_number is None ==> is_text(*body[1], "Request"@)
}

/// `Package.Version.Request` or `Package.Version.1.0`
pub struct VersionExpression {
    pub version_number: Option<ValueNode>,
    pub node_context: NodeContext,
}

impl VersionExpression {
    pub fn new(t: &SyntaxTree, n: usize) -> (r: Result<Self, String>)
        requires
            t.wf(),
            t.valid(n as int),
        ensures
            r matches Ok(v) ==> v.node_context.id == n && t.nodes@[n as int].kind@ == "version_expression"@,
            r is Ok <==> t.nodes@[n as int].kind@ == "version_expression"@ && readable_if_any(
                t,
                crate::accessor::field_children(t, n as int, "version_num"@),
            ),
            r matches Ok(v) ==> (v.version_number is Some <==> crate::accessor::field_children(t, n as int, "version_num"@).len() > 0),
            r matches Ok(v) ==> (v.version_number matches Some(x) ==> read_from(
                t,
                crate::accessor::field_children(t, n as int, "version_num"@)[0] as int,
                x.node_context.id,
                x.value,
            )),
    {
        assert_check(t, n, "version_expression")?;
        let version_number = match try_c_by_n(t, n, "version_num") {
            Some(c) => Some(ValueNode::new(t, c)?),
            None => None,
        };
        Ok(VersionExpression { version_number, node_context: NodeContext::with_punctuation(t, n) })
    }

    pub fn build<'a>(&self, b: &'a DocBuilder<'a>, cm: &CommentMap, st: &mut BuildState) -> (r: DocRef<'a>)
        ensures
            final(st).printed@.len() == old(st).printed@.len(),
            exists|body: Seq<DocRef<'a>>| #[trigger] wraps(*r, body) && version_layout(body, *self),
    {
        let mut body: Vec<DocRef<'a>> = Vec::new();
        let p = b.txt("Package.Version.");
        body.push(p);
        let v = match &self.version_number {
            Some(v) => v.build(b, cm, st),
            None => b.txt("Request"),
        };
        body.push(v);
        let ghost body_v = body@;
        assert(version_layout(body_v, *self));
        let r = with_comments_and_punc(b, cm, st, &self.node_context, body);
        assert(wraps(*r, body_v));
        r
    }
}

/// `java:` and the field.
pub open spec fn java_field_layout<'a>(body: Seq<DocRef<'a>>, s: JavaFieldAccess, cfg: PrettyConfig) -> bool
    decreases s,
{
    body.len() == 2 && is_text(*body[0], "java:"@) && field_access_doc(*body[1], s.field_access, cfg)
}

/// `java:field.access`
pub struct JavaFieldAccess {
    pub field_access: FieldAccess,
    pub node_context: NodeContext,
}

impl JavaFieldAccess {
    pub fn new(t: &SyntaxTree, n: usize) -> (r: Result<Self, String>)
        requires
            t.wf(),
            t.valid(n as int),
        ensures
            r matches Ok(v) ==> v.node_context.id == n && t.nodes@[n as int].kind@ == "java_field_access"@,
        decreases t.nodes@.len() - n, 1int,
    {
        assert_check(t, n, "java_field_access")?;
        let c = c_by_k(t, n, "field_access")?;
        let field_access = FieldAccess::new(t, c)?;
        Ok(JavaFieldAccess { field_access, node_context: NodeContext::with_punctuation(t, n) })
    }

    pub fn build<'a>(&self, b: &'a DocBuilder<'a>, cm: &CommentMap, st: &mut BuildState) -> (r: DocRef<'a>)
        ensures
            final(st).printed@.len() == old(st).printed@.len(),
            exists|body: Seq<DocRef<'a>>| #[trigger] wraps(*r, body) && java_field_layout(body, *self, b.config),
        decreases self,
    {
        let j = b.txt("java:");
        let f = self.field_access.build(b, cm, st);
        let mut body: Vec<DocRef<'a>> = Vec::new();
        body.push(j);
        body.push(f);
        let ghost body_v = body@;
        assert(java_field_layout(body_v, *self, b.config));
        let r = with_comments_and_punc(b, cm, st, &self.node_context, body);
        assert(wraps(*r, body_v));
        r
    }
}

/// The key, ` => `, the value.
pub open spec fn map_key_layout<'a>(body: Seq<DocRef<'a>>) -> bool {
    body.len() == 3 && is_text(*body[1], seq![' '] + "=>"@ + seq![' '])
}

/// `key => value` in a map initializer.
pub struct MapKeyInitializer {
    pub exp1: Box<Expression>,
    pub exp2: Box<Expression>,
    pub node_context: NodeContext,
}

impl MapKeyInitializer {
    pub fn new(t: &SyntaxTree, n: usize) -> (r: Result<Self, String>)
        requires
            t.wf(),
            t.valid(n as int),
        ensures
            r matches Ok(v) ==> v.node_context.id == n && t.nodes@[n as int].kind@ == "map_key_initializer"@
                && crate::accessor::code_children(t, n as int).len() == 2,
            (forall|j: int| 0 <= j < crate::accessor::code_children(t, n as int).len()
                ==> crate::enum_def::is_leaf_expression_kind(t.nodes@[#[trigger] crate::accessor::code_children(t, n as int)[j] as int].kind@))
                ==> (r is Ok <==> t.nodes@[n as int].kind@ == "map_key_initializer"@
                && crate::accessor::code_children(t, n as int).len() == 2
                && crate::enum_def::leaf_expression_ok(t, crate::accessor::code_children(t, n as int)[0] as int)
                && crate::enum_def::leaf_expression_ok(t, crate::accessor::code_children(t, n as int)[1] as int)),
        decreases t.nodes@.len() - n, 1int,
    {
        assert_check(t, n, "map_key_initializer")?;
        let cs = children_vec(t, n);
        if cs.len() != 2 {
            return Err(owned("### must be exactly 2 child nodes in MapKeyInitializer"));
        }
        let exp1 = Box::new(Expression::new(t, cs[0])?);
        let exp2 = Box::new(Expression::new(t, cs[1])?);
        Ok(MapKeyInitializer { exp1, exp2, node_context: NodeContext::with_punctuation(t, n) })
    }

    pub fn build<'a>(&self, b: &'a DocBuilder<'a>, cm: &CommentMap, st: &mut BuildState) -> (r: DocRef<'a>)
        ensures
            final(st).printed@.len() == old(st).printed@.len(),
            exists|body: Seq<DocRef<'a>>| #[trigger] wraps(*r, body) && map_key_layout(body),
        decreases self,
    {
        let a = self.exp1.build(b, cm, st);
        let arrow = b._txt_("=>");
        let c = self.exp2.build(b, cm, st);
        let mut body: Vec<DocRef<'a>> = Vec::new();
        body.push(a);
        body.push(arrow);
        body.push(c);
        let ghost body_v = body@;
        assert(map_key_layout(body_v));
        let r = with_comments_and_punc(b, cm, st, &self.node_context, body);
        assert(wraps(*r, body_v));
        r
    }
}

/// The elements between `{` and `}`, on one line when that fits.
pub open spec fn map_initializer_layout<'a>(body: Seq<DocRef<'a>>, s: MapInitializer, cfg: PrettyConfig) -> bool {
    body.len() == 1 && is_surrounded(*body[0], s.initializers@.len(), "{"@, "}"@, true, cfg.indent_size)
}

/// `{k1 => v1, k2 => v2}`
pub struct MapInitializer {
    pub initializers: Vec<MapKeyInitializer>,
    pub node_context: NodeContext,
}

impl MapInitializer {
    pub fn new(t: &SyntaxTree, n: usize) -> (r: Result<Self, String>)
        requires
            t.wf(),
            t.valid(n as int),
        ensures
            r matches Ok(v) ==> v.node_context.id == n && t.nodes@[n as int].kind@ == "map_initializer"@,
            crate::accessor::code_children(t, n as int).len() == 0 ==> (r is Ok <==> t.nodes@[n as int].kind@ == "map_initializer"@),
            r matches Ok(v) ==> v.initializers@.len() == crate::accessor::code_children(t, n as int).len(),
        decreases t.nodes@.len() - n, 1int,
    {
        assert_check(t, n, "map_initializer")?;
        let cs = children_vec(t, n);
        let mut initializers: Vec<MapKeyInitializer> = Vec::new();
        let mut i: usize = 0;
        while i < cs.len()
            invariant
                t.wf(),
                t.valid(n as int),
                cs@ == crate::accessor::code_children(t, n as int),
                initializers@.len() == i,
                i <= cs@.len(),
                forall|j: int| 0 <= j < cs@.len() ==> n < #[trigger] cs@[j] < t.nodes@.len(),
            decreases cs@.len() - i,
        {
            let m = MapKeyInitializer::new(t, cs[i])?;
            initializers.push(m);
            i = i + 1;
        }
        Ok(MapInitializer { initializers, node_context: NodeContext::with_punctuation(t, n) })
    }

    pub fn build<'a>(&self, b: &'a DocBuilder<'a>, cm: &CommentMap, st: &mut BuildState) -> (r: DocRef<'a>)
        ensures
            final(st).printed@.len() == old(st).printed@.len(),
            exists|body: Seq<DocRef<'a>>| #[trigger] wraps(*r, body) && map_initializer_layout(body, *self, b.config),
        decreases self,
    {
        let ghost len0 = st.printed@.len();
        let mut docs: Vec<DocRef<'a>> = Vec::new();
        let mut i: usize = 0;
        while i < self.initializers.len()
            invariant
                st.printed@.len() == len0,
                i <= self.initializers@.len(),
                docs@.len() == i,
            decreases self.initializers@.len() - i,
        {
            let d = self.initializers[i].build(b, cm, st);
            docs.push(d);
            i = i + 1;
        }
        let g = surround_group(b, docs.as_slice(), "{", "}", true);
        let mut body: Vec<DocRef<'a>> = Vec::new();
        body.push(g);
        let ghost body_v = body@;
        assert(map_initializer_layout(body_v, *self, b.config));
        let r = with_comments_and_punc(b, cm, st, &self.node_context, body);
        assert(wraps(*r, body_v));
        r
    }
}

/// `new `, the type, the initializer.
pub open spec fn map_creation_layout<'a>(body: Seq<DocRef<'a>>, s: MapCreationExpression, cfg: PrettyConfig) -> bool {
    &&& body.len() == 3 && is_text(*body[0], "new"@ + seq![' '])
    &&& crate::enum_def::simple_type_doc(*body[1], s.type_)
    &&& exists|b2: Seq<DocRef<'a>>| #[trigger] wraps(*body[2], b2) && map_initializer_layout(b2, s.value, cfg)
}

/// `new Map<K, V>{...}`
pub struct MapCreationExpression {
    pub type_: SimpleType,
    pub value: MapInitializer,
    pub node_context: NodeContext,
}

impl MapCreationExpression {
    pub fn new(t: &SyntaxTree, n: usize) -> (r: Result<Self, String>)
        requires
            t.wf(),
            t.valid(n as int),
        ensures
            r matches Ok(v) ==> v.node_context.id == n && t.nodes@[n as int].kind@ == "map_creation_expression"@,
            first_field_if(t, n as int, "value"@, |c: int| crate::accessor::code_children(t, c).len() == 0)
                ==> (r is Ok <==> t.nodes@[n as int].kind@ == "map_creation_expression"@
                && first_field_is(t, n as int, "type"@, |c: int| simple_type_ok(t, c))
                && first_field_is(t, n as int, "value"@, |c: int| t.nodes@[c].kind@ == "map_initializer"@)),
        decreases t.nodes@.len() - n, 1int,
    {
        assert_check(t, n, "map_creation_expression")?;
        let ty = c_by_n(t, n, "type")?;
        let type_ = SimpleType::new(t, ty)?;
        let v = c_by_n(t, n, "value")?;
        let value = MapInitializer::new(t, v)?;
        Ok(MapCreationExpression { type_, value, node_context: NodeContext::with_punctuation(t, n) })
    }

    pub fn build<'a>(&self, b: &'a DocBuilder<'a>, cm: &CommentMap, st: &mut BuildState) -> (r: DocRef<'a>)
        ensures
            final(st).printed@.len() == old(st).printed@.len(),
            exists|body: Seq<DocRef<'a>>| #[trigger] wraps(*r, body) && map_creation_layout(body, *self, b.config),
        decreases self,
    {
        let w = b.txt_("new");
        let ty = self.type_.build(b, cm, st);
        let v = self.value.build(b, cm, st);
        let mut body: Vec<DocRef<'a>> = Vec::new();
        body.push(w);
        body.push(ty);
        body.push(v);
        let ghost body_v = body@;
        proof {
            let b2 = choose|b2: Seq<DocRef<'a>>| #[trigger] wraps(*v, b2) && map_initializer_layout(b2, self.value, b.config);
            assert(body_v[2] == v && wraps(*body_v[2], b2));
        }
        assert(map_creation_layout(body_v, *self, b.config));
        let r = with_comments_and_punc(b, cm, st, &self.node_context, body);
        assert(wraps(*r, body_v));
        r
    }
}


// ---------------------------------------------------------------------------
// DML.
// ---------------------------------------------------------------------------
/// The DML operations.
pub enum DmlTypeVariant {
    Insert,
    Update,
    Delete,
    Undelete,
    Merge,
    Upsert,
}

impl DmlTypeVariant {
    /// How an operation is written.
    pub open spec fn text(self) -> Seq<char> {
        match self {
            DmlTypeVariant::Insert => "insert"@,
            DmlTypeVariant::Update => "update"@,
            DmlTypeVariant::Delete => "delete"@,
            DmlTypeVariant::Undelete => "undelete"@,
            DmlTypeVariant::Merge => "merge"@,
            DmlTypeVariant::Upsert => "upsert"@,
        }
    }

    pub fn new(t: &SyntaxTree, n: usize) -> (r: Result<Self, String>)
        requires
            t.valid(n as int),
        ensures
            r is Ok <==> (t.nodes@[n as int].kind@ == "insert"@ || t.nodes@[n as int].kind@ == "update"@ || t.nodes@[n as int].kind@ == "delete"@ || t.nodes@[n as int].kind@ == "undelete"@ || t.nodes@[n as int].kind@ == "merge"@ || t.nodes@[n as int].kind@ == "upsert"@),
            r matches Err(e) ==> e@ == "## unknown node: "@ + crate::message_helper::spec_red(t.nodes@[n as int].kind@) + " in DmlTypeVariant "@,
            r matches Ok(v) ==> t.nodes@[n as int].kind@ == v.text(),
    {
        if kind_is(t, n, "insert") {
            Ok(DmlTypeVariant::Insert)
        } else if kind_is(t, n, "update") {
            Ok(DmlTypeVariant::Update)
        } else if kind_is(t, n, "delete") {
            Ok(DmlTypeVariant::Delete)
        } else if kind_is(t, n, "undelete") {
            Ok(DmlTypeVariant::Undelete)
        } else if kind_is(t, n, "merge") {
            Ok(DmlTypeVariant::Merge)
        } else if kind_is(t, n, "upsert") {
            Ok(DmlTypeVariant::Upsert)
        } else {
            Err(crate::strs::concat3("## unknown node: ", crate::message_helper::red(t.nodes[n].kind.as_str()).as_str(), " in DmlTypeVariant "))
        }
    }

    pub fn build<'a>(&self, b: &'a DocBuilder<'a>) -> (r: DocRef<'a>)
        ensures
            is_text(*r, self.text()),
    {
        match self {
            DmlTypeVariant::Insert => b.txt("insert"),
            DmlTypeVariant::Update => b.txt("update"),
            DmlTypeVariant::Delete => b.txt("delete"),
            DmlTypeVariant::Undelete => b.txt("undelete"),
            DmlTypeVariant::Merge => b.txt("merge"),
            DmlTypeVariant::Upsert => b.txt("upsert"),
        }
    }
}

/// The kinds of node that name a DML operation.
pub open spec fn is_dml_kind(k: Seq<char>) -> bool {
    k == "insert"@ || k == "update"@ || k == "delete"@ || k == "undelete"@ || k == "merge"@ || k == "upsert"@
}

/// A `dml_type` node whose first code child names an operation.
pub open spec fn dml_type_ok(t: &SyntaxTree, n: int) -> bool {
    let cs = crate::accessor::code_children(t, n);
    t.nodes@[n].kind@ == "dml_type"@ && cs.len() > 0 && is_dml_kind(t.nodes@[cs[0] as int].kind@)
}

/// A DML expression on one target with no security mode, by `insert`,
/// `update`, `delete` or `undelete`, whose target holds no other expression.
pub open spec fn basic_leaf_dml(t: &SyntaxTree, n: int) -> bool {
    let d = crate::accessor::kind_children(t, n, "dml_type"@);
    &&& crate::accessor::kind_children(t, n, "dml_security_mode"@).len() == 0
    &&& leaf_field(t, n, "target"@)
    &&& d.len() > 0 ==> ({
        let cs = crate::accessor::code_children(t, d[0] as int);
        cs.len() > 0 ==> ({
            let k = t.nodes@[cs[0] as int].kind@;
            k == "insert"@ || k == "update"@ || k == "delete"@ || k == "undelete"@
        })
    })
}

/// The DML operation node.
pub struct DmlType {
    pub variant: DmlTypeVariant,
    pub node_context: NodeContext,
}

impl DmlType {
    pub fn new(t: &SyntaxTree, n: usize) -> (r: Result<Self, String>)
        requires
            t.wf(),
            t.valid(n as int),
        ensures
            r matches Ok(v) ==> v.node_context.id == n && t.nodes@[n as int].kind@ == "dml_type"@,
            r is Ok <==> dml_type_ok(t, n as int),
            r matches Ok(v) ==> t.nodes@[crate::accessor::code_children(t, n as int)[0] as int].kind@ == v.variant.text(),
    {
        assert_check(t, n, "dml_type")?;
        let c = first_c(t, n)?;
        let variant = DmlTypeVariant::new(t, c)?;
        Ok(DmlType { variant, node_context: NodeContext::with_punctuation(t, n) })
    }

    pub fn build<'a>(&self, b: &'a DocBuilder<'a>, cm: &CommentMap, st: &mut BuildState) -> (r: DocRef<'a>)
        ensures
            final(st).printed@.len() == old(st).printed@.len(),
            wraps_text(*r, self.variant.text()),
    {
        let v = self.variant.build(b);
        let mut body: Vec<DocRef<'a>> = Vec::new();
        body.push(v);
        let ghost body_v = body@;
        let r = with_comments_and_punc(b, cm, st, &self.node_context, body);
        proof {
            assert(body_v =~= seq![v]);
            lemma_wraps_single(*r, v, self.variant.text());
        }
        r
    }
}

/// `as user` or `as system`.
pub enum DmlSecurityMode {
    User(String),
    System(String),
}

impl DmlSecurityMode {
    pub fn new(t: &SyntaxTree, n: usize) -> (r: Result<Self, String>)
        requires
            t.wf(),
            t.valid(n as int),
        ensures
            crate::accessor::code_children(t, n as int).len() == 0 ==> r is Err,
            crate::accessor::code_children(t, n as int).len() > 0 && t.nodes@[crate::accessor::code_children(t, n as int)[0] as int].kind@ != "user"@ && t.nodes@[crate::accessor::code_children(t, n as int)[0] as int].kind@ != "system"@ ==> r is Err,
            crate::accessor::code_children(t, n as int).len() > 0 && t.nodes@[crate::accessor::code_children(t, n as int)[0] as int].kind@ == "user"@ ==> (r is Ok <==> crate::accessor::readable(t, crate::accessor::code_children(t, n as int)[0] as int)),
            r matches Ok(v) ==> crate::accessor::code_children(t, n as int).len() > 0 && (v is User ==> t.nodes@[crate::accessor::code_children(t, n as int)[0] as int].kind@ == "user"@) && (v is System ==> t.nodes@[crate::accessor::code_children(t, n as int)[0] as int].kind@ == "system"@),
            r matches Ok(DmlSecurityMode::User(s)) ==> s@ == crate::accessor::node_text(t, crate::accessor::code_children(t, n as int)[0] as int),
            r matches Ok(DmlSecurityMode::System(s)) ==> s@ == crate::accessor::node_text(t, crate::accessor::code_children(t, n as int)[0] as int),
    {
        let c = first_c(t, n)?;
        if kind_is(t, c, "user") {
            Ok(DmlSecurityMode::User(value(t, c)?))
        } else if kind_is(t, c, "system") {
            Ok(DmlSecurityMode::System(value(t, c)?))
        } else {
            Err(panic_unknown_node(t, n, "DmlSecurityMode"))
        }
    }

    pub fn build<'a>(&self, b: &'a DocBuilder<'a>) -> (r: DocRef<'a>)
        ensures
            *r is Concat && concat_parts(*r).len() == 2,
            is_text(*concat_parts(*r)[0], "as"@ + seq![' ']),
            is_text(
                *concat_parts(*r)[1],
                match *self {
                    DmlSecurityMode::User(v) => v@,
                    DmlSecurityMode::System(v) => v@,
                },
            ),
    {
        let a = b.txt_("as");
        let v = match self {
            DmlSecurityMode::User(v) => b.txt(v.as_str()),
            DmlSecurityMode::System(v) => b.txt(v.as_str()),
        };
        let mut parts: Vec<DocRef<'a>> = Vec::new();
        parts.push(a);
        parts.push(v);
        b.concat(parts)
    }
}

/// The parts of a DML statement: the operation, a space, then `as` and the
/// mode followed by a space where a mode is given, then the target; a merge
/// groups its two records, an upsert groups the mode, the record and the
/// key field; an empty text closes the parts.
pub open spec fn dml_layout<'a>(p: Seq<DocRef<'a>>, v: DmlExpressionVariant, cfg: PrettyConfig) -> bool
    decreases v,
{
    &&& p.len() >= 4
    &&& is_text(*p[1], seq![' '])
    &&& is_text(*p[p.len() - 1], Seq::empty())
    &&& match v {
        DmlExpressionVariant::Basic { dml_type, security_mode, target } => {
            &&& p.len() == (if security_mode is Some {
                6int
            } else {
                4int
            })
            &&& wraps_text(*p[0], dml_type.variant.text())
            &&& security_mode matches Some(m) ==> security_mode_doc(*p[2], m) && is_text(*p[3], seq![' '])
            &&& crate::enum_def::expression_doc(*p[p.len() - 2], target, cfg)
        },
        DmlExpressionVariant::Merge { dml_type, security_mode, target, merge_with } => {
            &&& p.len() == (if security_mode is Some {
                6int
            } else {
                4int
            })
            &&& wraps_text(*p[0], dml_type.variant.text())
            &&& security_mode matches Some(m) ==> security_mode_doc(*p[2], m) && is_text(*p[3], seq![' '])
            &&& is_softline_group(*p[p.len() - 2], 2, cfg.indent_size)
            &&& crate::enum_def::expression_doc(softline_group_part(*p[p.len() - 2], 0), target, cfg)
            &&& crate::enum_def::expression_doc(softline_group_part(*p[p.len() - 2], 1), merge_with, cfg)
        },
        DmlExpressionVariant::Upsert { dml_type, security_mode, target, unannotated } => {
            let k: int = if security_mode is Some {
                1
            } else {
                0
            };
            &&& p.len() == 4
            &&& wraps_text(*p[0], dml_type.variant.text())
            &&& is_softline_group(*p[2], k + 1 + (if unannotated is Some {
                1int
            } else {
                0int
            }), cfg.indent_size)
            &&& security_mode matches Some(m) ==> security_mode_doc(softline_group_part(*p[2], 0), m)
            &&& crate::enum_def::expression_doc(softline_group_part(*p[2], k), target, cfg)
            &&& unannotated matches Some(u) ==> crate::enum_def::unannotated_type_doc(
                softline_group_part(*p[2], k + 1),
                *u,
            )
        },
    }
}

/// The document of a security mode: `as `, then the mode's name.
pub open spec fn security_mode_doc<'a>(d: Doc<'a>, m: DmlSecurityMode) -> bool {
    &&& d is Concat
    &&& concat_parts(d).len() == 2
    &&& is_text(*concat_parts(d)[0], "as"@ + seq![' '])
    &&& is_text(
        *concat_parts(d)[1],
        match m {
            DmlSecurityMode::User(v) => v@,
            DmlSecurityMode::System(v) => v@,
        },
    )
}

/// `d` is a group of `n` parts separated by soft lines: on one line when it
/// fits, else broken at each soft line and indented by `indent`.
pub open spec fn is_softline_group<'a>(d: Doc<'a>, n: int, indent: u32) -> bool {
    &&& d is Choice
    &&& *d->Choice_0 == Doc::Flat(d->Choice_1)
    &&& *d->Choice_1 matches Doc::Indent(i, x) && i == indent && *x is Concat && concat_parts(*x).len() == 2 * n - 1
        && forall|j: int| 0 <= j < n - 1 ==> *#[trigger] concat_parts(*x)[2 * j + 1] == Doc::Softline
}

/// The `j`-th part of a group of parts separated by soft lines.
pub open spec fn softline_group_part<'a>(d: Doc<'a>, j: int) -> Doc<'a> {
    match d {
        Doc::Choice(_, y) => match *y {
            Doc::Indent(_, x) => *concat_parts(*x)[2 * j],
            _ => d,
        },
        _ => d,
    }
}

/// Elements interspersed with one separator part alternate with it.
proof fn lemma_interspersed_single<'a>(elems: Seq<DocRef<'a>>, sep: DocRef<'a>)
    requires
        elems.len() > 0,
    ensures
        interspersed(elems, seq![sep]).len() == 2 * elems.len() - 1,
        forall|j: int| 0 <= j < elems.len() ==> #[trigger] interspersed(elems, seq![sep])[2 * j] == elems[j],
        forall|j: int| 0 <= j < elems.len() - 1 ==> #[trigger] interspersed(elems, seq![sep])[2 * j + 1] == sep,
    decreases elems.len(),
{
    if elems.len() > 1 {
        lemma_interspersed_single(elems.drop_last(), sep);
    }
}

/// The shapes of a DML statement: one target; a merge's two records; an
/// upsert's target and optional key field.
pub enum DmlExpressionVariant {
    Basic { dml_type: DmlType, security_mode: Option<DmlSecurityMode>, target: Expression },
    Upsert {
        dml_type: DmlType,
        security_mode: Option<DmlSecurityMode>,
        target: Expression,
        unannotated: Option<Box<UnannotatedType>>,
    },
    Merge {
        dml_type: DmlType,
        security_mode: Option<DmlSecurityMode>,
        target: Expression,
        merge_with: Expression,
    },
}

impl DmlExpressionVariant {
    pub fn new(t: &SyntaxTree, n: usize) -> (r: Result<Self, String>)
        requires
            t.wf(),
            t.valid(n as int),
        ensures
            r matches Ok(v) ==> crate::enum_def::dml_tied(t, n as int, v),
            r matches Ok(v) ==> (v is Merge ==> v->Merge_dml_type.variant == DmlTypeVariant::Merge) && (v is Upsert
                ==> v->Upsert_dml_type.variant == DmlTypeVariant::Upsert) && (v is Basic ==> v->Basic_dml_type.variant
                != DmlTypeVariant::Merge && v->Basic_dml_type.variant != DmlTypeVariant::Upsert),
            basic_leaf_dml(t, n as int) ==> (r is Ok <==> leaf_field_ok(t, n as int, "target"@) && ({
                let d = crate::accessor::kind_children(t, n as int, "dml_type"@);
                d.len() > 0 && dml_type_ok(t, d[0] as int)
            })),
            t.nodes@[n as int].kind@ == "dml_expression"@ && crate::enum_def::expr_reads(t, n as int) ==> r is Ok,
        decreases t.nodes@.len() - n, 1int,
    {
        proof {
            crate::enum_def::lemma_composite_expression_kinds(t.nodes@[n as int].kind@);
            reveal_strlit("insert");
            reveal_strlit("update");
            reveal_strlit("delete");
            reveal_strlit("undelete");
            reveal_strlit("merge");
            reveal_strlit("upsert");
            assert("merge"@.len() == 5 && "undelete"@.len() == 8 && "upsert"@.len() == 6);
            assert("insert"@[1] != "upsert"@[1] && "update"@[2] != "upsert"@[2] && "delete"@[0] != "upsert"@[0]);
        }
        let security_mode = match try_c_by_k(t, n, "dml_security_mode") {
            Some(c) => Some(DmlSecurityMode::new(t, c)?),
            None => None,
        };
        let tg = c_by_n(t, n, "target")?;
        let target = Expression::new(t, tg)?;
        let d = c_by_k(t, n, "dml_type")?;
        let dml_type = DmlType::new(t, d)?;
        match dml_type.variant {
            DmlTypeVariant::Merge => {
                let m = c_by_n(t, n, "merge_with")?;
                let merge_with = Expression::new(t, m)?;
                Ok(DmlExpressionVariant::Merge { dml_type, security_mode, target, merge_with })
            },
            DmlTypeVariant::Upsert => {
                let unannotated = match try_c_by_n(t, n, "upsert_key") {
                    Some(k) => Some(Box::new(UnannotatedType::new(t, k)?)),
                    None => None,
                };
                Ok(DmlExpressionVariant::Upsert { dml_type, security_mode, target, unannotated })
            },
            _ => Ok(DmlExpressionVariant::Basic { dml_type, security_mode, target }),
        }
    }

    /// The operation and a space, then: the security mode and the target on
    /// one line; for a merge the two records, for an upsert the security
    /// mode, target and key, separated by lines that break, indented, when
    /// the group does not fit.
    pub fn build<'a>(&self, b: &'a DocBuilder<'a>, cm: &CommentMap, st: &mut BuildState) -> (r: DocRef<'a>)
        ensures
            final(st).printed@.len() == old(st).printed@.len(),
            *r is Concat,
            dml_layout(concat_parts(*r), *self, b.config),
        decreases self,
    {
        proof {
            reveal_strlit(" ");
            assert(" "@ =~= seq![' ']);
        }
        let mut result: Vec<DocRef<'a>> = Vec::new();
        match self {
            DmlExpressionVariant::Basic { dml_type, security_mode, target } => {
                let d = dml_type.build(b, cm, st);
                result.push(d);
                let s = b.txt(" ");
                result.push(s);
                match security_mode {
                    Some(m) => {
                        let x = m.build(b);
                        result.push(x);
                        let s2 = b.txt(" ");
                        result.push(s2);
                    },
                    None => {},
                }
                let e = target.build(b, cm, st);
                result.push(e);
            },
            DmlExpressionVariant::Merge { dml_type, security_mode, target, merge_with } => {
                let d = dml_type.build(b, cm, st);
                result.push(d);
                let s = b.txt(" ");
                result.push(s);
                match security_mode {
                    Some(m) => {
                        let x = m.build(b);
                        result.push(x);
                        let s2 = b.txt(" ");
                        result.push(s2);
                    },
                    None => {},
                }
                let e1 = target.build(b, cm, st);
                let e2 = merge_with.build(b, cm, st);
                let mut docs: Vec<DocRef<'a>> = Vec::new();
                docs.push(e1);
                docs.push(e2);
                let sl = b.softline();
                let sep = b.insertable(None, None, Some(sl));
                let i = b.intersperse(docs.as_slice(), &sep);
                let ind = b.indent(i);
                let g = b.group(ind);
                proof {
                    assert(insertable_parts(sep) =~= seq![sl]);
                    lemma_interspersed_single(docs@, sl);
                    assert(softline_group_part(*g, 0) == *e1);
                    assert(softline_group_part(*g, 1) == *e2);
                }
                result.push(g);
            },
            DmlExpressionVariant::Upsert { dml_type, security_mode, target, unannotated } => {
                let d = dml_type.build(b, cm, st);
                result.push(d);
                let s = b.txt(" ");
                result.push(s);
                let mut docs: Vec<DocRef<'a>> = Vec::new();
                match security_mode {
                    Some(m) => {
                        let x = m.build(b);
                        docs.push(x);
                    },
                    None => {},
                }
                let e = target.build(b, cm, st);
                docs.push(e);
                match unannotated {
                    Some(u) => {
                        let x = u.build(b, cm, st);
                        docs.push(x);
                    },
                    None => {},
                }
                let sl = b.softline();
                let sep = b.insertable(None, None, Some(sl));
                let i = b.intersperse(docs.as_slice(), &sep);
                let ind = b.indent(i);
                let g = b.group(ind);
                proof {
                    assert(insertable_parts(sep) =~= seq![sl]);
                    lemma_interspersed_single(docs@, sl);
                    let k: int = if security_mode is Some {
                        1
                    } else {
                        0
                    };
                    assert(softline_group_part(*g, k) == *docs@[k]);
                    if security_mode is Some {
                        assert(softline_group_part(*g, 0) == *docs@[0]);
                    }
                    if unannotated is Some {
                        assert(softline_group_part(*g, k + 1) == *docs@[k + 1]);
                    }
                }
                result.push(g);
            },
        }
        let nil = b.nil();
        result.push(nil);
        b.concat(result)
    }
}

/// `insert records`
pub struct DmlExpression {
    pub variant: DmlExpressionVariant,
    pub node_context: NodeContext,
}

impl DmlExpression {
    pub fn new(t: &SyntaxTree, n: usize) -> (r: Result<Self, String>)
        requires
            t.wf(),
            t.valid(n as int),
        ensures
            r matches Ok(v) ==> crate::enum_def::dml_tied(t, n as int, v.variant),
            r matches Ok(v) ==> v.node_context.id == n && t.nodes@[n as int].kind@ == "dml_expression"@,
            t.nodes@[n as int].kind@ == "dml_expression"@ && crate::enum_def::expr_reads(t, n as int) ==> r is Ok,
        decreases t.nodes@.len() - n, 2int,
    {
        assert_check(t, n, "dml_expression")?;
        let variant = DmlExpressionVariant::new(t, n)?;
        Ok(DmlExpression { variant, node_context: NodeContext::with_punctuation(t, n) })
    }

    pub fn build<'a>(&self, b: &'a DocBuilder<'a>, cm: &CommentMap, st: &mut BuildState) -> (r: DocRef<'a>)
        ensures
            final(st).printed@.len() == old(st).printed@.len(),
            exists|body: Seq<DocRef<'a>>| #[trigger] wraps(*r, body) && body.len() == 1 && *body[0] is Concat
                && dml_layout(concat_parts(*body[0]), self.variant, b.config),
        decreases self,
    {
        let v = self.variant.build(b, cm, st);
        let mut body: Vec<DocRef<'a>> = Vec::new();
        body.push(v);
        let ghost body_v = body@;
        let r = with_comments_and_punc(b, cm, st, &self.node_context, body);
        assert(wraps(*r, body_v));
        r
    }
}

/// `new`, the type arguments, a space, the type, the arguments, the class
/// body where there is one.
pub open spec fn object_creation_layout<'a>(body: Seq<DocRef<'a>>, s: ObjectCreationExpression, cfg: PrettyConfig) -> bool
    decreases s,
{
    let k: int = if s.type_arguments is Some { 1 } else { 0 };
    &&& body.len() == k + 4 + if s.class_body is Some { 1int } else { 0int }
    &&& is_text(*body[0], "new"@)
    &&& is_text(*body[k + 1], seq![' '])
    &&& crate::enum_def::unannotated_type_doc(*body[k + 2], s.type_)
    &&& argument_list_doc(*body[k + 3], s.arguments, cfg)
}

/// `new Type(args)`, perhaps with a class body.
pub struct ObjectCreationExpression {
    pub type_arguments: Option<TypeArguments>,
    pub type_: UnannotatedType,
    pub arguments: ArgumentList,
    pub class_body: Option<ClassBody>,
    pub node_context: NodeContext,
}

impl ObjectCreationExpression {
    pub fn new(t: &SyntaxTree, n: usize) -> (r: Result<Self, String>)
        requires
            t.wf(),
            t.valid(n as int),
        ensures
            r matches Ok(v) ==> crate::enum_def::args_tied(t, crate::enum_def::field_child(t, n as int, "arguments"@), v.arguments),
            r matches Ok(v) ==> v.node_context.id == n && t.nodes@[n as int].kind@ == "object_creation_expression"@,
            crate::accessor::kind_children(t, n as int, "class_body"@).len() == 0
                && first_field_if(t, n as int, "arguments"@, |c: int| holds_leaf_expressions(t, c))
                ==> (r is Ok <==> ({
                let ta = crate::accessor::kind_children(t, n as int, "type_arguments"@);
                &&& t.nodes@[n as int].kind@ == "object_creation_expression"@
                &&& ta.len() > 0 ==> type_arguments_ok(t, ta[0] as int)
                &&& declared_type_ok(t, n as int)
                &&& first_field_is(t, n as int, "arguments"@, |c: int| leaf_expressions_ok(t, c))
            })),
            r matches Ok(v) ==> (v.class_body is Some <==> crate::accessor::kind_children(t, n as int, "class_body"@).len() > 0),
            t.nodes@[n as int].kind@ == "object_creation_expression"@ && crate::enum_def::expr_reads(t, n as int) ==> r is Ok,
        decreases t.nodes@.len() - n, 1int,
    {
        proof {
            crate::enum_def::lemma_composite_expression_kinds(t.nodes@[n as int].kind@);
        }
        assert_check(t, n, "object_creation_expression")?;
        let type_arguments = match try_c_by_k(t, n, "type_arguments") {
            Some(c) => Some(TypeArguments::new(t, c)?),
            None => None,
        };
        let class_body = match try_c_by_k(t, n, "class_body") {
            Some(c) => Some(ClassBody::new(t, c)?),
            None => None,
        };
        let ty = c_by_n(t, n, "type")?;
        let type_ = UnannotatedType::new(t, ty)?;
        let a = c_by_n(t, n, "arguments")?;
        let arguments = ArgumentList::new(t, a)?;
        Ok(ObjectCreationExpression {
            type_arguments,
            type_,
            arguments,
            class_body,
            node_context: NodeContext::with_punctuation(t, n),
        })
    }

    pub fn build<'a>(&self, b: &'a DocBuilder<'a>, cm: &CommentMap, st: &mut BuildState) -> (r: DocRef<'a>)
        ensures
            final(st).printed@.len() == old(st).printed@.len(),
            exists|body: Seq<DocRef<'a>>| #[trigger] wraps(*r, body) && object_creation_layout(body, *self, b.config),
        decreases self,
    {
        proof {
            reveal_strlit(" ");
            assert(" "@ =~= seq![' ']);
        }
        let mut body: Vec<DocRef<'a>> = Vec::new();
        let w = b.txt("new");
        body.push(w);
        match &self.type_arguments {
            Some(a) => {
                let d = a.build(b, cm, st);
                body.push(d);
            },
            None => {},
        }
        let s = b.txt(" ");
        body.push(s);
        let ty = self.type_.build(b, cm, st);
        body.push(ty);
        let args = self.arguments.build(b, cm, st);
        body.push(args);
        match &self.class_body {
            Some(c) => {
                let d = c.build(b, cm, st);
                body.push(d);
            },
            None => {},
        }
        let ghost body_v = body@;
        assert(object_creation_layout(body_v, *self, b.config));
        let r = with_comments_and_punc(b, cm, st, &self.node_context, body);
        assert(wraps(*r, body_v));
        r
    }
}

// ---------------------------------------------------------------------------
// Blocks and statements.
// ---------------------------------------------------------------------------
/// The members of a body, built from the code children of a node.
pub fn statements_of(t: &SyntaxTree, n: usize, cs: &Vec<usize>) -> (r: Result<Vec<BodyMember<Statement>>, String>)
    requires
        t.wf(),
        t.valid(n as int),
        forall|j: int| 0 <= j < cs@.len() ==> n < #[trigger] cs@[j] < t.nodes@.len(),
    ensures
        r matches Ok(v) ==> v@.len() == cs@.len(),
        r matches Ok(v) ==> forall|j: int| 0 <= j < cs@.len() ==> crate::enum_def::stmt_tied(t, cs@[j] as int, #[trigger] v@[j].member),
        (forall|j: int| 0 <= j < cs@.len() ==> crate::enum_def::is_leaf_statement_kind(t.nodes@[#[trigger] cs@[j] as int].kind@))
            ==> (r is Ok <==> forall|j: int| 0 <= j < cs@.len() ==> crate::enum_def::leaf_statement_ok(t, #[trigger] cs@[j] as int)),
        (forall|j: int| 0 <= j < cs@.len() ==> crate::enum_def::stmt_below(t, n as int, #[trigger] cs@[j] as int)) ==> r is Ok,
    decreases t.nodes@.len() - n, 0int,
{
    let mut v: Vec<BodyMember<Statement>> = Vec::new();
    let mut i: usize = 0;
    while i < cs.len()
        invariant
            t.wf(),
            t.valid(n as int),
            i <= cs@.len(),
            v@.len() == i,
            forall|j: int| 0 <= j < cs@.len() ==> n < #[trigger] cs@[j] < t.nodes@.len(),
            forall|j: int| 0 <= j < i ==> crate::enum_def::is_leaf_statement_kind(t.nodes@[#[trigger] cs@[j] as int].kind@)
                ==> crate::enum_def::leaf_statement_ok(t, cs@[j] as int),
            forall|j: int| 0 <= j < i ==> crate::enum_def::stmt_tied(t, cs@[j] as int, #[trigger] v@[j].member),
        decreases cs@.len() - i,
    {
        let c = cs[i];
        let s = match Statement::new(t, c) {
            Ok(s) => s,
            Err(e) => {
                assert(!crate::enum_def::stmt_below(t, n as int, cs@[i as int] as int));
                assert(crate::enum_def::is_leaf_statement_kind(t.nodes@[cs@[i as int] as int].kind@)
                    ==> !crate::enum_def::leaf_statement_ok(t, cs@[i as int] as int));
                return Err(e);
            },
        };
        v.push(BodyMember::new(t, c, s));
        i = i + 1;
    }
    Ok(v)
}

/// The documents of body members and whether an empty line follows each.
pub fn build_statements<'a>(list: &Vec<BodyMember<Statement>>, b: &'a DocBuilder<'a>, cm: &CommentMap, st: &mut BuildState) -> (r: (Vec<DocRef<'a>>, Vec<bool>))
    ensures
        final(st).printed@.len() == old(st).printed@.len(),
        r.0@.len() == list@.len(),
        r.1@.len() == list@.len(),
        forall|i: int| 0 <= i < list@.len() ==> r.1@[i] == #[trigger] list@[i].has_trailing_newline,
        forall|i: int|
            0 <= i < list@.len() ==> crate::enum_def::statement_doc(*r.0@[i], #[trigger] list@[i].member, cm, b.config),
    decreases list,
{
    let ghost len0 = st.printed@.len();
    let mut docs: Vec<DocRef<'a>> = Vec::new();
    let mut trailing: Vec<bool> = Vec::new();
    let mut i: usize = 0;
    while i < list.len()
        invariant
            st.printed@.len() == len0,
            i <= list@.len(),
            docs@.len() == i,
            trailing@.len() == i,
            forall|k: int| 0 <= k < i ==> trailing@[k] == #[trigger] list@[k].has_trailing_newline,
            forall|k: int|
                0 <= k < i ==> crate::enum_def::statement_doc(*docs@[k], #[trigger] list@[k].member, cm, b.config),
        decreases list@.len() - i,
    {
        let d = list[i].member.build(b, cm, st);
        docs.push(d);
        trailing.push(list[i].has_trailing_newline);
        i = i + 1;
    }
    (docs, trailing)
}

/// Every code child of `n` is a statement that holds no other statement.
pub open spec fn holds_leaf_statements(t: &SyntaxTree, n: int) -> bool {
    let cs = crate::accessor::code_children(t, n);
    forall|j: int| 0 <= j < cs.len() ==> crate::enum_def::is_leaf_statement_kind(t.nodes@[#[trigger] cs[j] as int].kind@)
}

/// A block of statements that hold no other statement, each of which can
/// be read.
pub open spec fn leaf_block_ok(t: &SyntaxTree, n: int) -> bool {
    let cs = crate::accessor::code_children(t, n);
    &&& t.nodes@[n].kind@ == "block"@
    &&& forall|j: int| 0 <= j < cs.len() ==> crate::enum_def::leaf_statement_ok(t, #[trigger] cs[j] as int)
}

/// The first code child of `n`, where there is one, is an expression that
/// holds no other expression.
pub open spec fn leaf_inside(t: &SyntaxTree, n: int) -> bool {
    let cs = crate::accessor::code_children(t, n);
    cs.len() > 0 ==> crate::enum_def::is_leaf_expression_kind(t.nodes@[cs[0] as int].kind@)
}

/// The first code child of `n` is an expression that holds no other
/// expression and can be read.
pub open spec fn leaf_inside_ok(t: &SyntaxTree, n: int) -> bool {
    let cs = crate::accessor::code_children(t, n);
    cs.len() > 0 && crate::enum_def::leaf_expression_ok(t, cs[0] as int)
}

/// The first child of `n` named `f` exists and satisfies `p`.
pub open spec fn first_field_is(t: &SyntaxTree, n: int, f: Seq<char>, p: spec_fn(int) -> bool) -> bool {
    let c = crate::accessor::field_children(t, n, f);
    c.len() > 0 && p(c[0] as int)
}

/// The first child of `n` named `f`, where there is one, satisfies `p`.
pub open spec fn first_field_if(t: &SyntaxTree, n: int, f: Seq<char>, p: spec_fn(int) -> bool) -> bool {
    let c = crate::accessor::field_children(t, n, f);
    c.len() > 0 ==> p(c[0] as int)
}

/// `{ statements }`
pub struct Block {
    pub statements: Vec<BodyMember<Statement>>,
    pub node_context: NodeContext,
}

impl Block {
    pub fn new(t: &SyntaxTree, n: usize) -> (r: Result<Self, String>)
        requires
            t.wf(),
            t.valid(n as int),
        ensures
            r matches Ok(v) ==> crate::enum_def::block_tied(t, n as int, v),
            r matches Ok(v) ==> v.node_context.id == n && t.nodes@[n as int].kind@ == "block"@
                && v.statements@.len() == crate::accessor::code_children(t, n as int).len(),
            holds_leaf_statements(t, n as int) ==> (r is Ok <==> leaf_block_ok(t, n as int)),
            t.nodes@[n as int].kind@ == "block"@ && crate::enum_def::stmt_reads(t, n as int) ==> r is Ok,
        decreases t.nodes@.len() - n, 1int,
    {
        proof {
            crate::enum_def::lemma_composite_statement_kinds(t.nodes@[n as int].kind@);
        }
        assert_check(t, n, "block")?;
        let cs = children_vec(t, n);
        let statements = statements_of(t, n, &cs)?;
        Ok(Block { statements, node_context: NodeContext::with_punctuation(t, n) })
    }

    pub fn build<'a>(&self, b: &'a DocBuilder<'a>, cm: &CommentMap, st: &mut BuildState) -> (r: DocRef<'a>)
        ensures
            final(st).printed@.len() == old(st).printed@.len(),
        crate::enum_def::block_doc(*r, *self, cm, b.config),
        decreases self,
    {
        let (docs, trailing) = build_statements(&self.statements, b, cm, st);
        assert(trailing@ =~= trailing_flags(self.statements@));
        let r = build_braced_members(b, cm, st, self.node_context.id, docs.as_slice(), trailing.as_slice());
        proof {
            if bucket_of(cm, self.node_context.id).dangling_comments@.len() == 0 && self.statements@.len() > 0 {
                assert(has_members_body(*r, docs@, trailing_flags(self.statements@), b.config.indent_size));
                assert(forall|i: int| 0 <= i < docs@.len() ==> crate::enum_def::statement_doc(*docs@[i], self.statements@[i].member, cm, b.config));
            }
        }
        r
    }
}

/// The separator before an opening brace: a space after the header, or a
/// line break with Allman braces.
pub open spec fn is_brace_sep(d: Doc, style: BraceStyle) -> bool {
    match style {
        BraceStyle::KAndR => is_text(d, seq![' ']),
        BraceStyle::Allman => d == Doc::Newline,
    }
}

/// `d` is some document in braces: `{`, then the document indented by
/// `indent` on the lines below, then `}` on a line of its own.
pub open spec fn is_braced_some(d: Doc, indent: u32) -> bool {
    let p = concat_parts(d);
    &&& d is Concat
    &&& p.len() == 4
    &&& is_text(*p[0], "{"@)
    &&& (*p[1] matches Doc::Indent(i, x) && i == indent && *x is Concat && concat_parts(*x).len() == 2
        && *concat_parts(*x)[0] == Doc::Newline)
    &&& *p[2] == Doc::Newline
    &&& is_text(*p[3], "}"@)
}

/// The separator and body of a clause (`if`, `else`, a loop): a block after
/// the brace separator; another statement in braces when single statements
/// are wrapped, else indented on the next line.
pub open spec fn clause_layout<'a>(sep: Doc<'a>, item: Doc<'a>, is_block: bool, cfg: PrettyConfig) -> bool {
    if is_block {
        is_brace_sep(sep, cfg.brace_style)
    } else if cfg.wrap_single_statements {
        is_brace_sep(sep, cfg.brace_style) && is_braced_some(item, cfg.indent_size)
    } else {
        (sep matches Doc::Indent(i, x) && i == cfg.indent_size && *x == Doc::Newline) && (item matches Doc::Indent(
            j,
            _,
        ) && j == cfg.indent_size)
    }
}

/// The statement's document that a clause's item holds: the item itself for
/// a block; else the statement inside the braces when single statements are
/// wrapped, or the indented statement.
pub open spec fn clause_inner<'a>(item: Doc<'a>, is_block: bool, cfg: PrettyConfig) -> Doc<'a> {
    if is_block {
        item
    } else if cfg.wrap_single_statements {
        match *concat_parts(item)[1] {
            Doc::Indent(_, x) => *concat_parts(*x)[1],
            _ => item,
        }
    } else {
        match item {
            Doc::Indent(_, x) => *x,
            _ => item,
        }
    }
}

/// `d` is `inner` in braces: `{`, then `inner` indented by `indent` on the
/// lines below, then `}` on a line of its own.
pub open spec fn is_braced(d: Doc, indent: u32, inner: DocRef) -> bool {
    let p = concat_parts(d);
    &&& d is Concat
    &&& p.len() == 4
    &&& is_text(*p[0], "{"@)
    &&& (*p[1] matches Doc::Indent(i, x) && i == indent && *x is Concat && concat_parts(*x).len() == 2
        && *concat_parts(*x)[0] == Doc::Newline && concat_parts(*x)[1] == inner)
    &&& *p[2] == Doc::Newline
    &&& is_text(*p[3], "}"@)
}

/// A statement put in braces: `{`, the statement indented on its own line,
/// `}`.
pub fn braced<'a>(b: &'a DocBuilder<'a>, d: DocRef<'a>) -> (r: DocRef<'a>)
    ensures
        is_braced(*r, b.config.indent_size, d),
{
    let o = b.txt("{");
    let n1 = b.nl();
    let mut inner: Vec<DocRef<'a>> = Vec::new();
    inner.push(n1);
    inner.push(d);
    let ic = b.concat(inner);
    let ind = b.indent(ic);
    let n2 = b.nl();
    let c = b.txt("}");
    let mut parts: Vec<DocRef<'a>> = Vec::new();
    parts.push(o);
    parts.push(ind);
    parts.push(n2);
    parts.push(c);
    b.concat(parts)
}

/// `d` is `{`, a line break and `}`.
pub open spec fn is_empty_braces(d: Doc) -> bool {
    let p = concat_parts(d);
    d is Concat && p.len() == 3 && is_text(*p[0], "{"@) && *p[1] == Doc::Newline && is_text(*p[2], "}"@)
}

/// The body of a loop after its header, from position `k` of `body`: an
/// empty statement becomes empty braces when single statements are wrapped,
/// else stays `;`; another statement is laid out as a clause.
pub open spec fn loop_tail<'a>(body: Seq<DocRef<'a>>, k: int, stmt: Statement, cfg: PrettyConfig) -> bool {
    if stmt is SemiColumn {
        if cfg.wrap_single_statements {
            body.len() == k + 2 && is_brace_sep(*body[k], cfg.brace_style) && is_empty_braces(*body[k + 1])
        } else {
            body.len() == k + 1 && is_text(*body[k], ";"@)
        }
    } else {
        body.len() == k + 2 && clause_layout(*body[k], *body[k + 1], stmt is Block, cfg)
    }
}

/// Empty braces, closed on the next line.
pub fn empty_braces<'a>(b: &'a DocBuilder<'a>) -> (r: DocRef<'a>)
    ensures
        is_empty_braces(*r),
{
    let o = b.txt("{");
    let n = b.nl();
    let c = b.txt("}");
    let mut parts: Vec<DocRef<'a>> = Vec::new();
    parts.push(o);
    parts.push(n);
    parts.push(c);
    b.concat(parts)
}

/// The body of a clause (`if`, `else`, a loop), built as `d`: a block after
/// the brace space; another statement in braces when single statements are
/// wrapped, else on the next line, indented.
pub fn push_clause_body<'a>(b: &'a DocBuilder<'a>, is_block: bool, d: DocRef<'a>, out: &mut Vec<DocRef<'a>>)
    ensures
        final(out)@.len() == old(out)@.len() + 2,
        final(out)@.subrange(0, old(out)@.len() as int) == old(out)@,
        is_block ==> is_brace_sep(*final(out)@[old(out)@.len() as int], b.config.brace_style)
            && final(out)@[old(out)@.len() as int + 1] == d,
        !is_block && b.config.wrap_single_statements ==> is_brace_sep(
            *final(out)@[old(out)@.len() as int],
            b.config.brace_style,
        ) && is_braced(*final(out)@[old(out)@.len() as int + 1], b.config.indent_size, d),
        !is_block && !b.config.wrap_single_statements ==> (*final(out)@[old(out)@.len() as int] matches Doc::Indent(
            i,
            x,
        ) && i == b.config.indent_size && *x == Doc::Newline) && *final(out)@[old(out)@.len() as int + 1]
            == Doc::Indent(b.config.indent_size, d),
{
    if is_block {
        let s = before_brace(b);
        out.push(s);
        out.push(d);
    } else if b.config.wrap_single_statements {
        let s = before_brace(b);
        out.push(s);
        let w = braced(b, d);
        out.push(w);
    } else {
        let n = b.nl();
        let i1 = b.indent(n);
        out.push(i1);
        let i2 = b.indent(d);
        out.push(i2);
    }
}

/// The `else` of an `if`.
pub struct ElseClause {
    pub else_node: ValueNode,
    pub statement: Statement,
}

/// A `for` loop: `for `, its header, then its body as a loop tail.
pub open spec fn for_layout<'a>(body: Seq<DocRef<'a>>, s: ForStatement, cm: &CommentMap, cfg: PrettyConfig) -> bool
    decreases s,
{
    &&& body.len() >= 2 && is_text(*body[0], "for "@) && loop_tail(body, 2, s.body, cfg)
    &&& !(s.body is SemiColumn) ==> crate::enum_def::statement_doc(clause_inner(*body[3], s.body is Block, cfg), s.body, cm, cfg)
}

/// An enhanced `for`: `for (`, the type, a space, the name, ` : `, the
/// collection, `)`, then its body as a loop tail.
pub open spec fn enhanced_for_layout<'a>(body: Seq<DocRef<'a>>, s: EnhancedForStatement, cm: &CommentMap, cfg: PrettyConfig) -> bool
    decreases s,
{
    &&& body.len() >= 7
    &&& is_text(*body[0], "for ("@)
    &&& is_text(*body[2], seq![' '])
    &&& is_text(*body[4], seq![' '] + ":"@ + seq![' '])
    &&& is_text(*body[6], ")"@)
    &&& crate::enum_def::unannotated_type_doc(*body[1], s.type_)
    &&& wraps_text(*body[3], s.name.value@)
    &&& crate::enum_def::expression_doc(*body[5], s.value, cfg)
    &&& loop_tail(body, 7, s.body, cfg)
    &&& !(s.body is SemiColumn) ==> crate::enum_def::statement_doc(clause_inner(*body[8], s.body is Block, cfg), s.body, cm, cfg)
}

/// A `while` loop: `while `, the condition, then the body as a clause; an
/// empty body keeps its `;` (with its comments) or, when single statements
/// are wrapped, becomes empty braces after the comments of the `;`.
pub open spec fn while_layout<'a>(body: Seq<DocRef<'a>>, s: WhileStatement, cm: &CommentMap, cfg: PrettyConfig) -> bool
    decreases s,
{
    &&& body.len() >= 2
    &&& is_text(*body[0], "while"@ + seq![' '])
    &&& parenthesized_doc(*body[1], s.condition, cfg)
    &&& if s.body is SemiColumn {
        let k: int = if s.semicolon is Some {
            3
        } else {
            2
        };
        if cfg.wrap_single_statements {
            body.len() == k + 2 && is_brace_sep(*body[k], cfg.brace_style) && is_empty_braces(*body[k + 1])
        } else {
            body.len() == k
        }
    } else {
        loop_tail(body, 2, s.body, cfg) && crate::enum_def::statement_doc(
            clause_inner(*body[3], s.body is Block, cfg),
            s.body,
            cm,
            cfg,
        )
    }
}

/// A `do` loop: `do`, the brace separator, the block, then ` while ` after
/// the closing brace, or `while ` on the next line with Allman braces, then
/// the condition.
pub open spec fn do_layout<'a>(body: Seq<DocRef<'a>>, s: DoStatement, cm: &CommentMap, cfg: PrettyConfig) -> bool
    decreases s,
{
    &&& body.len() >= 4
    &&& is_text(*body[0], "do"@)
    &&& is_brace_sep(*body[1], cfg.brace_style)
    &&& crate::enum_def::block_doc(*body[2], s.body, cm, cfg)
    &&& parenthesized_doc(*body[body.len() - 1], s.condition, cfg)
    &&& match cfg.brace_style {
        BraceStyle::KAndR => body.len() == 5 && is_text(*body[3], seq![' '] + "while"@ + seq![' ']),
        BraceStyle::Allman => body.len() == 6 && *body[3] == Doc::Newline && is_text(*body[4], "while"@ + seq![' ']),
    }
}

/// The parts of an `if` statement: `if `, the condition, the consequence as a
/// clause and, for an `else`, the separator before it (a space or, with
/// Allman braces, a line break after a braced consequence; a line break after
/// a bare one), the `else` keyword, then the alternative: an `if` after a
/// space, a bare statement after a space when braced and not wrapped, else as
/// a clause.
pub open spec fn if_layout<'a>(body: Seq<DocRef<'a>>, s: IfStatement, cm: &CommentMap, cfg: PrettyConfig) -> bool
    decreases s,
{
    &&& body.len() >= 4
    &&& is_text(*body[0], "if "@)
    &&& parenthesized_doc(*body[1], s.condition, cfg)
    &&& clause_layout(*body[2], *body[3], s.consequence is Block, cfg)
    &&& crate::enum_def::statement_doc(clause_inner(*body[3], s.consequence is Block, cfg), s.consequence, cm, cfg)
    &&& match s.alternative {
        None => body.len() == 4,
        Some(alt) => {
            &&& body.len() == 8
            &&& wraps_text(*body[5], alt.else_node.value@)
            &&& if (s.consequence is Block || cfg.wrap_single_statements) && !(alt.statement is If || (!(
            alt.statement is Block) && !cfg.wrap_single_statements)) {
                crate::enum_def::statement_doc(clause_inner(*body[7], alt.statement is Block, cfg), alt.statement, cm, cfg)
            } else {
                crate::enum_def::statement_doc(*body[7], alt.statement, cm, cfg)
            }
            &&& if s.consequence is Block || cfg.wrap_single_statements {
                &&& is_brace_sep(*body[4], cfg.brace_style)
                &&& if alt.statement is If || (!(alt.statement is Block) && !cfg.wrap_single_statements) {
                    is_text(*body[6], seq![' '])
                } else {
                    clause_layout(*body[6], *body[7], alt.statement is Block, cfg)
                }
            } else {
                &&& *body[4] == Doc::Newline
                &&& if alt.statement is If {
                    is_text(*body[6], seq![' '])
                } else if alt.statement is Block {
                    is_brace_sep(*body[6], cfg.brace_style)
                } else {
                    *body[6] matches Doc::Indent(i, x) && i == cfg.indent_size && *x == Doc::Newline
                }
            }
        },
    }
}

/// `if (c) a else b`
pub struct IfStatement {
    pub condition: ParenthesizedExpression,
    pub consequence: Statement,
    pub alternative: Option<ElseClause>,
    pub node_context: NodeContext,
}

/// The `else` child of an `if` node.
fn else_node_of(t: &SyntaxTree, n: usize) -> (r: Result<usize, String>)
    requires
        t.wf(),
        t.valid(n as int),
    ensures
        r matches Ok(c) ==> n < c < t.nodes@.len() && t.nodes@[c as int].kind@ == "else"@,
        r is Ok <==> crate::accessor::kind_pos_from(t, n as int, 0, "else"@) is Some,
        r matches Ok(c) ==> c == t.nodes@[n as int].children@[crate::accessor::kind_pos_from(t, n as int, 0, "else"@)->0],
{
    let node = &t.nodes[n];
    let mut k: usize = 0;
    while k < node.children.len()
        invariant
            t.wf(),
            t.valid(n as int),
            node == &t.nodes@[n as int],
            k <= node.children@.len(),
            crate::accessor::kind_pos_from(t, n as int, k as int, "else"@) == crate::accessor::kind_pos_from(t, n as int, 0, "else"@),
        decreases node.children@.len() - k,
    {
        let c = node.children[k];
        assert(t.nodes@[n as int].children@[k as int] == c);
        if kind_is(t, c, "else") {
            return Ok(c);
        }
        k = k + 1;
    }
    Err(owned("a mandatory `else` node is missing"))
}

impl IfStatement {
    pub fn new(t: &SyntaxTree, n: usize) -> (r: Result<Self, String>)
        requires
            t.wf(),
            t.valid(n as int),
        ensures
            r matches Ok(v) ==> crate::enum_def::paren_tied(t, crate::enum_def::field_child(t, n as int, "condition"@), v.condition) && crate::enum_def::stmt_tied(t, crate::enum_def::field_child(t, n as int, "consequence"@), v.consequence) && (v.alternative matches Some(a) ==> crate::enum_def::stmt_tied(t, crate::enum_def::field_child(t, n as int, "alternative"@), a.statement)),
            r matches Ok(v) ==> v.node_context.id == n && t.nodes@[n as int].kind@ == "if_statement"@,
            crate::accessor::field_children(t, n as int, "alternative"@).len() == 0 && first_field_if(t, n as int, "condition"@, |c: int| leaf_inside(t, c))
                && first_field_if(t, n as int, "consequence"@, |c: int| crate::enum_def::is_leaf_statement_kind(t.nodes@[c].kind@))
                ==> (r is Ok <==> t.nodes@[n as int].kind@ == "if_statement"@ && first_field_is(t, n as int, "condition"@, |c: int| leaf_inside_ok(t, c))
                && first_field_is(t, n as int, "consequence"@, |c: int| crate::enum_def::leaf_statement_ok(t, c))),
            r matches Ok(v) ==> (v.alternative is Some <==> crate::accessor::field_children(t, n as int, "alternative"@).len() > 0),
            t.nodes@[n as int].kind@ == "if_statement"@ && crate::enum_def::stmt_reads(t, n as int) ==> r is Ok,
        decreases t.nodes@.len() - n, 1int,
    {
        proof {
            crate::enum_def::lemma_composite_statement_kinds(t.nodes@[n as int].kind@);
        }
        assert_check(t, n, "if_statement")?;
        let alternative = match try_c_by_n(t, n, "alternative") {
            Some(a) => {
                let e = else_node_of(t, n)?;
                let else_node = ValueNode::new(t, e)?;
                let statement = Statement::new(t, a)?;
                Some(ElseClause { else_node, statement })
            },
            None => None,
        };
        let c = c_by_n(t, n, "condition")?;
        let condition = ParenthesizedExpression::new(t, c)?;
        let q = c_by_n(t, n, "consequence")?;
        let consequence = Statement::new(t, q)?;
        Ok(IfStatement { condition, consequence, alternative, node_context: NodeContext::with_punctuation(t, n) })
    }

    /// `if` and the condition; the consequence as a clause body; an `else`
    /// after a closing brace on its line (K&R) or on the next line (Allman),
    /// after another statement on the next line; `else if` stays on one line.
    pub fn build<'a>(&self, b: &'a DocBuilder<'a>, cm: &CommentMap, st: &mut BuildState) -> (r: DocRef<'a>)
        ensures
            final(st).printed@.len() == old(st).printed@.len(),
            exists|body: Seq<DocRef<'a>>| #[trigger] wraps(*r, body) && if_layout(body, *self, cm, b.config),
        decreases self,
    {
        proof {
            reveal_strlit(" ");
            assert(" "@ =~= seq![' ']);
        }
        let mut body: Vec<DocRef<'a>> = Vec::new();
        let w = b.txt("if ");
        body.push(w);
        let c = self.condition.build(b, cm, st);
        body.push(c);
        let cd = self.consequence.build(b, cm, st);
        let ghost before_clause = body@;
        push_clause_body(b, self.consequence.is_block(), cd, &mut body);
        assert(body@[0] == before_clause[0] && body@[1] == before_clause[1]) by {
            assert(body@.subrange(0, 2)[0] == body@[0]);
            assert(body@.subrange(0, 2)[1] == body@[1]);
        }
        assert(body@.len() == 4);
        assert(is_text(*body@[0], "if "@));
        assert(clause_layout(*body@[2], *body@[3], self.consequence is Block, b.config));
        let ghost head = body@;
        let braced_consequence = self.consequence.is_block() || b.config.wrap_single_statements;
        match &self.alternative {
            Some(alt) => {
                if braced_consequence {
                    let s = match b.config.brace_style {
                        BraceStyle::KAndR => b.txt(" "),
                        BraceStyle::Allman => b.nl(),
                    };
                    body.push(s);
                    let e = alt.else_node.build(b, cm, st);
                    body.push(e);
                    let ghost mid = body@;
                    assert(is_brace_sep(*mid[4], b.config.brace_style));
                    assert(wraps_text(*mid[5], alt.else_node.value@));
                    if alt.statement.is_if() || (!alt.statement.is_block() && !b.config.wrap_single_statements) {
                        let s2 = b.txt(" ");
                        body.push(s2);
                        let a = alt.statement.build(b, cm, st);
                        body.push(a);
                        assert(is_text(*body@[6], seq![' ']));
                    } else {
                        let ad = alt.statement.build(b, cm, st);
                        let ghost before_alt = body@;
                        push_clause_body(b, alt.statement.is_block(), ad, &mut body);
                        assert(forall|k: int| 0 <= k < 6 ==> body@[k] == before_alt[k]) by {
                            assert forall|k: int| 0 <= k < 6 implies body@[k] == before_alt[k] by {
                                assert(body@.subrange(0, 6)[k] == body@[k]);
                            }
                        }
                        assert(clause_layout(*body@[6], *body@[7], alt.statement is Block, b.config));
                    }
                    assert(body@[4] == mid[4] && body@[5] == mid[5]);
                    assert(body@.len() == 8);
                } else {
                    let n = b.nl();
                    body.push(n);
                    let e = alt.else_node.build(b, cm, st);
                    body.push(e);
                    if alt.statement.is_if() {
                        let s2 = b.txt(" ");
                        body.push(s2);
                        let a = alt.statement.build(b, cm, st);
                        body.push(a);
                    } else if alt.statement.is_block() {
                        let s2 = before_brace(b);
                        body.push(s2);
                        let a = alt.statement.build(b, cm, st);
                        body.push(a);
                    } else {
                        let n2 = b.nl();
                        let i = b.indent(n2);
                        body.push(i);
                        let a = alt.statement.build(b, cm, st);
                        body.push(a);
                    }
                }
            },
            None => {},
        }
        let ghost body_v = body@;
        assert(body_v.subrange(0, 4) == head);
        assert(body_v[0] == head[0] && body_v[1] == head[1] && body_v[2] == head[2] && body_v[3] == head[3]);
        assert(if_layout(body_v, *self, cm, b.config));
        let r = with_comments_and_punc(b, cm, st, &self.node_context, body);
        assert(wraps(*r, body_v));
        r
    }
}

/// `n` elements, each two apart by a soft line break.
pub open spec fn is_softline_list<'a>(d: Doc<'a>, n: nat) -> bool {
    &&& d is Concat
    &&& exists|elems: Seq<DocRef<'a>>, sep: Seq<DocRef<'a>>|
        #![trigger interspersed(elems, sep)]
        elems.len() == n && sep.len() == 1 && *sep[0] == Doc::Softline && concat_parts(d) == interspersed(elems, sep)
}

/// The initializer of a `for`: a declaration, or expressions.
pub enum ForInitOption {
    Declaration(LocalVariableDeclaration),
    Exps(Vec<Expression>),
}

impl ForInitOption {
    /// The initializer of the `for` node `n`, if it has one.
    pub fn of(t: &SyntaxTree, n: usize) -> (r: Result<Option<Self>, String>)
        requires
            t.wf(),
            t.valid(n as int),
        ensures
            r matches Ok(o) ==> (o is Some <==> crate::accessor::field_children(t, n as int, "init"@).len() > 0),
            crate::accessor::field_children(t, n as int, "init"@).len() == 0 ==> r matches Ok(None),
            r matches Ok(Some(x)) ==> (x is Declaration <==> t.nodes@[crate::accessor::field_children(
                t,
                n as int,
                "init"@,
            )[0] as int].kind@ == "local_variable_declaration"@),
            crate::accessor::field_children(t, n as int, "init"@).len() > 0 && local_declaration_reads(
                t,
                crate::accessor::field_children(t, n as int, "init"@)[0] as int,
            ) ==> r is Ok,
        decreases t.nodes@.len() - n, 1int,
    {
        match try_c_by_n(t, n, "init") {
            None => Ok(None),
            Some(i) => {
                if kind_is(t, i, "local_variable_declaration") {
                    Ok(Some(ForInitOption::Declaration(LocalVariableDeclaration::new(t, i)?)))
                } else {
                    let cs = try_cs_by_n(t, n, "init");
                    Ok(Some(ForInitOption::Exps(expressions_of(t, n, &cs)?)))
                }
            },
        }
    }

    pub fn build<'a>(&self, b: &'a DocBuilder<'a>, cm: &CommentMap, st: &mut BuildState) -> (r: DocRef<'a>)
        ensures
            final(st).printed@.len() == old(st).printed@.len(),
            self matches ForInitOption::Exps(v) ==> *r is Choice && *r->Choice_0 == Doc::Flat(r->Choice_1)
                && is_softline_list(*r->Choice_1, v@.len()),
        decreases self,
    {
        match self {
            ForInitOption::Declaration(d) => d.build(b, cm, st),
            ForInitOption::Exps(exps) => {
                let docs = build_expressions(exps, b, cm, st);
                let sl = b.softline();
                let sep = b.insertable(None, None, Some(sl));
                let i = b.intersperse(docs.as_slice(), &sep);
                assert(insertable_parts(sep) =~= seq![sl]);
                assert(interspersed(docs@, insertable_parts(sep)) == concat_parts(*i));
                b.group(i)
            },
        }
    }
}

/// The `;` children of a node, as punctuation.
fn semicolons_of(t: &SyntaxTree, n: usize) -> (r: Vec<Punctuation>)
    requires
        t.wf(),
        t.valid(n as int),
    ensures
        r@.len() == crate::accessor::kind_ids_from(t, n as int, 0, ";"@).len(),
        forall|i: int|
            0 <= i < r@.len() ==> (#[trigger] r@[i]).id == crate::accessor::kind_ids_from(t, n as int, 0, ";"@)[i]
                && r@[i].type_ == crate::context::PuncuationType::Semicolon,
{
    let node = &t.nodes[n];
    let mut v: Vec<Punctuation> = Vec::new();
    let mut k: usize = 0;
    proof {
        reveal_strlit(",");
        reveal_strlit(";");
        assert(","@[0] != ";"@[0]);
    }
    while k < node.children.len()
        invariant
            t.wf(),
            t.valid(n as int),
            node == &t.nodes@[n as int],
            k <= node.children@.len(),
            ","@ != ";"@,
            v@.map_values(|p: Punctuation| p.id) + crate::accessor::kind_ids_from(t, n as int, k as int, ";"@)
                == crate::accessor::kind_ids_from(t, n as int, 0, ";"@),
            forall|i: int| 0 <= i < v@.len() ==> (#[trigger] v@[i]).type_ == crate::context::PuncuationType::Semicolon,
        decreases node.children@.len() - k,
    {
        let c = node.children[k];
        assert(t.nodes@[n as int].children@[k as int] == c);
        let ghost v0 = v@;
        if kind_is(t, c, ";") {
            match Punctuation::new(t, c) {
                Ok(p) => v.push(p),
                Err(_) => {},
            }
            assert(v@.map_values(|p: Punctuation| p.id) =~= v0.map_values(|p: Punctuation| p.id).push(c));
        }
        k = k + 1;
    }
    proof {
        let ids = crate::accessor::kind_ids_from(t, n as int, 0, ";"@);
        assert(v@.map_values(|p: Punctuation| p.id) =~= ids);
        assert forall|i: int| 0 <= i < v@.len() implies (#[trigger] v@[i]).id == ids[i] by {
            assert(v@.map_values(|p: Punctuation| p.id)[i] == v@[i].id);
        }
    }
    v
}

/// `for (init; condition; update) body`
pub struct ForStatement {
    pub init: Option<ForInitOption>,
    pub condition: Option<Expression>,
    pub update: Option<Expression>,
    pub body: Statement,
    pub semicolons: Vec<Punctuation>,
    pub node_context: NodeContext,
}

impl ForStatement {
    pub fn new(t: &SyntaxTree, n: usize) -> (r: Result<Self, String>)
        requires
            t.wf(),
            t.valid(n as int),
        ensures
            r matches Ok(v) ==> (v.condition is Some <==> crate::accessor::field_children(t, n as int, "condition"@).len() > 0) && (v.condition matches Some(c) ==> crate::enum_def::expr_tied(t, crate::enum_def::field_child(t, n as int, "condition"@), c)) && (v.update is Some <==> crate::accessor::field_children(t, n as int, "update"@).len() > 0) && (v.update matches Some(u) ==> crate::enum_def::expr_tied(t, crate::enum_def::field_child(t, n as int, "update"@), u)),
            r matches Ok(v) ==> crate::enum_def::stmt_tied(t, crate::enum_def::field_child(t, n as int, "body"@), v.body),
            r matches Ok(v) ==> v.node_context.id == n && t.nodes@[n as int].kind@ == "for_statement"@
                && (v.init is None ==> v.semicolons@.len() >= 1) && (v.condition is None ==> v.semicolons@.len() >= 1)
                && (v.init is None && v.condition is None ==> v.semicolons@.len() >= 2),
            ({
                &&& crate::accessor::field_children(t, n as int, "init"@).len() == 0
                &&& crate::accessor::field_children(t, n as int, "condition"@).len() == 0
                &&& crate::accessor::field_children(t, n as int, "update"@).len() == 0
                &&& first_field_if(t, n as int, "body"@, |c: int| crate::enum_def::is_leaf_statement_kind(t.nodes@[c].kind@))
            }) ==> (r is Ok <==> t.nodes@[n as int].kind@ == "for_statement"@
                && crate::accessor::kind_ids_from(t, n as int, 0, ";"@).len() >= 2
                && first_field_is(t, n as int, "body"@, |c: int| crate::enum_def::leaf_statement_ok(t, c))),
            t.nodes@[n as int].kind@ == "for_statement"@ && crate::enum_def::stmt_reads(t, n as int) ==> r is Ok,
        decreases t.nodes@.len() - n, 2int,
    {
        proof {
            crate::enum_def::lemma_composite_statement_kinds(t.nodes@[n as int].kind@);
        }
        assert_check(t, n, "for_statement")?;
        let init = ForInitOption::of(t, n)?;
        let condition = match try_c_by_n(t, n, "condition") {
            Some(c) => Some(Expression::new(t, c)?),
            None => None,
        };
        let update = match try_c_by_n(t, n, "update") {
            Some(c) => Some(Expression::new(t, c)?),
            None => None,
        };
        let semicolons = semicolons_of(t, n);
        let mut punc_count: usize = 0;
        if init.is_none() {
            punc_count = punc_count + 1;
        }
        if condition.is_none() {
            punc_count = punc_count + 1;
        }
        if punc_count > semicolons.len() {
            return Err(owned("## ForStatement missing semicolons."));
        }
        let bd = c_by_n(t, n, "body")?;
        let body = Statement::new(t, bd)?;
        Ok(ForStatement { init, condition, update, body, semicolons, node_context: NodeContext::with_punctuation(t, n) })
    }

    /// `for `, then the three parts in parentheses, broken after each when
    /// too long; a missing part is its `;`; then the body as a clause body,
    /// or `;` for an empty body (empty braces when wrapping).
    pub fn build<'a>(&self, b: &'a DocBuilder<'a>, cm: &CommentMap, st: &mut BuildState) -> (r: DocRef<'a>)
        ensures
            final(st).printed@.len() == old(st).printed@.len(),
            exists|body: Seq<DocRef<'a>>| #[trigger] wraps(*r, body) && for_layout(body, *self, cm, b.config),
        decreases self,
    {
        proof {
            reveal_strlit(" ");
            assert(" "@ =~= seq![' ']);
            reveal_strlit(";");
        }
        let mut body: Vec<DocRef<'a>> = Vec::new();
        let w = b.txt("for ");
        body.push(w);
        assert(is_text(*body@[0], "for "@));
        let mut next: usize = 0;
        let init = match &self.init {
            Some(i) => i.build(b, cm, st),
            None => {
                next = 1;
                if self.semicolons.len() > 0 {
                    self.semicolons[0].build(b, cm, st)
                } else {
                    b.txt(";")
                }
            },
        };
        let condition = match &self.condition {
            Some(c) => {
                let s = b.txt(" ");
                let d = c.build(b, cm, st);
                let mut v: Vec<DocRef<'a>> = Vec::new();
                v.push(s);
                v.push(d);
                b.concat(v)
            },
            None => {
                if next < self.semicolons.len() {
                    self.semicolons[next].build(b, cm, st)
                } else {
                    b.txt(";")
                }
            },
        };
        let update = match &self.update {
            Some(u) => {
                let s = b.txt(" ");
                let d = u.build(b, cm, st);
                let mut v: Vec<DocRef<'a>> = Vec::new();
                v.push(s);
                v.push(d);
                b.concat(v)
            },
            None => b.nil(),
        };
        let mut docs: Vec<DocRef<'a>> = Vec::new();
        docs.push(init);
        docs.push(condition);
        docs.push(update);
        let m = b.maybeline();
        let sep = b.insertable(None, None, Some(m));
        let m1 = b.maybeline();
        let open = b.insertable(None, Some("("), Some(m1));
        let m2 = b.maybeline();
        let close = b.insertable(Some(m2), Some(")"), None);
        let g = b.group_surround(docs.as_slice(), &sep, &open, &close);
        body.push(g);
        assert(body@[0] == w);
        if self.body.is_semicolon() {
            if b.config.wrap_single_statements {
                let s = before_brace(b);
                body.push(s);
                let e = empty_braces(b);
                body.push(e);
            } else {
                let s = b.txt(";");
                body.push(s);
            }
        } else {
            let bd = self.body.build(b, cm, st);
            let ghost before = body@;
            push_clause_body(b, self.body.is_block(), bd, &mut body);
            assert forall|k: int| 0 <= k < before.len() implies body@[k] == before[k] by {
                assert(body@.subrange(0, before.len() as int)[k] == body@[k]);
            }
        }
        let ghost body_v = body@;
        assert(body_v.len() >= 2);
        assert(is_text(*body_v[0], "for "@));
        assert(loop_tail(body_v, 2, self.body, b.config));
        assert(for_layout(body_v, *self, cm, b.config));
        let r = with_comments_and_punc(b, cm, st, &self.node_context, body);
        assert(wraps(*r, body_v));
        r
    }
}

/// `for (Type name : value) body`
pub struct EnhancedForStatement {
    pub type_: UnannotatedType,
    pub name: ValueNode,
    pub value: Expression,
    pub body: Statement,
    pub node_context: NodeContext,
}

impl EnhancedForStatement {
    pub fn new(t: &SyntaxTree, n: usize) -> (r: Result<Self, String>)
        requires
            t.wf(),
            t.valid(n as int),
        ensures
            r matches Ok(v) ==> crate::enum_def::type_tied(t, crate::enum_def::field_child(t, n as int, "type"@), v.type_) && crate::data_model::read_from(t, crate::enum_def::field_child(t, n as int, "name"@), v.name.node_context.id, v.name.value),
            r matches Ok(v) ==> crate::enum_def::expr_tied(t, crate::enum_def::field_child(t, n as int, "value"@), v.value) && crate::enum_def::stmt_tied(t, crate::enum_def::field_child(t, n as int, "body"@), v.body),
            r matches Ok(v) ==> v.node_context.id == n && t.nodes@[n as int].kind@ == "enhanced_for_statement"@,
            leaf_field(t, n as int, "value"@) && first_field_if(t, n as int, "body"@, |c: int| crate::enum_def::is_leaf_statement_kind(t.nodes@[c].kind@))
                ==> (r is Ok <==> t.nodes@[n as int].kind@ == "enhanced_for_statement"@ && declared_type_ok(t, n as int)
                && readable_first(t, crate::accessor::field_children(t, n as int, "name"@)) && leaf_field_ok(t, n as int, "value"@)
                && first_field_is(t, n as int, "body"@, |c: int| crate::enum_def::leaf_statement_ok(t, c))),
            t.nodes@[n as int].kind@ == "enhanced_for_statement"@ && crate::enum_def::stmt_reads(t, n as int) ==> r is Ok,
        decreases t.nodes@.len() - n, 1int,
    {
        proof {
            crate::enum_def::lemma_composite_statement_kinds(t.nodes@[n as int].kind@);
        }
        assert_check(t, n, "enhanced_for_statement")?;
        let ty = c_by_n(t, n, "type")?;
        let type_ = UnannotatedType::new(t, ty)?;
        let nm = c_by_n(t, n, "name")?;
        let name = ValueNode::new(t, nm)?;
        let v = c_by_n(t, n, "value")?;
        let value = Expression::new(t, v)?;
        let bd = c_by_n(t, n, "body")?;
        let body = Statement::new(t, bd)?;
        Ok(EnhancedForStatement { type_, name, value, body, node_context: NodeContext::with_punctuation(t, n) })
    }

    pub fn build<'a>(&self, b: &'a DocBuilder<'a>, cm: &CommentMap, st: &mut BuildState) -> (r: DocRef<'a>)
        ensures
            final(st).printed@.len() == old(st).printed@.len(),
            exists|body: Seq<DocRef<'a>>| #[trigger] wraps(*r, body) && enhanced_for_layout(body, *self, cm, b.config),
        decreases self,
    {
        proof {
            reveal_strlit(" ");
            assert(" "@ =~= seq![' ']);
            reveal_strlit(";");
        }
        let mut body: Vec<DocRef<'a>> = Vec::new();
        let w = b.txt("for (");
        body.push(w);
        let ty = self.type_.build(b, cm, st);
        body.push(ty);
        let s = b.txt(" ");
        body.push(s);
        let nm = self.name.build(b, cm, st);
        body.push(nm);
        let col = b._txt_(":");
        body.push(col);
        let v = self.value.build(b, cm, st);
        body.push(v);
        let c = b.txt(")");
        body.push(c);
        assert(body@.len() == 7);
        assert(is_text(*body@[0], "for ("@));
        assert(is_text(*body@[2], seq![' ']));
        assert(is_text(*body@[4], seq![' '] + ":"@ + seq![' ']));
        assert(is_text(*body@[6], ")"@));
        assert(crate::enum_def::unannotated_type_doc(*body@[1], self.type_));
        assert(wraps_text(*body@[3], self.name.value@));
        assert(crate::enum_def::expression_doc(*body@[5], self.value, b.config));
        let ghost head = body@;
        if self.body.is_semicolon() {
            if b.config.wrap_single_statements {
                let s2 = before_brace(b);
                body.push(s2);
                let e = empty_braces(b);
                body.push(e);
            } else {
                let s2 = b.txt(";");
                body.push(s2);
            }
        } else {
            let bd = self.body.build(b, cm, st);
            let ghost before = body@;
            push_clause_body(b, self.body.is_block(), bd, &mut body);
            assert forall|k: int| 0 <= k < before.len() implies body@[k] == before[k] by {
                assert(body@.subrange(0, before.len() as int)[k] == body@[k]);
            }
        }
        let ghost body_v = body@;
        assert(body_v[0] == head[0] && body_v[2] == head[2] && body_v[4] == head[4] && body_v[6] == head[6]);
        assert(enhanced_for_layout(body_v, *self, cm, b.config));
        let r = with_comments_and_punc(b, cm, st, &self.node_context, body);
        assert(wraps(*r, body_v));
        r
    }
}

/// `while (condition) body`
pub struct WhileStatement {
    pub condition: ParenthesizedExpression,
    pub body: Statement,
    pub semicolon: Option<Punctuation>,
    pub node_context: NodeContext,
}

impl WhileStatement {
    pub fn new(t: &SyntaxTree, n: usize) -> (r: Result<Self, String>)
        requires
            t.wf(),
            t.valid(n as int),
        ensures
            r matches Ok(v) ==> crate::enum_def::paren_tied(t, crate::enum_def::field_child(t, n as int, "condition"@), v.condition) && crate::enum_def::stmt_tied(t, crate::enum_def::field_child(t, n as int, "body"@), v.body),
            r matches Ok(v) ==> v.node_context.id == n && t.nodes@[n as int].kind@ == "while_statement"@,
            first_field_if(t, n as int, "condition"@, |c: int| leaf_inside(t, c)) && first_field_if(t, n as int, "body"@, |c: int| crate::enum_def::is_leaf_statement_kind(t.nodes@[c].kind@))
                ==> (r is Ok <==> t.nodes@[n as int].kind@ == "while_statement"@ && first_field_is(t, n as int, "condition"@, |c: int| leaf_inside_ok(t, c))
                && first_field_is(t, n as int, "body"@, |c: int| crate::enum_def::leaf_statement_ok(t, c))),
            t.nodes@[n as int].kind@ == "while_statement"@ && crate::enum_def::stmt_reads(t, n as int) ==> r is Ok,
        decreases t.nodes@.len() - n, 1int,
    {
        proof {
            crate::enum_def::lemma_composite_statement_kinds(t.nodes@[n as int].kind@);
        }
        assert_check(t, n, "while_statement")?;
        let c = c_by_n(t, n, "condition")?;
        let mut condition = ParenthesizedExpression::new(t, c)?;
        let bd = c_by_n(t, n, "body")?;
        let body = Statement::new(t, bd)?;
        let semicolon = if body.is_semicolon() {
            let p = condition.node_context.punc;
            condition.node_context.punc = None;
            p
        } else {
            None
        };
        Ok(WhileStatement { condition, body, semicolon, node_context: NodeContext::with_punctuation(t, n) })
    }

    /// `while` and the condition, then the body as a clause body; an empty
    /// body is its `;`, or empty braces when wrapping.
    pub fn build<'a>(&self, b: &'a DocBuilder<'a>, cm: &CommentMap, st: &mut BuildState) -> (r: DocRef<'a>)
        ensures
            final(st).printed@.len() == old(st).printed@.len(),
            exists|body: Seq<DocRef<'a>>| #[trigger] wraps(*r, body) && while_layout(body, *self, cm, b.config),
        decreases self,
    {
        let mut body: Vec<DocRef<'a>> = Vec::new();
        let w = b.txt_("while");
        body.push(w);
        let c = self.condition.build(b, cm, st);
        body.push(c);
        assert(is_text(*body@[0], "while"@ + seq![' ']));
        let ghost head = body@;
        if self.body.is_semicolon() {
            if b.config.wrap_single_statements {
                match &self.semicolon {
                    Some(p) => {
                        let bucket = cm.bucket(p.id);
                        let mut comments: Vec<DocRef<'a>> = Vec::new();
                        handle_pre_comments(b, bucket, &mut comments, st);
                        handle_post_comments(b, bucket, &mut comments, st);
                        let d = b.concat(comments);
                        body.push(d);
                    },
                    None => {},
                }
                let s = before_brace(b);
                body.push(s);
                let e = empty_braces(b);
                body.push(e);
            } else {
                match &self.semicolon {
                    Some(p) => {
                        let d = p.build(b, cm, st);
                        body.push(d);
                    },
                    None => {},
                }
            }
        } else {
            let bd = self.body.build(b, cm, st);
            let ghost before = body@;
            push_clause_body(b, self.body.is_block(), bd, &mut body);
            assert forall|k: int| 0 <= k < before.len() implies body@[k] == before[k] by {
                assert(body@.subrange(0, before.len() as int)[k] == body@[k]);
            }
        }
        let ghost body_v = body@;
        assert(body_v[0] == head[0] && body_v[1] == head[1]);
        assert(while_layout(body_v, *self, cm, b.config));
        let r = with_comments(b, cm, st, &self.node_context, body);
        assert(wraps(*r, body_v));
        r
    }
}

/// `do block while (condition);`
pub struct DoStatement {
    pub body: Block,
    pub condition: ParenthesizedExpression,
    pub node_context: NodeContext,
}

impl DoStatement {
    pub fn new(t: &SyntaxTree, n: usize) -> (r: Result<Self, String>)
        requires
            t.wf(),
            t.valid(n as int),
        ensures
            r matches Ok(v) ==> crate::enum_def::block_tied(t, crate::enum_def::field_child(t, n as int, "body"@), v.body) && crate::enum_def::paren_tied(t, crate::enum_def::field_child(t, n as int, "condition"@), v.condition),
            r matches Ok(v) ==> v.node_context.id == n && t.nodes@[n as int].kind@ == "do_statement"@,
            first_field_if(t, n as int, "condition"@, |c: int| leaf_inside(t, c)) && first_field_if(t, n as int, "body"@, |c: int| holds_leaf_statements(t, c))
                ==> (r is Ok <==> t.nodes@[n as int].kind@ == "do_statement"@ && first_field_is(t, n as int, "condition"@, |c: int| leaf_inside_ok(t, c))
                && first_field_is(t, n as int, "body"@, |c: int| leaf_block_ok(t, c))),
        decreases t.nodes@.len() - n, 1int,
    {
        assert_check(t, n, "do_statement")?;
        let bd = c_by_n(t, n, "body")?;
        let body = Block::new(t, bd)?;
        let c = c_by_n(t, n, "condition")?;
        let condition = ParenthesizedExpression::new(t, c)?;
        Ok(DoStatement { body, condition, node_context: NodeContext::with_punctuation(t, n) })
    }

    pub fn build<'a>(&self, b: &'a DocBuilder<'a>, cm: &CommentMap, st: &mut BuildState) -> (r: DocRef<'a>)
        ensures
            final(st).printed@.len() == old(st).printed@.len(),
            exists|body: Seq<DocRef<'a>>| #[trigger] wraps(*r, body) && do_layout(body, *self, cm, b.config),
        decreases self,
    {
        let mut body: Vec<DocRef<'a>> = Vec::new();
        let w = b.txt("do");
        body.push(w);
        let s = before_brace(b);
        body.push(s);
        let d = self.body.build(b, cm, st);
        body.push(d);
        match b.config.brace_style {
            BraceStyle::KAndR => {
                let x = b._txt_("while");
                body.push(x);
            },
            BraceStyle::Allman => {
                let n = b.nl();
                body.push(n);
                let x = b.txt_("while");
                body.push(x);
            },
        }
        let c = self.condition.build(b, cm, st);
        body.push(c);
        let ghost body_v = body@;
        assert(do_layout(body_v, *self, cm, b.config));
        let r = with_comments_and_punc(b, cm, st, &self.node_context, body);
        assert(wraps(*r, body_v));
        r
    }
}

/// `System.runAs`, the user in parentheses, the brace separator, the block.
pub open spec fn run_as_layout<'a>(body: Seq<DocRef<'a>>, s: RunAsStatement, cm: &CommentMap, cfg: PrettyConfig) -> bool
    decreases s,
{
    body.len() == 4 && is_text(*body[0], "System.runAs"@) && is_brace_sep(*body[2], cfg.brace_style)
        && crate::enum_def::block_doc(*body[3], s.block, cm, cfg)
}

/// A `System.runAs` whose user is an expression that holds no other
/// expression and whose block holds only statements that hold no other
/// statement.
pub open spec fn leaf_run_as(t: &SyntaxTree, n: int) -> bool {
    let b = crate::accessor::kind_children(t, n, "block"@);
    &&& first_field_if(t, n, "user"@, |c: int| leaf_inside(t, c))
    &&& b.len() > 0 ==> holds_leaf_statements(t, b[0] as int)
}

/// Such a statement that can be read.
pub open spec fn leaf_run_as_ok(t: &SyntaxTree, n: int) -> bool {
    let b = crate::accessor::kind_children(t, n, "block"@);
    &&& t.nodes@[n].kind@ == "run_as_statement"@
    &&& first_field_is(t, n, "user"@, |c: int| leaf_inside_ok(t, c))
    &&& b.len() > 0
    &&& leaf_block_ok(t, b[0] as int)
}

/// `System.runAs(user) block`
pub struct RunAsStatement {
    pub user: ParenthesizedExpression,
    pub block: Block,
    pub node_context: NodeContext,
}

impl RunAsStatement {
    pub fn new(t: &SyntaxTree, n: usize) -> (r: Result<Self, String>)
        requires
            t.wf(),
            t.valid(n as int),
        ensures
            r matches Ok(v) ==> crate::enum_def::paren_tied(t, crate::enum_def::field_child(t, n as int, "user"@), v.user) && crate::enum_def::block_tied(t, crate::accessor::kind_children(t, n as int, "block"@)[0] as int, v.block),
            r matches Ok(v) ==> v.node_context.id == n && t.nodes@[n as int].kind@ == "run_as_statement"@,
            leaf_run_as(t, n as int) ==> (r is Ok <==> leaf_run_as_ok(t, n as int)),
        decreases t.nodes@.len() - n, 1int,
    {
        assert_check(t, n, "run_as_statement")?;
        let u = c_by_n(t, n, "user")?;
        let user = ParenthesizedExpression::new(t, u)?;
        let bl = c_by_k(t, n, "block")?;
        let block = Block::new(t, bl)?;
        Ok(RunAsStatement { user, block, node_context: NodeContext::with_punctuation(t, n) })
    }

    pub fn build<'a>(&self, b: &'a DocBuilder<'a>, cm: &CommentMap, st: &mut BuildState) -> (r: DocRef<'a>)
        ensures
            final(st).printed@.len() == old(st).printed@.len(),
            exists|body: Seq<DocRef<'a>>| #[trigger] wraps(*r, body) && run_as_layout(body, *self, cm, b.config),
        decreases self,
    {
        let mut body: Vec<DocRef<'a>> = Vec::new();
        let w = b.txt("System.runAs");
        body.push(w);
        let u = self.user.build(b, cm, st);
        body.push(u);
        let s = before_brace(b);
        body.push(s);
        let d = self.block.build(b, cm, st);
        body.push(d);
        let ghost body_v = body@;
        assert(run_as_layout(body_v, *self, cm, b.config));
        let r = with_comments_and_punc(b, cm, st, &self.node_context, body);
        assert(wraps(*r, body_v));
        r
    }
}

/// An expression followed by its `;`.
pub struct ExpressionStatement {
    pub exp: Expression,
    pub node_context: NodeContext,
}

impl ExpressionStatement {
    pub fn new(t: &SyntaxTree, n: usize) -> (r: Result<Self, String>)
        requires
            t.wf(),
            t.valid(n as int),
        ensures
            r matches Ok(v) ==> crate::enum_def::expr_tied(t, crate::enum_def::first_code_child(t, n as int), v.exp),
            r matches Ok(v) ==> v.node_context.id == n && t.nodes@[n as int].kind@ == "expression_statement"@,
            t.nodes@[n as int].kind@ == "expression_statement"@ && crate::accessor::code_children(t, n as int).len() > 0
                && crate::enum_def::expr_below(t, n as int, crate::accessor::code_children(t, n as int)[0] as int) ==> r is Ok,
        decreases t.nodes@.len() - n, 1int,
    {
        assert_check(t, n, "expression_statement")?;
        let c = first_c(t, n)?;
        let exp = Expression::new(t, c)?;
        Ok(ExpressionStatement { exp, node_context: NodeContext::with_punctuation(t, n) })
    }

    pub fn build<'a>(&self, b: &'a DocBuilder<'a>, cm: &CommentMap, st: &mut BuildState) -> (r: DocRef<'a>)
        ensures
            final(st).printed@.len() == old(st).printed@.len(),
            exists|body: Seq<DocRef<'a>>| #[trigger] wraps(*r, body) && body.len() == 1
                && crate::enum_def::expression_doc(*body[0], self.exp, b.config),
        decreases self,
    {
        let e = self.exp.build(b, cm, st);
        let mut body: Vec<DocRef<'a>> = Vec::new();
        body.push(e);
        let ghost body_v = body@;
        assert(body_v[0] == e);
        let r = with_comments_and_punc(b, cm, st, &self.node_context, body);
        assert(wraps(*r, body_v));
        r
    }
}

/// `return`, then a space and the value where there is one.
pub open spec fn return_layout<'a>(body: Seq<DocRef<'a>>, s: ReturnStatement, cfg: PrettyConfig) -> bool {
    &&& body.len() == if s.exp is Some { 3int } else { 1int }
    &&& is_text(*body[0], "return"@)
    &&& s.exp is Some ==> is_text(*body[1], seq![' '])
    &&& s.exp matches Some(e) ==> crate::enum_def::expression_doc(*body[2], e, cfg)
}

/// `return;` or `return value;`
pub struct ReturnStatement {
    pub exp: Option<Expression>,
    pub node_context: NodeContext,
}

impl ReturnStatement {
    pub fn new(t: &SyntaxTree, n: usize) -> (r: Result<Self, String>)
        requires
            t.wf(),
            t.valid(n as int),
        ensures
            r matches Ok(v) ==> (v.exp matches Some(e) ==> crate::enum_def::expr_tied(t, crate::enum_def::first_code_child(t, n as int), e)),
            r matches Ok(v) ==> v.node_context.id == n && t.nodes@[n as int].kind@ == "return_statement"@,
            crate::accessor::code_children(t, n as int).len() == 0 ==> (r is Ok <==> t.nodes@[n as int].kind@ == "return_statement"@),
            r matches Ok(v) ==> (v.exp is Some <==> crate::accessor::code_children(t, n as int).len() > 0),
            t.nodes@[n as int].kind@ == "return_statement"@ && (crate::accessor::code_children(t, n as int).len() > 0
                ==> crate::enum_def::expr_below(t, n as int, crate::accessor::code_children(t, n as int)[0] as int)) ==> r is Ok,
        decreases t.nodes@.len() - n, 1int,
    {
        assert_check(t, n, "return_statement")?;
        match crate::accessor::try_first_c(t, n) {
            Some(c) => {
                let exp = Expression::new(t, c)?;
                Ok(ReturnStatement { exp: Some(exp), node_context: NodeContext::with_punctuation(t, n) })
            },
            None => Ok(ReturnStatement { exp: None, node_context: NodeContext::with_inner_punctuation(t, n) }),
        }
    }

    pub fn build<'a>(&self, b: &'a DocBuilder<'a>, cm: &CommentMap, st: &mut BuildState) -> (r: DocRef<'a>)
        ensures
            final(st).printed@.len() == old(st).printed@.len(),
            exists|body: Seq<DocRef<'a>>| #[trigger] wraps(*r, body) && return_layout(body, *self, b.config),
        decreases self,
    {
        proof {
            reveal_strlit(" ");
            assert(" "@ =~= seq![' ']);
        }
        let mut body: Vec<DocRef<'a>> = Vec::new();
        let w = b.txt("return");
        body.push(w);
        match &self.exp {
            Some(e) => {
                let s = b.txt(" ");
                body.push(s);
                let d = e.build(b, cm, st);
                body.push(d);
            },
            None => {},
        }
        let ghost body_v = body@;
        assert(return_layout(body_v, *self, b.config));
        let r = with_comments_and_punc(b, cm, st, &self.node_context, body);
        assert(wraps(*r, body_v));
        r
    }
}

/// `throw ` and the value.
pub open spec fn throw_layout<'a>(body: Seq<DocRef<'a>>, s: ThrowStatement, cfg: PrettyConfig) -> bool {
    body.len() == 2 && is_text(*body[0], "throw "@) && crate::enum_def::expression_doc(*body[1], s.exp, cfg)
}

/// `throw exception;`
pub struct ThrowStatement {
    pub exp: Expression,
    pub node_context: NodeContext,
}

impl ThrowStatement {
    pub fn new(t: &SyntaxTree, n: usize) -> (r: Result<Self, String>)
        requires
            t.wf(),
            t.valid(n as int),
        ensures
            r matches Ok(v) ==> crate::enum_def::expr_tied(t, crate::enum_def::first_code_child(t, n as int), v.exp),
            r matches Ok(v) ==> v.node_context.id == n && t.nodes@[n as int].kind@ == "throw_statement"@,
            t.nodes@[n as int].kind@ == "throw_statement"@ && crate::accessor::code_children(t, n as int).len() > 0
                && crate::enum_def::expr_below(t, n as int, crate::accessor::code_children(t, n as int)[0] as int) ==> r is Ok,
        decreases t.nodes@.len() - n, 1int,
    {
        assert_check(t, n, "throw_statement")?;
        let c = first_c(t, n)?;
        let exp = Expression::new(t, c)?;
        Ok(ThrowStatement { exp, node_context: NodeContext::with_punctuation(t, n) })
    }

    pub fn build<'a>(&self, b: &'a DocBuilder<'a>, cm: &CommentMap, st: &mut BuildState) -> (r: DocRef<'a>)
        ensures
            final(st).printed@.len() == old(st).printed@.len(),
            exists|body: Seq<DocRef<'a>>| #[trigger] wraps(*r, body) && throw_layout(body, *self, b.config),
        decreases self,
    {
        let w = b.txt("throw ");
        let e = self.exp.build(b, cm, st);
        let mut body: Vec<DocRef<'a>> = Vec::new();
        body.push(w);
        body.push(e);
        let ghost body_v = body@;
        assert(throw_layout(body_v, *self, b.config));
        let r = with_comments_and_punc(b, cm, st, &self.node_context, body);
        assert(wraps(*r, body_v));
        r
    }
}

/// `break`, then a space and the label where there is one.
pub open spec fn break_layout<'a>(body: Seq<DocRef<'a>>, s: BreakStatement) -> bool {
    &&& body.len() == if s.identifier is Some { 3int } else { 1int }
    &&& is_text(*body[0], "break"@)
    &&& s.identifier is Some ==> is_text(*body[1], seq![' '])
    &&& s.identifier matches Some(x) ==> wraps_text(*body[2], x.value@)
}

/// `break;` or `break label;`
pub struct BreakStatement {
    pub identifier: Option<ValueNode>,
    pub node_context: NodeContext,
}

impl BreakStatement {
    pub fn new(t: &SyntaxTree, n: usize) -> (r: Result<Self, String>)
        requires
            t.wf(),
            t.valid(n as int),
        ensures
            r is Ok <==> t.nodes@[n as int].kind@ == "break_statement"@ && (crate::accessor::kind_children(t, n as int, "identifier"@).len() > 0 ==> crate::accessor::readable(t, crate::accessor::kind_children(t, n as int, "identifier"@)[0] as int)),
            r matches Ok(v) ==> (v.identifier is Some <==> crate::accessor::kind_children(t, n as int, "identifier"@).len() > 0),
            r matches Ok(v) ==> (v.identifier matches Some(x) ==> x.node_context.id == crate::accessor::kind_children(t, n as int, "identifier"@)[0] && crate::strs::bytes_of(x.value@) == crate::accessor::node_bytes(t, crate::accessor::kind_children(t, n as int, "identifier"@)[0] as int)),
            r matches Ok(v) ==> v.node_context.id == n && t.nodes@[n as int].kind@ == "break_statement"@,
    {
        assert_check(t, n, "break_statement")?;
        match try_c_by_k(t, n, "identifier") {
            Some(c) => Ok(BreakStatement {
                identifier: Some(ValueNode::new(t, c)?),
                node_context: NodeContext::with_punctuation(t, n),
            }),
            None => Ok(BreakStatement { identifier: None, node_context: NodeContext::with_inner_punctuation(t, n) }),
        }
    }

    pub fn build<'a>(&self, b: &'a DocBuilder<'a>, cm: &CommentMap, st: &mut BuildState) -> (r: DocRef<'a>)
        ensures
            final(st).printed@.len() == old(st).printed@.len(),
            exists|body: Seq<DocRef<'a>>| #[trigger] wraps(*r, body) && break_layout(body, *self),
    {
        proof {
            reveal_strlit(" ");
            assert(" "@ =~= seq![' ']);
        }
        let mut body: Vec<DocRef<'a>> = Vec::new();
        let w = b.txt("break");
        body.push(w);
        match &self.identifier {
            Some(i) => {
                let s = b.txt(" ");
                body.push(s);
                let d = i.build(b, cm, st);
                body.push(d);
            },
            None => {},
        }
        let ghost body_v = body@;
        assert(break_layout(body_v, *self));
        let r = with_comments_and_punc(b, cm, st, &self.node_context, body);
        assert(wraps(*r, body_v));
        r
    }
}

/// `continue`, then a space and the label where there is one.
pub open spec fn continue_layout<'a>(body: Seq<DocRef<'a>>, s: ContinueStatement) -> bool {
    &&& body.len() == if s.identifier is Some { 3int } else { 1int }
    &&& is_text(*body[0], "continue"@)
    &&& s.identifier is Some ==> is_text(*body[1], seq![' '])
    &&& s.identifier matches Some(x) ==> wraps_text(*body[2], x.value@)
}

/// `continue;` or `continue label;`
pub struct ContinueStatement {
    pub identifier: Option<ValueNode>,
    pub node_context: NodeContext,
}

impl ContinueStatement {
    pub fn new(t: &SyntaxTree, n: usize) -> (r: Result<Self, String>)
        requires
            t.wf(),
            t.valid(n as int),
        ensures
            r is Ok <==> t.nodes@[n as int].kind@ == "continue_statement"@ && (crate::accessor::kind_children(t, n as int, "identifier"@).len() > 0 ==> crate::accessor::readable(t, crate::accessor::kind_children(t, n as int, "identifier"@)[0] as int)),
            r matches Ok(v) ==> (v.identifier is Some <==> crate::accessor::kind_children(t, n as int, "identifier"@).len() > 0),
            r matches Ok(v) ==> (v.identifier matches Some(x) ==> x.node_context.id == crate::accessor::kind_children(t, n as int, "identifier"@)[0] && crate::strs::bytes_of(x.value@) == crate::accessor::node_bytes(t, crate::accessor::kind_children(t, n as int, "identifier"@)[0] as int)),
            r matches Ok(v) ==> v.node_context.id == n && t.nodes@[n as int].kind@ == "continue_statement"@,
    {
        assert_check(t, n, "continue_statement")?;
        match try_c_by_k(t, n, "identifier") {
            Some(c) => Ok(ContinueStatement {
                identifier: Some(ValueNode::new(t, c)?),
                node_context: NodeContext::with_punctuation(t, n),
            }),
            None => Ok(ContinueStatement { identifier: None, node_context: NodeContext::with_inner_punctuation(t, n) }),
        }
    }

    pub fn build<'a>(&self, b: &'a DocBuilder<'a>, cm: &CommentMap, st: &mut BuildState) -> (r: DocRef<'a>)
        ensures
            final(st).printed@.len() == old(st).printed@.len(),
            exists|body: Seq<DocRef<'a>>| #[trigger] wraps(*r, body) && continue_layout(body, *self),
    {
        proof {
            reveal_strlit(" ");
            assert(" "@ =~= seq![' ']);
        }
        let mut body: Vec<DocRef<'a>> = Vec::new();
        let w = b.txt("continue");
        body.push(w);
        match &self.identifier {
            Some(i) => {
                let s = b.txt(" ");
                body.push(s);
                let d = i.build(b, cm, st);
                body.push(d);
            },
            None => {},
        }
        let ghost body_v = body@;
        assert(continue_layout(body_v, *self));
        let r = with_comments_and_punc(b, cm, st, &self.node_context, body);
        assert(wraps(*r, body_v));
        r
    }
}

/// A `catch` clause: ` catch ` after the closing brace, or `catch ` on the
/// next line with Allman braces; then the parameter in parentheses, the
/// brace separator and the block.
pub open spec fn catch_layout<'a>(body: Seq<DocRef<'a>>, cfg: PrettyConfig) -> bool {
    match cfg.brace_style {
        BraceStyle::KAndR => {
            &&& body.len() == 6
            &&& is_text(*body[0], seq![' '] + "catch"@ + seq![' '])
            &&& is_text(*body[1], "("@)
            &&& is_text(*body[3], ")"@)
            &&& is_brace_sep(*body[4], cfg.brace_style)
        },
        BraceStyle::Allman => {
            &&& body.len() == 7
            &&& *body[0] == Doc::Newline
            &&& is_text(*body[1], "catch"@ + seq![' '])
            &&& is_text(*body[2], "("@)
            &&& is_text(*body[4], ")"@)
            &&& is_brace_sep(*body[5], cfg.brace_style)
        },
    }
}

/// The parameter of a catch clause between its parentheses, and its block
/// last.
pub open spec fn catch_parts<'a>(body: Seq<DocRef<'a>>, c: CatchClause, cm: &CommentMap, cfg: PrettyConfig) -> bool {
    &&& exists|b2: Seq<DocRef<'a>>| #[trigger] wraps(*body[body.len() - 4], b2) && formal_parameter_layout(b2, c.formal_parameter)
    &&& crate::enum_def::block_doc(*body[body.len() - 1], c.body, cm, cfg)
}

/// A `finally` clause: ` finally ` after the closing brace, or `finally` on
/// a line of its own with Allman braces; then the block.
pub open spec fn finally_layout<'a>(body: Seq<DocRef<'a>>, cfg: PrettyConfig) -> bool {
    match cfg.brace_style {
        BraceStyle::KAndR => body.len() == 2 && is_text(*body[0], seq![' '] + "finally"@ + seq![' ']),
        BraceStyle::Allman => body.len() == 4 && *body[0] == Doc::Newline && is_text(*body[1], "finally"@)
            && *body[2] == Doc::Newline,
    }
}

/// A `try` statement: `try`, the brace separator, the block, the catches,
/// and the `finally` clause where there is one.
pub open spec fn try_layout<'a>(body: Seq<DocRef<'a>>, s: TryStatement, cm: &CommentMap, cfg: PrettyConfig) -> bool
    decreases s,
{
    &&& is_text(*body[0], "try"@)
    &&& is_brace_sep(*body[1], cfg.brace_style)
    &&& crate::enum_def::block_doc(*body[2], s.body, cm, cfg)
    &&& body.len() == match s.tail {
        TryStatementTail::Catches(_) => 4int,
        TryStatementTail::CatchesFinally(_, _) => 5int,
    }
}

/// A catch clause whose body holds only statements that hold no other
/// statement.
pub open spec fn catch_with_leaf_body(t: &SyntaxTree, n: int) -> bool {
    first_field_if(t, n, "body"@, |c: int| holds_leaf_statements(t, c))
}

/// A catch clause of that shape that can be read: its parameter and body.
pub open spec fn leaf_catch_ok(t: &SyntaxTree, n: int) -> bool {
    let p = crate::accessor::kind_children(t, n, "formal_parameter"@);
    &&& t.nodes@[n].kind@ == "catch_clause"@
    &&& p.len() > 0
    &&& formal_parameter_ok(t, p[0] as int)
    &&& first_field_is(t, n, "body"@, |c: int| leaf_block_ok(t, c))
}

/// `catch (Exception e) block`
pub struct CatchClause {
    pub formal_parameter: FormalParameter,
    pub body: Block,
    pub node_context: NodeContext,
}

impl CatchClause {
    pub fn new(t: &SyntaxTree, n: usize) -> (r: Result<Self, String>)
        requires
            t.wf(),
            t.valid(n as int),
        ensures
            r matches Ok(v) ==> crate::enum_def::catch_tied(t, n as int, v),
            r matches Ok(v) ==> v.node_context.id == n && t.nodes@[n as int].kind@ == "catch_clause"@,
            catch_with_leaf_body(t, n as int) ==> (r is Ok <==> leaf_catch_ok(t, n as int)),
        decreases t.nodes@.len() - n, 1int,
    {
        assert_check(t, n, "catch_clause")?;
        let f = c_by_k(t, n, "formal_parameter")?;
        let formal_parameter = FormalParameter::new(t, f)?;
        let bd = c_by_n(t, n, "body")?;
        let body = Block::new(t, bd)?;
        Ok(CatchClause { formal_parameter, body, node_context: NodeContext::with_punctuation(t, n) })
    }

    /// ` catch (...) {` after the closing brace (K&R); `catch (...)` on its
    /// own line, the brace on the next (Allman).
    pub fn build<'a>(&self, b: &'a DocBuilder<'a>, cm: &CommentMap, st: &mut BuildState) -> (r: DocRef<'a>)
        ensures
            final(st).printed@.len() == old(st).printed@.len(),
            exists|body: Seq<DocRef<'a>>| #[trigger] wraps(*r, body) && catch_layout(body, b.config),
            exists|body: Seq<DocRef<'a>>| #[trigger] wraps(*r, body) && catch_layout(body, b.config) && catch_parts(body, *self, cm, b.config),
        decreases self,
    {
        let mut body: Vec<DocRef<'a>> = Vec::new();
        match b.config.brace_style {
            BraceStyle::KAndR => {
                let w = b._txt_("catch");
                body.push(w);
            },
            BraceStyle::Allman => {
                let n = b.nl();
                body.push(n);
                let w = b.txt_("catch");
                body.push(w);
            },
        }
        let o = b.txt("(");
        body.push(o);
        let p = self.formal_parameter.build(b, cm, st);
        body.push(p);
        let c = b.txt(")");
        body.push(c);
        let s = before_brace(b);
        body.push(s);
        let ghost k: int = match b.config.brace_style {
            BraceStyle::KAndR => 0,
            BraceStyle::Allman => 1,
        };
        assert(is_text(*body@[k], seq![' '] + "catch"@ + seq![' ']) || is_text(*body@[k], "catch"@ + seq![' ']));
        assert(is_text(*body@[k + 1], "("@));
        assert(is_text(*body@[k + 3], ")"@));
        assert(is_brace_sep(*body@[k + 4], b.config.brace_style));
        assert(body@[k + 2] == p);
        let d = self.body.build(b, cm, st);
        body.push(d);
        let ghost body_v = body@;
        assert(catch_layout(body_v, b.config));
        assert(body_v[body_v.len() - 4] == p && body_v[body_v.len() - 1] == d);
        assert(catch_parts(body_v, *self, cm, b.config));
        let r = with_comments_and_punc(b, cm, st, &self.node_context, body);
        assert(wraps(*r, body_v));
        r
    }
}

/// `finally block`
pub struct FinallyClause {
    pub body: Block,
    pub node_context: NodeContext,
}

impl FinallyClause {
    pub fn new(t: &SyntaxTree, n: usize) -> (r: Result<Self, String>)
        requires
            t.wf(),
            t.valid(n as int),
        ensures
            r matches Ok(v) ==> crate::enum_def::block_tied(t, crate::accessor::kind_children(t, n as int, "block"@)[0] as int, v.body),
            r matches Ok(v) ==> v.node_context.id == n && t.nodes@[n as int].kind@ == "finally_clause"@,
        decreases t.nodes@.len() - n, 1int,
    {
        assert_check(t, n, "finally_clause")?;
        let bl = c_by_k(t, n, "block")?;
        let body = Block::new(t, bl)?;
        Ok(FinallyClause { body, node_context: NodeContext::with_punctuation(t, n) })
    }

    pub fn build<'a>(&self, b: &'a DocBuilder<'a>, cm: &CommentMap, st: &mut BuildState) -> (r: DocRef<'a>)
        ensures
            final(st).printed@.len() == old(st).printed@.len(),
            exists|body: Seq<DocRef<'a>>| #[trigger] wraps(*r, body) && finally_layout(body, b.config),
        decreases self,
    {
        let mut body: Vec<DocRef<'a>> = Vec::new();
        match b.config.brace_style {
            BraceStyle::KAndR => {
                let w = b._txt_("finally");
                body.push(w);
            },
            BraceStyle::Allman => {
                let n1 = b.nl();
                body.push(n1);
                let w = b.txt("finally");
                body.push(w);
                let n2 = b.nl();
                body.push(n2);
            },
        }
        let d = self.body.build(b, cm, st);
        body.push(d);
        let ghost body_v = body@;
        assert(finally_layout(body_v, b.config));
        let r = with_comments_and_punc(b, cm, st, &self.node_context, body);
        assert(wraps(*r, body_v));
        r
    }
}

/// The catches of a `try`, with or without a `finally`.
pub enum TryStatementTail {
    Catches(Vec<CatchClause>),
    CatchesFinally(Vec<CatchClause>, FinallyClause),
}

/// The catch clauses among the children of a node.
fn catches_of(t: &SyntaxTree, n: usize, cs: &Vec<usize>) -> (r: Result<Vec<CatchClause>, String>)
    requires
        t.wf(),
        t.valid(n as int),
        forall|j: int| 0 <= j < cs@.len() ==> n < #[trigger] cs@[j] < t.nodes@.len(),
    ensures
        r matches Ok(v) ==> v@.len() == cs@.len(),
        r matches Ok(v) ==> forall|j: int| 0 <= j < cs@.len() ==> crate::enum_def::catch_tied(t, cs@[j] as int, #[trigger] v@[j]),
        (forall|j: int| 0 <= j < cs@.len() ==> catch_with_leaf_body(t, #[trigger] cs@[j] as int))
            ==> (r is Ok <==> forall|j: int| 0 <= j < cs@.len() ==> leaf_catch_ok(t, #[trigger] cs@[j] as int)),
    decreases t.nodes@.len() - n, 0int,
{
    let mut v: Vec<CatchClause> = Vec::new();
    let mut i: usize = 0;
    while i < cs.len()
        invariant
            t.wf(),
            t.valid(n as int),
            i <= cs@.len(),
            v@.len() == i,
            forall|j: int| 0 <= j < cs@.len() ==> n < #[trigger] cs@[j] < t.nodes@.len(),
            forall|j: int| 0 <= j < i ==> catch_with_leaf_body(t, #[trigger] cs@[j] as int) ==> leaf_catch_ok(t, cs@[j] as int),
            forall|j: int| 0 <= j < i ==> crate::enum_def::catch_tied(t, cs@[j] as int, #[trigger] v@[j]),
        decreases cs@.len() - i,
    {
        let c = match CatchClause::new(t, cs[i]) {
            Ok(c) => c,
            Err(e) => {
                assert(catch_with_leaf_body(t, cs@[i as int] as int) ==> !leaf_catch_ok(t, cs@[i as int] as int));
                return Err(e);
            },
        };
        v.push(c);
        i = i + 1;
    }
    Ok(v)
}

/// A catch clause, laid out as such.
pub open spec fn catch_doc<'a>(d: Doc<'a>, cfg: PrettyConfig) -> bool {
    exists|body: Seq<DocRef<'a>>| #[trigger] wraps(d, body) && catch_layout(body, cfg)
}

/// A declarator, laid out as such.
pub open spec fn declarator_doc<'a>(d: Doc<'a>, v: VariableDeclarator, cfg: PrettyConfig) -> bool {
    exists|body: Seq<DocRef<'a>>| #[trigger] wraps(d, body) && declarator_layout(body, v, cfg)
}

/// The documents of catch clauses, concatenated.
fn build_catches<'a>(list: &Vec<CatchClause>, b: &'a DocBuilder<'a>, cm: &CommentMap, st: &mut BuildState) -> (r: DocRef<'a>)
    ensures
        final(st).printed@.len() == old(st).printed@.len(),
        *r is Concat,
        concat_parts(*r).len() == list@.len(),
        forall|i: int| 0 <= i < list@.len() ==> catch_doc(*#[trigger] concat_parts(*r)[i], b.config),
    decreases list,
{
    let ghost len0 = st.printed@.len();
    let mut docs: Vec<DocRef<'a>> = Vec::new();
    let mut i: usize = 0;
    while i < list.len()
        invariant
            st.printed@.len() == len0,
            i <= list@.len(),
            docs@.len() == i,
            forall|k: int| 0 <= k < i ==> catch_doc(*#[trigger] docs@[k], b.config),
        decreases list@.len() - i,
    {
        let d = list[i].build(b, cm, st);
        docs.push(d);
        i = i + 1;
    }
    b.concat(docs)
}

/// A `try` without `finally` whose body and catch clauses hold only
/// statements that hold no other statement.
pub open spec fn leaf_try(t: &SyntaxTree, n: int) -> bool {
    let cs = crate::accessor::kind_children(t, n, "catch_clause"@);
    &&& crate::accessor::kind_children(t, n, "finally_clause"@).len() == 0
    &&& first_field_if(t, n, "body"@, |c: int| holds_leaf_statements(t, c))
    &&& forall|j: int| 0 <= j < cs.len() ==> catch_with_leaf_body(t, #[trigger] cs[j] as int)
}

/// Such a `try` that can be read: its body and one or more catch clauses.
pub open spec fn leaf_try_ok(t: &SyntaxTree, n: int) -> bool {
    let cs = crate::accessor::kind_children(t, n, "catch_clause"@);
    &&& t.nodes@[n].kind@ == "try_statement"@
    &&& cs.len() > 0
    &&& forall|j: int| 0 <= j < cs.len() ==> leaf_catch_ok(t, #[trigger] cs[j] as int)
    &&& first_field_is(t, n, "body"@, |c: int| leaf_block_ok(t, c))
}

/// `try block catches finally`
pub struct TryStatement {
    pub body: Block,
    pub tail: TryStatementTail,
    pub node_context: NodeContext,
}

impl TryStatement {
    pub fn new(t: &SyntaxTree, n: usize) -> (r: Result<Self, String>)
        requires
            t.wf(),
            t.valid(n as int),
        ensures
            r matches Ok(v) ==> crate::enum_def::try_tail_tied(t, n as int, v.tail),
            r matches Ok(v) ==> crate::enum_def::block_tied(t, crate::enum_def::field_child(t, n as int, "body"@), v.body),
            r matches Ok(v) ==> v.node_context.id == n && t.nodes@[n as int].kind@ == "try_statement"@,
            leaf_try(t, n as int) ==> (r is Ok <==> leaf_try_ok(t, n as int)),
        decreases t.nodes@.len() - n, 1int,
    {
        assert_check(t, n, "try_statement")?;
        let tail = match try_c_by_k(t, n, "finally_clause") {
            Some(f) => {
                let cs = try_cs_by_k(t, n, "catch_clause");
                let catches = catches_of(t, n, &cs)?;
                TryStatementTail::CatchesFinally(catches, FinallyClause::new(t, f)?)
            },
            None => {
                let cs = cs_by_k(t, n, "catch_clause")?;
                TryStatementTail::Catches(catches_of(t, n, &cs)?)
            },
        };
        let bd = c_by_n(t, n, "body")?;
        let body = Block::new(t, bd)?;
        Ok(TryStatement { body, tail, node_context: NodeContext::with_punctuation(t, n) })
    }

    pub fn build<'a>(&self, b: &'a DocBuilder<'a>, cm: &CommentMap, st: &mut BuildState) -> (r: DocRef<'a>)
        ensures
            final(st).printed@.len() == old(st).printed@.len(),
            exists|body: Seq<DocRef<'a>>| #[trigger] wraps(*r, body) && try_layout(body, *self, cm, b.config),
        decreases self,
    {
        let mut body: Vec<DocRef<'a>> = Vec::new();
        let w = b.txt("try");
        body.push(w);
        let s = before_brace(b);
        body.push(s);
        let d = self.body.build(b, cm, st);
        body.push(d);
        match &self.tail {
            TryStatementTail::Catches(v) => {
                let c = build_catches(v, b, cm, st);
                body.push(c);
            },
            TryStatementTail::CatchesFinally(v, f) => {
                let c = build_catches(v, b, cm, st);
                body.push(c);
                let x = f.build(b, cm, st);
                body.push(x);
            },
        }
        let ghost body_v = body@;
        assert(try_layout(body_v, *self, cm, b.config));
        let r = with_comments_and_punc(b, cm, st, &self.node_context, body);
        assert(wraps(*r, body_v));
        r
    }
}

/// The type, a space, the variable.
pub open spec fn when_type_layout<'a>(body: Seq<DocRef<'a>>, s: WhenSObjectType) -> bool {
    body.len() == 3 && is_text(*body[1], seq![' ']) && is_text(*body[2], s.identifier@)
}

/// A part of a `when` type pattern that can be read: an identifier by its
/// text, anything else as a type.
pub open spec fn when_part_ok(t: &SyntaxTree, c: int) -> bool {
    if t.nodes@[c].kind@ == "identifier"@ {
        crate::accessor::readable(t, c)
    } else {
        unannotated_type_ok(t, c)
    }
}

/// One of the first `i` nodes of `cs` is an identifier.
pub open spec fn has_identifier_below(t: &SyntaxTree, cs: Seq<usize>, i: int) -> bool {
    exists|j: int| 0 <= j < i && t.nodes@[#[trigger] cs[j] as int].kind@ == "identifier"@
}

/// One of the first `i` nodes of `cs` is no identifier.
pub open spec fn has_other_below(t: &SyntaxTree, cs: Seq<usize>, i: int) -> bool {
    exists|j: int| 0 <= j < i && t.nodes@[#[trigger] cs[j] as int].kind@ != "identifier"@
}

/// A type and a name after `when`, each of which can be read.
pub open spec fn when_sobject_ok(t: &SyntaxTree, n: int) -> bool {
    let cs = crate::accessor::code_children(t, n);
    &&& forall|j: int| 0 <= j < cs.len() ==> when_part_ok(t, #[trigger] cs[j] as int)
    &&& has_identifier_below(t, cs, cs.len() as int)
    &&& has_other_below(t, cs, cs.len() as int)
}

/// `Account a` after `when` in a switch on a type.
pub struct WhenSObjectType {
    pub unannotated_type: UnannotatedType,
    pub identifier: String,
    pub node_context: NodeContext,
}

impl WhenSObjectType {
    pub fn new(t: &SyntaxTree, n: usize) -> (r: Result<Self, String>)
        requires
            t.wf(),
            t.valid(n as int),
        ensures
            r matches Ok(v) ==> v.node_context.id == n,
            r is Ok <==> when_sobject_ok(t, n as int),
        decreases t.nodes@.len() - n, 1int,
    {
        let cs = children_vec(t, n);
        let mut unannotated_type: Option<UnannotatedType> = None;
        let mut identifier: Option<String> = None;
        let mut i: usize = 0;
        while i < cs.len()
            invariant
                t.wf(),
                t.valid(n as int),
                i <= cs@.len(),
                cs@ == crate::accessor::code_children(t, n as int),
                forall|j: int| 0 <= j < cs@.len() ==> n < #[trigger] cs@[j] < t.nodes@.len(),
                forall|j: int| 0 <= j < i ==> when_part_ok(t, #[trigger] cs@[j] as int),
                identifier is Some <==> has_identifier_below(t, cs@, i as int),
                unannotated_type is Some <==> has_other_below(t, cs@, i as int),
            decreases cs@.len() - i,
        {
            let c = cs[i];
            if kind_is(t, c, "identifier") {
                let v = match value(t, c) {
                    Ok(v) => v,
                    Err(e) => {
                        assert(!when_part_ok(t, cs@[i as int] as int));
                        return Err(e);
                    },
                };
                identifier = Some(v);
                assert(t.nodes@[cs@[i as int] as int].kind@ == "identifier"@);
            } else {
                let u = match UnannotatedType::new(t, c) {
                    Ok(u) => u,
                    Err(e) => {
                        assert(!when_part_ok(t, cs@[i as int] as int));
                        return Err(e);
                    },
                };
                unannotated_type = Some(u);
                assert(t.nodes@[cs@[i as int] as int].kind@ != "identifier"@);
            }
            proof {
                assert(has_identifier_below(t, cs@, i as int) ==> has_identifier_below(t, cs@, i + 1));
                assert(has_other_below(t, cs@, i as int) ==> has_other_below(t, cs@, i + 1));
                if has_identifier_below(t, cs@, i + 1) && t.nodes@[cs@[i as int] as int].kind@ != "identifier"@ {
                    let j = choose|j: int| 0 <= j < i + 1 && t.nodes@[#[trigger] cs@[j] as int].kind@ == "identifier"@;
                    assert(j < i);
                    assert(has_identifier_below(t, cs@, i as int));
                }
                if has_other_below(t, cs@, i + 1) && t.nodes@[cs@[i as int] as int].kind@ == "identifier"@ {
                    let j = choose|j: int| 0 <= j < i + 1 && t.nodes@[#[trigger] cs@[j] as int].kind@ != "identifier"@;
                    assert(j < i);
                    assert(has_other_below(t, cs@, i as int));
                }
            }
            i = i + 1;
        }
        match (unannotated_type, identifier) {
            (Some(u), Some(id)) => Ok(WhenSObjectType {
                unannotated_type: u,
                identifier: id,
                node_context: NodeContext::with_punctuation(t, n),
            }),
            (None, _) => Err(owned("Missing unannotated_type in WhenSObjectType")),
            (_, None) => Err(owned("Missing identifier in WhenSObjectType")),
        }
    }

    pub fn build<'a>(&self, b: &'a DocBuilder<'a>, cm: &CommentMap, st: &mut BuildState) -> (r: DocRef<'a>)
        ensures
            final(st).printed@.len() == old(st).printed@.len(),
            exists|body: Seq<DocRef<'a>>| #[trigger] wraps(*r, body) && when_type_layout(body, *self),
        decreases self,
    {
        proof {
            reveal_strlit(" ");
            assert(" "@ =~= seq![' ']);
        }
        let u = self.unannotated_type.build(b, cm, st);
        let s = b.txt(" ");
        let i = b.txt(self.identifier.as_str());
        let mut body: Vec<DocRef<'a>> = Vec::new();
        body.push(u);
        body.push(s);
        body.push(i);
        let ghost body_v = body@;
        assert(when_type_layout(body_v, *self));
        let r = with_comments_and_punc(b, cm, st, &self.node_context, body);
        assert(wraps(*r, body_v));
        r
    }
}

/// `when `, then the label: the values each two apart by a soft line break,
/// grouped and indented, or `else`.
pub open spec fn switch_label_layout<'a>(d: Doc<'a>, l: SwitchLabel) -> bool {
    &&& d is Concat
    &&& concat_parts(d).len() == 2
    &&& is_text(*concat_parts(d)[0], "when"@ + seq![' '])
    &&& (l is Else ==> is_text(*concat_parts(d)[1], "else"@))
    &&& (l is Expressions ==> *concat_parts(d)[1] is Choice && *(*concat_parts(d)[1])->Choice_1 is Indent)
}

/// A label of values that hold no other expression.
pub open spec fn leaf_label(t: &SyntaxTree, n: int) -> bool {
    let cs = crate::accessor::code_children(t, n);
    &&& crate::accessor::kind_children(t, n, "when_sobject_type"@).len() == 0
    &&& forall|j: int| 0 <= j < cs.len() ==> crate::enum_def::is_leaf_expression_kind(t.nodes@[#[trigger] cs[j] as int].kind@)
}

/// Such a label that can be read.
pub open spec fn leaf_label_ok(t: &SyntaxTree, n: int) -> bool {
    let cs = crate::accessor::code_children(t, n);
    &&& t.nodes@[n].kind@ == "switch_label"@
    &&& forall|j: int| 0 <= j < cs.len() ==> crate::enum_def::leaf_expression_ok(t, #[trigger] cs[j] as int)
}

/// What follows `when`: a type and name, values, or `else`.
pub enum SwitchLabel {
    WhenSObject(WhenSObjectType),
    Expressions(Vec<Expression>),
    Else,
}

impl SwitchLabel {
    pub fn new(t: &SyntaxTree, n: usize) -> (r: Result<Self, String>)
        requires
            t.wf(),
            t.valid(n as int),
        ensures
            r matches Ok(v) ==> t.nodes@[n as int].kind@ == "switch_label"@ && (v is Else <==> crate::accessor::code_children(t, n as int).len() == 0),
            crate::accessor::code_children(t, n as int).len() == 0 ==> (r is Ok <==> t.nodes@[n as int].kind@ == "switch_label"@),
            leaf_label(t, n as int) ==> (r is Ok <==> leaf_label_ok(t, n as int)),
        decreases t.nodes@.len() - n, 1int,
    {
        assert_check(t, n, "switch_label")?;
        let cs = children_vec(t, n);
        if cs.len() == 0 {
            return Ok(SwitchLabel::Else);
        }
        match try_c_by_k(t, n, "when_sobject_type") {
            Some(w) => Ok(SwitchLabel::WhenSObject(WhenSObjectType::new(t, w)?)),
            None => Ok(SwitchLabel::Expressions(expressions_of(t, n, &cs)?)),
        }
    }

    pub fn build<'a>(&self, b: &'a DocBuilder<'a>, cm: &CommentMap, st: &mut BuildState) -> (r: DocRef<'a>)
        ensures
            final(st).printed@.len() == old(st).printed@.len(),
            switch_label_layout(*r, *self),
        decreases self,
    {
        let w = b.txt_("when");
        let d = match self {
            SwitchLabel::WhenSObject(x) => x.build(b, cm, st),
            SwitchLabel::Expressions(v) => {
                let docs = build_expressions(v, b, cm, st);
                let sl = b.softline();
                let sep = b.insertable(None, None, Some(sl));
                let i = b.intersperse(docs.as_slice(), &sep);
                let ind = b.indent(i);
                b.group(ind)
            },
            SwitchLabel::Else => b.txt("else"),
        };
        let mut parts: Vec<DocRef<'a>> = Vec::new();
        parts.push(w);
        parts.push(d);
        assert(parts@[0] == w && parts@[1] == d);
        b.concat(parts)
    }
}

/// The label, the brace separator, the block.
pub open spec fn switch_rule_layout<'a>(body: Seq<DocRef<'a>>, cfg: PrettyConfig) -> bool {
    body.len() == 3 && is_brace_sep(*body[1], cfg.brace_style)
}

/// A rule whose label and block hold nothing but leaves.
pub open spec fn leaf_rule(t: &SyntaxTree, n: int) -> bool {
    let l = crate::accessor::kind_children(t, n, "switch_label"@);
    let b = crate::accessor::kind_children(t, n, "block"@);
    &&& l.len() > 0 ==> leaf_label(t, l[0] as int)
    &&& b.len() > 0 ==> holds_leaf_statements(t, b[0] as int)
}

/// Such a rule that can be read.
pub open spec fn leaf_rule_ok(t: &SyntaxTree, n: int) -> bool {
    let l = crate::accessor::kind_children(t, n, "switch_label"@);
    let b = crate::accessor::kind_children(t, n, "block"@);
    &&& t.nodes@[n].kind@ == "switch_rule"@
    &&& l.len() > 0
    &&& leaf_label_ok(t, l[0] as int)
    &&& b.len() > 0
    &&& leaf_block_ok(t, b[0] as int)
}

/// `when label block`
pub struct SwitchRule {
    pub label: SwitchLabel,
    pub block: Block,
    pub node_context: NodeContext,
}

impl SwitchRule {
    pub fn new(t: &SyntaxTree, n: usize) -> (r: Result<Self, String>)
        requires
            t.wf(),
            t.valid(n as int),
        ensures
            r matches Ok(v) ==> v.node_context.id == n && t.nodes@[n as int].kind@ == "switch_rule"@,
            leaf_rule(t, n as int) ==> (r is Ok <==> leaf_rule_ok(t, n as int)),
        decreases t.nodes@.len() - n, 1int,
    {
        assert_check(t, n, "switch_rule")?;
        let l = c_by_k(t, n, "switch_label")?;
        let label = SwitchLabel::new(t, l)?;
        let bl = c_by_k(t, n, "block")?;
        let block = Block::new(t, bl)?;
        Ok(SwitchRule { label, block, node_context: NodeContext::with_punctuation(t, n) })
    }

    pub fn build<'a>(&self, b: &'a DocBuilder<'a>, cm: &CommentMap, st: &mut BuildState) -> (r: DocRef<'a>)
        ensures
            final(st).printed@.len() == old(st).printed@.len(),
            exists|body: Seq<DocRef<'a>>| #[trigger] wraps(*r, body) && switch_rule_layout(body, b.config),
        decreases self,
    {
        let l = self.label.build(b, cm, st);
        let s = before_brace(b);
        let d = self.block.build(b, cm, st);
        let mut body: Vec<DocRef<'a>> = Vec::new();
        body.push(l);
        body.push(s);
        body.push(d);
        let ghost body_v = body@;
        assert(switch_rule_layout(body_v, b.config));
        let r = with_comments_and_punc(b, cm, st, &self.node_context, body);
        assert(wraps(*r, body_v));
        r
    }
}

/// `{` and a line break, the rules each on a line of its own, a line break
/// and `}`.
pub open spec fn switch_block_layout<'a>(body: Seq<DocRef<'a>>, s: SwitchBlock) -> bool {
    &&& body.len() == 1
    &&& *body[0] is Concat
    &&& ({
        let p = concat_parts(*body[0]);
        &&& p.len() == 5
        &&& is_text(*p[0], "{"@)
        &&& *p[1] == Doc::Newline
        &&& *p[3] == Doc::Newline
        &&& is_text(*p[4], "}"@)
        &&& *p[2] is Concat
        &&& exists|elems: Seq<DocRef<'a>>, sep: Seq<DocRef<'a>>|
            #![trigger interspersed(elems, sep)]
            elems.len() == s.rules@.len() && sep.len() == 2 && is_text(*sep[0], ""@) && *sep[1] == Doc::Newline
                && concat_parts(*p[2]) == interspersed(elems, sep)
    })
}

/// A switch block whose rules all hold nothing but leaves.
pub open spec fn leaf_switch_block(t: &SyntaxTree, n: int) -> bool {
    let rs = crate::accessor::kind_children(t, n, "switch_rule"@);
    forall|j: int| 0 <= j < rs.len() ==> leaf_rule(t, #[trigger] rs[j] as int)
}

/// Such a block that can be read: one or more rules.
pub open spec fn leaf_switch_block_ok(t: &SyntaxTree, n: int) -> bool {
    let rs = crate::accessor::kind_children(t, n, "switch_rule"@);
    &&& t.nodes@[n].kind@ == "switch_block"@
    &&& rs.len() > 0
    &&& forall|j: int| 0 <= j < rs.len() ==> leaf_rule_ok(t, #[trigger] rs[j] as int)
}

/// The rules of a switch, each on its own line, in braces.
pub struct SwitchBlock {
    pub rules: Vec<SwitchRule>,
    pub node_context: NodeContext,
}

impl SwitchBlock {
    pub fn new(t: &SyntaxTree, n: usize) -> (r: Result<Self, String>)
        requires
            t.wf(),
            t.valid(n as int),
        ensures
            r matches Ok(v) ==> v.node_context.id == n && t.nodes@[n as int].kind@ == "switch_block"@,
            crate::accessor::kind_children(t, n as int, "switch_rule"@).len() == 0 ==> r is Err,
            leaf_switch_block(t, n as int) ==> (r is Ok <==> leaf_switch_block_ok(t, n as int)),
        decreases t.nodes@.len() - n, 1int,
    {
        assert_check(t, n, "switch_block")?;
        let cs = cs_by_k(t, n, "switch_rule")?;
        let mut rules: Vec<SwitchRule> = Vec::new();
        let mut i: usize = 0;
        while i < cs.len()
            invariant
                t.wf(),
                t.valid(n as int),
                i <= cs@.len(),
                forall|j: int| 0 <= j < cs@.len() ==> n < #[trigger] cs@[j] < t.nodes@.len(),
                t.nodes@[n as int].kind@ == "switch_block"@,
                cs@ == crate::accessor::kind_children(t, n as int, "switch_rule"@),
                forall|j: int| 0 <= j < i ==> leaf_rule(t, #[trigger] cs@[j] as int) ==> leaf_rule_ok(t, cs@[j] as int),
            decreases cs@.len() - i,
        {
            let r = match SwitchRule::new(t, cs[i]) {
                Ok(r) => r,
                Err(e) => {
                    assert(leaf_rule(t, cs@[i as int] as int) ==> !leaf_rule_ok(t, cs@[i as int] as int));
                    return Err(e);
                },
            };
            rules.push(r);
            i = i + 1;
        }
        Ok(SwitchBlock { rules, node_context: NodeContext::with_punctuation(t, n) })
    }

    pub fn build<'a>(&self, b: &'a DocBuilder<'a>, cm: &CommentMap, st: &mut BuildState) -> (r: DocRef<'a>)
        ensures
            final(st).printed@.len() == old(st).printed@.len(),
            exists|body: Seq<DocRef<'a>>| #[trigger] wraps(*r, body) && switch_block_layout(body, *self),
        decreases self,
    {
        let ghost len0 = st.printed@.len();
        let mut docs: Vec<DocRef<'a>> = Vec::new();
        let mut i: usize = 0;
        while i < self.rules.len()
            invariant
                st.printed@.len() == len0,
                i <= self.rules@.len(),
                docs@.len() == i,
            decreases self.rules@.len() - i,
        {
            let d = self.rules[i].build(b, cm, st);
            docs.push(d);
            i = i + 1;
        }
        let n1 = b.nl();
        let sep = b.insertable(None, Some(""), Some(n1));
        let n2 = b.nl();
        let open = b.insertable(None, Some("{"), Some(n2));
        let n3 = b.nl();
        let close = b.insertable(Some(n3), Some("}"), None);
        let d = b.surround(docs.as_slice(), &sep, &open, &close);
        let mut body: Vec<DocRef<'a>> = Vec::new();
        body.push(d);
        let ghost body_v = body@;
        proof {
            let p = concat_parts(*d);
            assert(insertable_parts(open) =~= seq![open.text->0, n2]);
            assert(insertable_parts(close) =~= seq![n3, close.text->0]);
            assert(insertable_parts(sep) =~= seq![sep.text->0, n1]);
            assert(p[0] == open.text->0);
            assert(p[1] == n2);
            assert(p[3] == n3);
            assert(p[4] == close.text->0);
            assert(interspersed(docs@, insertable_parts(sep)) == concat_parts(*p[2]));
            assert(switch_block_layout(body_v, *self));
        }
        let r = with_comments_and_punc(b, cm, st, &self.node_context, body);
        assert(wraps(*r, body_v));
        r
    }
}

/// `switch on` and the value after a soft line break, grouped and indented,
/// then the brace separator and the block of rules.
pub open spec fn switch_layout<'a>(body: Seq<DocRef<'a>>, s: SwitchExpression, cfg: PrettyConfig) -> bool
    decreases s,
{
    &&& body.len() == 3
    &&& exists|b2: Seq<DocRef<'a>>| #[trigger] wraps(*body[2], b2) && switch_block_layout(b2, s.body)
    &&& is_brace_sep(*body[1], cfg.brace_style)
    &&& *body[0] is Choice
    &&& *body[0]->Choice_1 is Indent
    &&& inner(*body[0]->Choice_1) is Some
    &&& *inner(*body[0]->Choice_1).unwrap() is Concat
    &&& ({
        let p = concat_parts(*inner(*body[0]->Choice_1).unwrap());
        p.len() == 3 && is_text(*p[0], "switch on"@) && *p[1] == Doc::Softline && crate::enum_def::expression_doc(
            *p[2],
            s.condition,
            cfg,
        )
    })
}

/// `switch on value { rules }`
pub struct SwitchExpression {
    pub condition: Expression,
    pub body: SwitchBlock,
    pub node_context: NodeContext,
}

impl SwitchExpression {
    pub fn new(t: &SyntaxTree, n: usize) -> (r: Result<Self, String>)
        requires
            t.wf(),
            t.valid(n as int),
        ensures
            r matches Ok(v) ==> crate::enum_def::expr_tied(t, crate::enum_def::field_child(t, n as int, "condition"@), v.condition),
            r matches Ok(v) ==> v.node_context.id == n && t.nodes@[n as int].kind@ == "switch_expression"@,
            leaf_field(t, n as int, "condition"@) && first_field_if(t, n as int, "body"@, |c: int| leaf_switch_block(t, c))
                ==> (r is Ok <==> t.nodes@[n as int].kind@ == "switch_expression"@ && leaf_field_ok(t, n as int, "condition"@)
                && first_field_is(t, n as int, "body"@, |c: int| leaf_switch_block_ok(t, c))),
        decreases t.nodes@.len() - n, 1int,
    {
        assert_check(t, n, "switch_expression")?;
        let c = c_by_n(t, n, "condition")?;
        let condition = Expression::new(t, c)?;
        let bd = c_by_n(t, n, "body")?;
        let body = SwitchBlock::new(t, bd)?;
        Ok(SwitchExpression { condition, body, node_context: NodeContext::with_punctuation(t, n) })
    }

    pub fn build<'a>(&self, b: &'a DocBuilder<'a>, cm: &CommentMap, st: &mut BuildState) -> (r: DocRef<'a>)
        ensures
            final(st).printed@.len() == old(st).printed@.len(),
            exists|body: Seq<DocRef<'a>>| #[trigger] wraps(*r, body) && switch_layout(body, *self, b.config),
        decreases self,
    {
        let w = b.txt("switch on");
        let sl = b.softline();
        let c = self.condition.build(b, cm, st);
        let mut docs: Vec<DocRef<'a>> = Vec::new();
        docs.push(w);
        docs.push(sl);
        docs.push(c);
        let g = b.group_indent_concat(docs);
        let s = before_brace(b);
        let d = self.body.build(b, cm, st);
        let mut body: Vec<DocRef<'a>> = Vec::new();
        body.push(g);
        body.push(s);
        body.push(d);
        let ghost body_v = body@;
        proof {
            let b2 = choose|b2: Seq<DocRef<'a>>| #[trigger] wraps(*d, b2) && switch_block_layout(b2, self.body);
            assert(body_v[2] == d && wraps(*body_v[2], b2));
        }
        assert(switch_layout(body_v, *self, b.config));
        let r = with_comments_and_punc(b, cm, st, &self.node_context, body);
        assert(wraps(*r, body_v));
        r
    }
}

/// The name, then for a value: a space, the operator, and the value after a
/// space when it is a query, else after a soft line break, grouped and
/// indented.
pub open spec fn declarator_layout<'a>(body: Seq<DocRef<'a>>, s: VariableDeclarator, cfg: PrettyConfig) -> bool {
    let k: int = if s.op is Some { 1 } else { 0 };
    let p = if s.value is Some && !s.is_value_child_a_query_node {
        concat_parts(*inner(*body[0]->Choice_1).unwrap())
    } else {
        concat_parts(*body[0])
    };
    &&& body.len() == 1
    &&& wraps_text(*p[0], s.name.value@)
    &&& s.value matches Some(VariableInitializer::Exp(e)) ==> crate::enum_def::expression_doc(*p[k + 3], e, cfg)
    &&& match s.value {
        None => *body[0] is Concat && concat_parts(*body[0]).len() == 1,
        Some(_) => if s.is_value_child_a_query_node {
            let p = concat_parts(*body[0]);
            *body[0] is Concat && p.len() == k + 4 && is_text(*p[1], seq![' ']) && is_text(*p[k + 2], seq![' '])
        } else {
            let d = *body[0];
            &&& d is Choice
            &&& *d->Choice_0 == Doc::Flat(d->Choice_1)
            &&& *d->Choice_1 is Indent
            &&& inner(*d->Choice_1) is Some
            &&& *inner(*d->Choice_1).unwrap() is Concat
            &&& ({
                let p = concat_parts(*inner(*d->Choice_1).unwrap());
                p.len() == k + 4 && is_text(*p[1], seq![' ']) && *p[k + 2] == Doc::Softline
            })
        },
    }
}

// ---------------------------------------------------------------------------
// Variables and parameters.
// ---------------------------------------------------------------------------
/// A declarator without a value whose operator, where it has one, and name
/// can be read.
pub open spec fn plain_declarator_ok(t: &SyntaxTree, n: int) -> bool {
    let op = crate::accessor::kind_children(t, n, "assignment_operator"@);
    &&& t.nodes@[n].kind@ == "variable_declarator"@
    &&& op.len() > 0 ==> crate::accessor::readable(t, op[0] as int)
    &&& crate::accessor::field_children(t, n, "value"@).len() == 0
    &&& readable_first(t, crate::accessor::field_children(t, n, "name"@))
}

/// A declarator that the model reads in full: its operator and name can be
/// read, and its value, where it has one, is an expression that
/// `expr_reads`.
pub open spec fn declarator_reads(t: &SyntaxTree, n: int) -> bool {
    let op = crate::accessor::kind_children(t, n, "assignment_operator"@);
    let v = crate::accessor::field_children(t, n, "value"@);
    &&& t.nodes@[n].kind@ == "variable_declarator"@
    &&& op.len() > 0 ==> crate::accessor::readable(t, op[0] as int)
    &&& readable_first(t, crate::accessor::field_children(t, n, "name"@))
    &&& v.len() > 0 ==> crate::enum_def::expr_below(t, n, v[0] as int)
}

/// A local variable declaration that the model reads in full: modifiers and
/// type that can be read, and declarators that `declarator_reads`.
pub open spec fn local_declaration_reads(t: &SyntaxTree, n: int) -> bool {
    let ds = crate::accessor::field_children(t, n, "declarator"@);
    &&& t.nodes@[n].kind@ == "local_variable_declaration"@
    &&& optional_modifiers_ok(t, n)
    &&& declared_type_ok(t, n)
    &&& ds.len() > 0
    &&& forall|j: int| 0 <= j < ds.len() ==> declarator_reads(t, #[trigger] ds[j] as int)
}

/// The `type` child of `n` is a type that can be read.
pub open spec fn declared_type_ok(t: &SyntaxTree, n: int) -> bool {
    let ty = crate::accessor::field_children(t, n, "type"@);
    first_below(t, n, ty) && unannotated_type_ok(t, ty[0] as int)
}

/// No declarator of `n` has a value.
pub open spec fn declarators_without_values(t: &SyntaxTree, n: int) -> bool {
    let ds = crate::accessor::field_children(t, n, "declarator"@);
    forall|j: int| 0 <= j < ds.len() ==> crate::accessor::field_children(t, #[trigger] ds[j] as int, "value"@).len() == 0
}

/// `n` has declarators, none with a value, each of which can be read.
pub open spec fn plain_declarators_ok(t: &SyntaxTree, n: int) -> bool {
    let ds = crate::accessor::field_children(t, n, "declarator"@);
    ds.len() > 0 && forall|j: int| 0 <= j < ds.len() ==> plain_declarator_ok(t, #[trigger] ds[j] as int)
}

/// `name = value`, broken after the operator when too long.
pub struct VariableDeclarator {
    pub name: ValueNode,
    pub op: Option<ValueNode>,
    pub value: Option<VariableInitializer>,
    pub is_value_child_a_query_node: bool,
    pub node_context: NodeContext,
}

impl VariableDeclarator {
    pub fn new(t: &SyntaxTree, n: usize) -> (r: Result<Self, String>)
        requires
            t.wf(),
            t.valid(n as int),
        ensures
            r matches Ok(v) ==> crate::enum_def::declarator_tied(t, n as int, v),
            r matches Ok(v) ==> v.node_context.id == n && t.nodes@[n as int].kind@ == "variable_declarator"@,
            crate::accessor::field_children(t, n as int, "value"@).len() == 0 ==> (r is Ok <==> plain_declarator_ok(t, n as int)),
            r matches Ok(v) ==> (v.value is Some <==> crate::accessor::field_children(t, n as int, "value"@).len() > 0),
            r matches Ok(v) ==> (v.op is Some <==> crate::accessor::kind_children(t, n as int, "assignment_operator"@).len() > 0),
            declarator_reads(t, n as int) ==> r is Ok,
        decreases t.nodes@.len() - n, 1int,
    {
        assert_check(t, n, "variable_declarator")?;
        let op = match try_c_by_k(t, n, "assignment_operator") {
            Some(c) => Some(ValueNode::new(t, c)?),
            None => None,
        };
        let mut is_value_child_a_query_node = false;
        let value = match try_c_by_n(t, n, "value") {
            Some(c) => {
                is_value_child_a_query_node = crate::utility::is_query_expression(t, c);
                Some(VariableInitializer::Exp(Expression::new(t, c)?))
            },
            None => None,
        };
        let nm = c_by_n(t, n, "name")?;
        let name = ValueNode::new(t, nm)?;
        Ok(VariableDeclarator {
            name,
            op,
            value,
            is_value_child_a_query_node,
            node_context: NodeContext::with_punctuation(t, n),
        })
    }

    pub fn build<'a>(&self, b: &'a DocBuilder<'a>, cm: &CommentMap, st: &mut BuildState) -> (r: DocRef<'a>)
        ensures
            final(st).printed@.len() == old(st).printed@.len(),
            exists|body: Seq<DocRef<'a>>| #[trigger] wraps(*r, body) && declarator_layout(body, *self, b.config),
        decreases self,
    {
        proof {
            reveal_strlit(" ");
            assert(" "@ =~= seq![' ']);
        }
        let mut docs: Vec<DocRef<'a>> = Vec::new();
        let nm = self.name.build(b, cm, st);
        docs.push(nm);
        let d = match &self.value {
            None => b.concat(docs),
            Some(value) => {
                let s = b.txt(" ");
                docs.push(s);
                match &self.op {
                    Some(o) => {
                        let x = o.build(b, cm, st);
                        docs.push(x);
                    },
                    None => {},
                }
                if self.is_value_child_a_query_node {
                    let s2 = b.txt(" ");
                    docs.push(s2);
                    let v = value.build(b, cm, st);
                    docs.push(v);
                    b.concat(docs)
                } else {
                    let sl = b.softline();
                    docs.push(sl);
                    let v = value.build(b, cm, st);
                    docs.push(v);
                    b.group_indent_concat(docs)
                }
            },
        };
        let mut body: Vec<DocRef<'a>> = Vec::new();
        body.push(d);
        let ghost body_v = body@;
        assert(declarator_layout(body_v, *self, b.config));
        let r = with_comments_and_punc(b, cm, st, &self.node_context, body);
        assert(wraps(*r, body_v));
        r
    }
}

/// The declarators of a node's `declarator` children.
fn declarators_of(t: &SyntaxTree, n: usize) -> (r: Result<Vec<VariableDeclarator>, String>)
    requires
        t.wf(),
        t.valid(n as int),
    ensures
        r matches Ok(v) ==> v@.len() > 0,
        r matches Ok(v) ==> v@.len() == crate::accessor::field_children(t, n as int, "declarator"@).len(),
        r matches Ok(v) ==> crate::enum_def::declarators_tied(t, n as int, v@),
        crate::accessor::field_children(t, n as int, "declarator"@).len() == 0 ==> r is Err,
        declarators_without_values(t, n as int) ==> (r is Ok <==> plain_declarators_ok(t, n as int)),
        crate::accessor::field_children(t, n as int, "declarator"@).len() > 0 && (forall|j: int|
            0 <= j < crate::accessor::field_children(t, n as int, "declarator"@).len() ==> declarator_reads(
                t,
                #[trigger] crate::accessor::field_children(t, n as int, "declarator"@)[j] as int,
            )) ==> r is Ok,
    decreases t.nodes@.len() - n, 0int,
{
    let cs = cs_by_n(t, n, "declarator")?;
    let mut v: Vec<VariableDeclarator> = Vec::new();
    let mut i: usize = 0;
    while i < cs.len()
        invariant
            t.wf(),
            t.valid(n as int),
            i <= cs@.len(),
            v@.len() == i,
            cs@ == crate::accessor::field_children(t, n as int, "declarator"@),
            forall|j: int| 0 <= j < cs@.len() ==> n < #[trigger] cs@[j] < t.nodes@.len(),
            forall|j: int| 0 <= j < i ==> crate::accessor::field_children(t, #[trigger] cs@[j] as int, "value"@).len() == 0
                ==> plain_declarator_ok(t, cs@[j] as int),
            forall|j: int| 0 <= j < i ==> crate::enum_def::declarator_tied(t, cs@[j] as int, #[trigger] v@[j]),
        decreases cs@.len() - i,
    {
        let d = match VariableDeclarator::new(t, cs[i]) {
            Ok(d) => d,
            Err(e) => {
                assert(crate::accessor::field_children(t, cs@[i as int] as int, "value"@).len() == 0
                    ==> !plain_declarator_ok(t, cs@[i as int] as int));
                assert(!declarator_reads(t, cs@[i as int] as int));
                return Err(e);
            },
        };
        v.push(d);
        i = i + 1;
    }
    Ok(v)
}

/// Declarators separated by lines that break, indented, when too long; one
/// declarator as it is.
fn build_declarators<'a>(list: &Vec<VariableDeclarator>, b: &'a DocBuilder<'a>, cm: &CommentMap, st: &mut BuildState, indented: bool) -> (r: DocRef<'a>)
    ensures
        final(st).printed@.len() == old(st).printed@.len(),
        list@.len() == 1 && indented ==> declarator_doc(*r, list@[0], b.config),
        !(list@.len() == 1 && indented) ==> *r is Choice && *r->Choice_0 == Doc::Flat(r->Choice_1),
        !(list@.len() == 1 && indented) && !indented ==> is_softline_list(*r->Choice_1, list@.len()),
        !(list@.len() == 1 && indented) && indented ==> *r->Choice_1 is Indent && r->Choice_1->Indent_0 == b.config.indent_size
            && is_softline_list(*r->Choice_1->Indent_1, list@.len()),
    decreases list,
{
    let ghost len0 = st.printed@.len();
    let mut docs: Vec<DocRef<'a>> = Vec::new();
    let mut i: usize = 0;
    while i < list.len()
        invariant
            st.printed@.len() == len0,
            i <= list@.len(),
            docs@.len() == i,
            forall|k: int| 0 <= k < i ==> declarator_doc(*#[trigger] docs@[k], list@[k], b.config),
        decreases list@.len() - i,
    {
        let d = list[i].build(b, cm, st);
        docs.push(d);
        i = i + 1;
    }
    if docs.len() == 1 && indented {
        return docs[0];
    }
    let sl = b.softline();
    let sep = b.insertable(None, None, Some(sl));
    let j = b.intersperse(docs.as_slice(), &sep);
    assert(insertable_parts(sep) =~= seq![sl]);
    assert(interspersed(docs@, insertable_parts(sep)) == concat_parts(*j));
    assert(is_softline_list(*j, list@.len()));
    if indented {
        let ind = b.indent(j);
        b.group(ind)
    } else {
        b.group(j)
    }
}

/// A local declaration: its modifiers, the type, a space, the declarators.
pub open spec fn local_variable_layout<'a>(body: Seq<DocRef<'a>>, s: LocalVariableDeclaration, cfg: PrettyConfig) -> bool {
    let k = modifier_count(s.modifiers);
    &&& body.len() == k + 3
    &&& crate::enum_def::unannotated_type_doc(*body[k], s.type_)
    &&& is_text(*body[k + 1], seq![' '])
    &&& s.declarators@.len() == 1 ==> declarator_doc(*body[k + 2], s.declarators@[0], cfg)
}

/// `Type a = 1, b;` in a body.
pub struct LocalVariableDeclaration {
    pub modifiers: Option<Modifiers>,
    pub type_: UnannotatedType,
    pub declarators: Vec<VariableDeclarator>,
    pub node_context: NodeContext,
}

impl LocalVariableDeclaration {
    pub fn new(t: &SyntaxTree, n: usize) -> (r: Result<Self, String>)
        requires
            t.wf(),
            t.valid(n as int),
        ensures
            r matches Ok(v) ==> crate::enum_def::optional_modifiers_tied(t, n as int, v.modifiers),
            r matches Ok(v) ==> crate::enum_def::type_tied(t, crate::enum_def::field_child(t, n as int, "type"@), v.type_),
            r matches Ok(v) ==> crate::enum_def::declarators_tied(t, n as int, v.declarators@),
            r matches Ok(v) ==> v.node_context.id == n && v.node_context.punc is None
                && t.nodes@[n as int].kind@ == "local_variable_declaration"@,
            declarators_without_values(t, n as int) ==> (r is Ok <==> t.nodes@[n as int].kind@ == "local_variable_declaration"@
                && optional_modifiers_ok(t, n as int) && plain_declarators_ok(t, n as int) && declared_type_ok(t, n as int)),
            r matches Ok(v) ==> v.declarators@.len() == crate::accessor::field_children(t, n as int, "declarator"@).len(),
            local_declaration_reads(t, n as int) ==> r is Ok,
        decreases t.nodes@.len() - n, 1int,
    {
        assert_check(t, n, "local_variable_declaration")?;
        let modifiers = modifiers_of(t, n)?;
        let declarators = declarators_of(t, n)?;
        let ty = c_by_n(t, n, "type")?;
        let type_ = UnannotatedType::new(t, ty)?;
        Ok(LocalVariableDeclaration { modifiers, type_, declarators, node_context: NodeContext::without_punctuation(n) })
    }

    pub fn build<'a>(&self, b: &'a DocBuilder<'a>, cm: &CommentMap, st: &mut BuildState) -> (r: DocRef<'a>)
        ensures
            final(st).printed@.len() == old(st).printed@.len(),
            exists|body: Seq<DocRef<'a>>| #[trigger] wraps(*r, body) && local_variable_layout(body, *self, b.config),
        decreases self,
    {
        proof {
            reveal_strlit(" ");
            assert(" "@ =~= seq![' ']);
        }
        let mut body: Vec<DocRef<'a>> = Vec::new();
        build_modifiers(&self.modifiers, b, cm, st, &mut body);
        let ty = self.type_.build(b, cm, st);
        let ghost k = body@.len();
        body.push(ty);
        let s = b.txt(" ");
        body.push(s);
        let d = build_declarators(&self.declarators, b, cm, st, true);
        body.push(d);
        let ghost body_v = body@;
        assert(body_v[k as int] == ty);
        assert(local_variable_layout(body_v, *self, b.config));
        let r = with_comments_and_punc(b, cm, st, &self.node_context, body);
        assert(wraps(*r, body_v));
        r
    }
}

/// A parameter: its modifiers, the type, a space, the name, then a space and
/// the dimensions where there are any.
pub open spec fn formal_parameter_layout<'a>(body: Seq<DocRef<'a>>, s: FormalParameter) -> bool {
    let k = modifier_count(s.modifiers);
    &&& body.len() == k + 3 + if s.dimensions is Some { 2int } else { 0int }
    &&& crate::enum_def::unannotated_type_doc(*body[k], s.type_)
    &&& is_text(*body[k + 1], seq![' '])
    &&& wraps_text(*body[k + 2], s.name.value@)
    &&& s.dimensions is Some ==> is_text(*body[k + 3], seq![' '])
}

/// A formal parameter whose modifiers, type and name can be read.
pub open spec fn formal_parameter_ok(t: &SyntaxTree, n: int) -> bool {
    let ty = crate::accessor::field_children(t, n, "type"@);
    &&& t.nodes@[n].kind@ == "formal_parameter"@
    &&& optional_modifiers_ok(t, n)
    &&& first_below(t, n, ty)
    &&& unannotated_type_ok(t, ty[0] as int)
    &&& readable_first(t, crate::accessor::field_children(t, n, "name"@))
}

/// `final Type name` in a parameter list.
pub struct FormalParameter {
    pub modifiers: Option<Modifiers>,
    pub type_: UnannotatedType,
    pub name: ValueNode,
    pub dimensions: Option<Dimensions>,
    pub node_context: NodeContext,
}

impl FormalParameter {
    pub fn new(t: &SyntaxTree, n: usize) -> (r: Result<Self, String>)
        requires
            t.wf(),
            t.valid(n as int),
        ensures
            r matches Ok(v) ==> crate::enum_def::param_tied(t, n as int, v),
            r matches Ok(v) ==> v.node_context.id == n && t.nodes@[n as int].kind@ == "formal_parameter"@,
            r is Ok <==> formal_parameter_ok(t, n as int),
            r matches Ok(v) ==> (v.dimensions is Some <==> crate::accessor::kind_children(t, n as int, "dimensions"@).len() > 0),
        decreases t.nodes@.len() - n, 1int,
    {
        proof {
            crate::accessor::lemma_kind_children_kind(t, n as int, "dimensions"@);
        }
        assert_check(t, n, "formal_parameter")?;
        let modifiers = modifiers_of(t, n)?;
        let ty = c_by_n(t, n, "type")?;
        let type_ = UnannotatedType::new(t, ty)?;
        let nm = c_by_n(t, n, "name")?;
        let name = ValueNode::new(t, nm)?;
        let dimensions = match try_c_by_k(t, n, "dimensions") {
            Some(d) => Some(Dimensions::new(t, d)?),
            None => None,
        };
        Ok(FormalParameter { modifiers, type_, name, dimensions, node_context: NodeContext::with_punctuation(t, n) })
    }

    pub fn build<'a>(&self, b: &'a DocBuilder<'a>, cm: &CommentMap, st: &mut BuildState) -> (r: DocRef<'a>)
        ensures
            final(st).printed@.len() == old(st).printed@.len(),
            exists|body: Seq<DocRef<'a>>| #[trigger] wraps(*r, body) && formal_parameter_layout(body, *self),
        decreases self,
    {
        proof {
            reveal_strlit(" ");
            assert(" "@ =~= seq![' ']);
        }
        let mut body: Vec<DocRef<'a>> = Vec::new();
        build_modifiers(&self.modifiers, b, cm, st, &mut body);
        let ty = self.type_.build(b, cm, st);
        body.push(ty);
        let s = b.txt(" ");
        body.push(s);
        let nm = self.name.build(b, cm, st);
        body.push(nm);
        match &self.dimensions {
            Some(d) => {
                let s2 = b.txt(" ");
                body.push(s2);
                let x = d.build(b, cm, st);
                body.push(x);
            },
            None => {},
        }
        let ghost body_v = body@;
        assert(formal_parameter_layout(body_v, *self));
        let r = with_comments_and_punc(b, cm, st, &self.node_context, body);
        assert(wraps(*r, body_v));
        r
    }
}

/// The elements between `(` and `)`, on one line when that fits.
pub open spec fn formal_parameters_layout<'a>(body: Seq<DocRef<'a>>, s: FormalParameters, cfg: PrettyConfig) -> bool {
    body.len() == 1 && is_surrounded(*body[0], s.formal_parameters@.len(), "("@, ")"@, false, cfg.indent_size)
}

/// A `formal_parameters` node whose parameters can each be read.
pub open spec fn formal_parameters_ok(t: &SyntaxTree, n: int) -> bool {
    let ps = crate::accessor::kind_children(t, n, "formal_parameter"@);
    &&& t.nodes@[n].kind@ == "formal_parameters"@
    &&& forall|j: int| 0 <= j < ps.len() ==> formal_parameter_ok(t, #[trigger] ps[j] as int)
}

/// `(Type a, Type b)` of a method.
pub struct FormalParameters {
    pub formal_parameters: Vec<FormalParameter>,
    pub node_context: NodeContext,
}

impl FormalParameters {
    pub fn new(t: &SyntaxTree, n: usize) -> (r: Result<Self, String>)
        requires
            t.wf(),
            t.valid(n as int),
        ensures
            r matches Ok(v) ==> crate::enum_def::params_tied(t, n as int, v),
            r matches Ok(v) ==> v.node_context.id == n && t.nodes@[n as int].kind@ == "formal_parameters"@,
            r is Ok <==> formal_parameters_ok(t, n as int),
            r matches Ok(v) ==> v.formal_parameters@.len() == crate::accessor::kind_children(t, n as int, "formal_parameter"@).len(),
        decreases t.nodes@.len() - n, 1int,
    {
        assert_check(t, n, "formal_parameters")?;
        let cs = try_cs_by_k(t, n, "formal_parameter");
        let mut formal_parameters: Vec<FormalParameter> = Vec::new();
        let mut i: usize = 0;
        while i < cs.len()
            invariant
                t.wf(),
                t.valid(n as int),
                i <= cs@.len(),
                formal_parameters@.len() == i,
                t.nodes@[n as int].kind@ == "formal_parameters"@,
                cs@ == crate::accessor::kind_children(t, n as int, "formal_parameter"@),
                forall|j: int| 0 <= j < cs@.len() ==> n < #[trigger] cs@[j] < t.nodes@.len(),
                forall|j: int| 0 <= j < i ==> formal_parameter_ok(t, #[trigger] cs@[j] as int),
                forall|j: int| 0 <= j < i ==> crate::enum_def::param_tied(t, cs@[j] as int, #[trigger] formal_parameters@[j]),
            decreases cs@.len() - i,
        {
            let p = match FormalParameter::new(t, cs[i]) {
                Ok(p) => p,
                Err(e) => {
                    assert(!formal_parameter_ok(t, cs@[i as int] as int));
                    return Err(e);
                },
            };
            formal_parameters.push(p);
            i = i + 1;
        }
        Ok(FormalParameters { formal_parameters, node_context: NodeContext::with_punctuation(t, n) })
    }

    pub fn build<'a>(&self, b: &'a DocBuilder<'a>, cm: &CommentMap, st: &mut BuildState) -> (r: DocRef<'a>)
        ensures
            final(st).printed@.len() == old(st).printed@.len(),
            exists|body: Seq<DocRef<'a>>| #[trigger] wraps(*r, body) && formal_parameters_layout(body, *self, b.config),
        decreases self,
    {
        let ghost len0 = st.printed@.len();
        let mut docs: Vec<DocRef<'a>> = Vec::new();
        let mut i: usize = 0;
        while i < self.formal_parameters.len()
            invariant
                st.printed@.len() == len0,
                i <= self.formal_parameters@.len(),
                docs@.len() == i,
            decreases self.formal_parameters@.len() - i,
        {
            let d = self.formal_parameters[i].build(b, cm, st);
            docs.push(d);
            i = i + 1;
        }
        let g = surround_group(b, docs.as_slice(), "(", ")", false);
        let mut body: Vec<DocRef<'a>> = Vec::new();
        body.push(g);
        let ghost body_v = body@;
        assert(formal_parameters_layout(body_v, *self, b.config));
        let r = with_comments_and_punc(b, cm, st, &self.node_context, body);
        assert(wraps(*r, body_v));
        r
    }
}

/// An accessor: its modifiers, `get` or `set`, then, for an accessor with
/// a body, the brace separator and the block.
pub open spec fn accessor_layout<'a>(body: Seq<DocRef<'a>>, s: AccessorDeclaration, cfg: PrettyConfig) -> bool {
    let n = body.len();
    match s.body {
        Some(_) => n >= 3 && is_text(*body[n - 3], s.accessor@) && is_brace_sep(*body[n - 2], cfg.brace_style),
        None => n >= 1 && is_text(*body[n - 1], s.accessor@),
    }
}

// ---------------------------------------------------------------------------
// Declarations.
// ---------------------------------------------------------------------------
/// An accessor without a body, `get;` or `set;`, whose modifiers and name
/// can be read.
pub open spec fn bodyless_accessor_ok(t: &SyntaxTree, n: int) -> bool {
    &&& t.nodes@[n].kind@ == "accessor_declaration"@
    &&& crate::accessor::field_children(t, n, "body"@).len() == 0
    &&& optional_modifiers_ok(t, n)
    &&& readable_first(t, crate::accessor::field_children(t, n, "accessor"@))
}

/// `get` or `set` of a property, with or without a body.
pub struct AccessorDeclaration {
    pub modifiers: Option<Modifiers>,
    pub accessor: String,
    pub body: Option<Block>,
    pub node_context: NodeContext,
}

impl AccessorDeclaration {
    pub fn new(t: &SyntaxTree, n: usize) -> (r: Result<Self, String>)
        requires
            t.wf(),
            t.valid(n as int),
        ensures
            r matches Ok(v) ==> v.node_context.id == n && t.nodes@[n as int].kind@ == "accessor_declaration"@
                && (v.body is Some <==> crate::accessor::field_children(t, n as int, "body"@).len() > 0),
            crate::accessor::field_children(t, n as int, "body"@).len() == 0 ==> (r is Ok <==> bodyless_accessor_ok(t, n as int)),
            r matches Ok(v) ==> v.accessor@ == crate::accessor::node_text(t, crate::accessor::field_children(t, n as int, "accessor"@)[0] as int),
        decreases t.nodes@.len() - n, 1int,
    {
        assert_check(t, n, "accessor_declaration")?;
        let modifiers = modifiers_of(t, n)?;
        let accessor = crate::accessor::cvalue_by_n(t, n, "accessor")?;
        let body = match try_c_by_n(t, n, "body") {
            Some(c) => Some(Block::new(t, c)?),
            None => None,
        };
        Ok(AccessorDeclaration { modifiers, accessor, body, node_context: NodeContext::with_inner_punctuation(t, n) })
    }

    pub fn build<'a>(&self, b: &'a DocBuilder<'a>, cm: &CommentMap, st: &mut BuildState) -> (r: DocRef<'a>)
        ensures
            final(st).printed@.len() == old(st).printed@.len(),
            exists|body: Seq<DocRef<'a>>| #[trigger] wraps(*r, body) && accessor_layout(body, *self, b.config),
        decreases self,
    {
        let mut body: Vec<DocRef<'a>> = Vec::new();
        build_modifiers(&self.modifiers, b, cm, st, &mut body);
        let a = b.txt(self.accessor.as_str());
        body.push(a);
        match &self.body {
            Some(bl) => {
                let s = before_brace(b);
                body.push(s);
                let d = bl.build(b, cm, st);
                body.push(d);
            },
            None => {},
        }
        let ghost body_v = body@;
        assert(accessor_layout(body_v, *self, b.config));
        let r = with_comments_and_punc(b, cm, st, &self.node_context, body);
        assert(wraps(*r, body_v));
        r
    }
}

/// The accessors of a property: when one has a body, `{`, each accessor on
/// its own indented line, `}` on a line of its own; else in braces on one
/// line when that fits.
pub open spec fn accessor_list_layout<'a>(body: Seq<DocRef<'a>>, s: AccessorList, cfg: PrettyConfig) -> bool {
    &&& body.len() == 1
    &&& if s.child_has_body_section {
        let p = concat_parts(*body[0]);
        &&& *body[0] is Concat
        &&& p.len() == 5
        &&& is_text(*p[0], "{"@)
        &&& (*p[1] matches Doc::Indent(i, x) && i == cfg.indent_size && *x == Doc::Newline)
        &&& (*p[2] matches Doc::Indent(j, _) && j == cfg.indent_size)
        &&& *p[3] == Doc::Newline
        &&& is_text(*p[4], "}"@)
    } else {
        *body[0] is Choice
    }
}

/// `{ get; set; }` of a property: on one line when no accessor has a body
/// and it fits, else each accessor on its own line.
pub struct AccessorList {
    pub accessor_declarations: Vec<AccessorDeclaration>,
    pub child_has_body_section: bool,
    pub node_context: NodeContext,
}

impl AccessorList {
    pub fn new(t: &SyntaxTree, n: usize) -> (r: Result<Self, String>)
        requires
            t.wf(),
            t.valid(n as int),
        ensures
            r matches Ok(v) ==> v.node_context.id == n && t.nodes@[n as int].kind@ == "accessor_list"@
                && (v.child_has_body_section <==> exists|i: int| 0 <= i < v.accessor_declarations@.len()
                    && (#[trigger] v.accessor_declarations@[i]).body is Some),
            crate::accessor::kind_children(t, n as int, "accessor_declaration"@).len() == 0 ==> r is Err,
            (forall|j: int| 0 <= j < crate::accessor::kind_children(t, n as int, "accessor_declaration"@).len()
                ==> crate::accessor::field_children(t, #[trigger] crate::accessor::kind_children(t, n as int, "accessor_declaration"@)[j] as int, "body"@).len() == 0)
                ==> (r is Ok <==> t.nodes@[n as int].kind@ == "accessor_list"@
                    && crate::accessor::kind_children(t, n as int, "accessor_declaration"@).len() > 0
                    && forall|j: int| 0 <= j < crate::accessor::kind_children(t, n as int, "accessor_declaration"@).len()
                        ==> bodyless_accessor_ok(t, #[trigger] crate::accessor::kind_children(t, n as int, "accessor_declaration"@)[j] as int)),
        decreases t.nodes@.len() - n, 1int,
    {
        assert_check(t, n, "accessor_list")?;
        let cs = cs_by_k(t, n, "accessor_declaration")?;
        let mut accessor_declarations: Vec<AccessorDeclaration> = Vec::new();
        let mut child_has_body_section = false;
        let mut i: usize = 0;
        while i < cs.len()
            invariant
                t.wf(),
                t.valid(n as int),
                t.nodes@[n as int].kind@ == "accessor_list"@,
                cs@ == crate::accessor::kind_children(t, n as int, "accessor_declaration"@),
                forall|j: int| 0 <= j < i ==> crate::accessor::field_children(t, #[trigger] cs@[j] as int, "body"@).len() == 0
                    ==> bodyless_accessor_ok(t, cs@[j] as int),
                i <= cs@.len(),
                accessor_declarations@.len() == i,
                forall|j: int| 0 <= j < cs@.len() ==> n < #[trigger] cs@[j] < t.nodes@.len(),
                child_has_body_section <==> exists|k: int| 0 <= k < accessor_declarations@.len()
                    && (#[trigger] accessor_declarations@[k]).body is Some,
            decreases cs@.len() - i,
        {
            let a = match AccessorDeclaration::new(t, cs[i]) {
                Ok(a) => a,
                Err(e) => {
                    assert(crate::accessor::field_children(t, cs@[i as int] as int, "body"@).len() == 0
                        ==> !bodyless_accessor_ok(t, cs@[i as int] as int));
                    return Err(e);
                },
            };
            let with_body = a.body.is_some();
            let ghost before = accessor_declarations@;
            accessor_declarations.push(a);
            proof {
                if child_has_body_section {
                    let k = choose|k: int| 0 <= k < before.len() && (#[trigger] before[k]).body is Some;
                    assert(accessor_declarations@[k] == before[k]);
                }
                if with_body {
                    assert(accessor_declarations@[i as int].body is Some);
                }
                if !child_has_body_section && !with_body {
                    assert forall|k: int| 0 <= k < accessor_declarations@.len() implies (#[trigger] accessor_declarations@[k]).body is None by {
                        if k < i {
                            assert(accessor_declarations@[k] == before[k]);
                        }
                    }
                }
            }
            child_has_body_section = child_has_body_section || with_body;
            i = i + 1;
        }
        Ok(AccessorList { accessor_declarations, child_has_body_section, node_context: NodeContext::with_punctuation(t, n) })
    }

    pub fn build<'a>(&self, b: &'a DocBuilder<'a>, cm: &CommentMap, st: &mut BuildState) -> (r: DocRef<'a>)
        ensures
            final(st).printed@.len() == old(st).printed@.len(),
            exists|body: Seq<DocRef<'a>>| #[trigger] wraps(*r, body) && accessor_list_layout(body, *self, b.config),
        decreases self,
    {
        let ghost len0 = st.printed@.len();
        let mut docs: Vec<DocRef<'a>> = Vec::new();
        let mut i: usize = 0;
        while i < self.accessor_declarations.len()
            invariant
                st.printed@.len() == len0,
            decreases self.accessor_declarations@.len() - i,
        {
            let d = self.accessor_declarations[i].build(b, cm, st);
            docs.push(d);
            i = i + 1;
        }
        let d = if self.child_has_body_section {
            let n0 = b.nl();
            let sep = b.insertable(None, None, Some(n0));
            let o = b.txt("{");
            let n1 = b.nl();
            let i1 = b.indent(n1);
            let j = b.intersperse(docs.as_slice(), &sep);
            let i2 = b.indent(j);
            let n2 = b.nl();
            let c = b.txt("}");
            let mut parts: Vec<DocRef<'a>> = Vec::new();
            parts.push(o);
            parts.push(i1);
            parts.push(i2);
            parts.push(n2);
            parts.push(c);
            b.concat(parts)
        } else {
            surround_group(b, docs.as_slice(), "{", "}", true)
        };
        let mut body: Vec<DocRef<'a>> = Vec::new();
        body.push(d);
        let ghost body_v = body@;
        assert(accessor_list_layout(body_v, *self, b.config));
        let r = with_comments_and_punc(b, cm, st, &self.node_context, body);
        assert(wraps(*r, body_v));
        r
    }
}

/// A field: its modifiers, the type, a space, the declarators, then for a
/// property the accessors after the brace separator when one of them has a
/// body, else after a space.
pub open spec fn field_declaration_layout<'a>(body: Seq<DocRef<'a>>, s: FieldDeclaration, cfg: PrettyConfig) -> bool {
    let k = modifier_count(s.modifiers);
    &&& crate::enum_def::unannotated_type_doc(*body[k], s.type_)
    &&& is_text(*body[k + 1], seq![' '])
    &&& s.declarators@.len() == 1 ==> declarator_doc(*body[k + 2], s.declarators@[0], cfg)
    &&& match s.accessor_list {
        None => body.len() == k + 3,
        Some(a) => body.len() == k + 5 && if a.child_has_body_section {
            is_brace_sep(*body[k + 3], cfg.brace_style)
        } else {
            is_text(*body[k + 3], seq![' '])
        },
    }
}

/// `Type a, b;` or a property `Type p { get; set; }` in a class.
pub struct FieldDeclaration {
    pub modifiers: Option<Modifiers>,
    pub type_: UnannotatedType,
    pub declarators: Vec<VariableDeclarator>,
    pub accessor_list: Option<AccessorList>,
    pub node_context: NodeContext,
}

impl FieldDeclaration {
    pub fn new(t: &SyntaxTree, n: usize) -> (r: Result<Self, String>)
        requires
            t.wf(),
            t.valid(n as int),
        ensures
            r matches Ok(v) ==> crate::enum_def::optional_modifiers_tied(t, n as int, v.modifiers),
            r matches Ok(v) ==> crate::enum_def::type_tied(t, crate::enum_def::field_child(t, n as int, "type"@), v.type_),
            r matches Ok(v) ==> crate::enum_def::declarators_tied(t, n as int, v.declarators@),
            r matches Ok(v) ==> v.node_context.id == n && t.nodes@[n as int].kind@ == "field_declaration"@,
            declarators_without_values(t, n as int) && crate::accessor::kind_children(t, n as int, "accessor_list"@).len() == 0
                ==> (r is Ok <==> t.nodes@[n as int].kind@ == "field_declaration"@ && optional_modifiers_ok(t, n as int)
                && plain_declarators_ok(t, n as int) && declared_type_ok(t, n as int)),
            r matches Ok(v) ==> v.declarators@.len() == crate::accessor::field_children(t, n as int, "declarator"@).len(),
            r matches Ok(v) ==> (v.accessor_list is Some <==> crate::accessor::kind_children(t, n as int, "accessor_list"@).len() > 0),
            field_reads(t, n as int) ==> r is Ok,
        decreases t.nodes@.len() - n, 1int,
    {
        assert_check(t, n, "field_declaration")?;
        let modifiers = modifiers_of(t, n)?;
        let declarators = declarators_of(t, n)?;
        let accessor_list = match try_c_by_k(t, n, "accessor_list") {
            Some(c) => Some(AccessorList::new(t, c)?),
            None => None,
        };
        let ty = c_by_n(t, n, "type")?;
        let type_ = UnannotatedType::new(t, ty)?;
        Ok(FieldDeclaration { modifiers, type_, declarators, accessor_list, node_context: NodeContext::with_punctuation(t, n) })
    }

    pub fn build<'a>(&self, b: &'a DocBuilder<'a>, cm: &CommentMap, st: &mut BuildState) -> (r: DocRef<'a>)
        ensures
            final(st).printed@.len() == old(st).printed@.len(),
            exists|body: Seq<DocRef<'a>>| #[trigger] wraps(*r, body) && field_declaration_layout(body, *self, b.config),
        decreases self,
    {
        proof {
            reveal_strlit(" ");
            assert(" "@ =~= seq![' ']);
        }
        let mut body: Vec<DocRef<'a>> = Vec::new();
        build_modifiers(&self.modifiers, b, cm, st, &mut body);
        let ty = self.type_.build(b, cm, st);
        body.push(ty);
        let s = b.txt(" ");
        body.push(s);
        let d = build_declarators(&self.declarators, b, cm, st, true);
        body.push(d);
        match &self.accessor_list {
            Some(a) => {
                let s2 = if a.child_has_body_section {
                    before_brace(b)
                } else {
                    b.txt(" ")
                };
                body.push(s2);
                let x = a.build(b, cm, st);
                body.push(x);
            },
            None => {},
        }
        let ghost body_v = body@;
        assert(field_declaration_layout(body_v, *self, b.config));
        let r = with_comments_and_punc(b, cm, st, &self.node_context, body);
        assert(wraps(*r, body_v));
        r
    }
}

/// A constant: its modifiers, the type, a space, the declarators.
pub open spec fn constant_layout<'a>(body: Seq<DocRef<'a>>, s: ConstantDeclaration) -> bool {
    let k = modifier_count(s.modifiers);
    body.len() == k + 3 && is_text(*body[k + 1], seq![' '])
}

/// `Type A = 1;` in an interface.
pub struct ConstantDeclaration {
    pub modifiers: Option<Modifiers>,
    pub type_: UnannotatedType,
    pub declarators: Vec<VariableDeclarator>,
    pub node_context: NodeContext,
}

impl ConstantDeclaration {
    pub fn new(t: &SyntaxTree, n: usize) -> (r: Result<Self, String>)
        requires
            t.wf(),
            t.valid(n as int),
        ensures
            r matches Ok(v) ==> v.node_context.id == n,
            declarators_without_values(t, n as int) ==> (r is Ok <==> optional_modifiers_ok(t, n as int)
                && plain_declarators_ok(t, n as int) && declared_type_ok(t, n as int)),
            r matches Ok(v) ==> v.declarators@.len() == crate::accessor::field_children(t, n as int, "declarator"@).len(),
        decreases t.nodes@.len() - n, 1int,
    {
        let modifiers = modifiers_of(t, n)?;
        let declarators = declarators_of(t, n)?;
        let ty = c_by_n(t, n, "type")?;
        let type_ = UnannotatedType::new(t, ty)?;
        Ok(ConstantDeclaration { modifiers, type_, declarators, node_context: NodeContext::with_punctuation(t, n) })
    }

    pub fn build<'a>(&self, b: &'a DocBuilder<'a>, cm: &CommentMap, st: &mut BuildState) -> (r: DocRef<'a>)
        ensures
            final(st).printed@.len() == old(st).printed@.len(),
            exists|body: Seq<DocRef<'a>>| #[trigger] wraps(*r, body) && constant_layout(body, *self),
        decreases self,
    {
        proof {
            reveal_strlit(" ");
            assert(" "@ =~= seq![' ']);
        }
        let mut body: Vec<DocRef<'a>> = Vec::new();
        build_modifiers(&self.modifiers, b, cm, st, &mut body);
        let ty = self.type_.build(b, cm, st);
        body.push(ty);
        let s = b.txt(" ");
        body.push(s);
        let d = build_declarators(&self.declarators, b, cm, st, false);
        body.push(d);
        let ghost body_v = body@;
        assert(constant_layout(body_v, *self));
        let r = with_comments_and_punc(b, cm, st, &self.node_context, body);
        assert(wraps(*r, body_v));
        r
    }
}

/// A method: its modifiers, the type, a space, the name and the parameters,
/// then, for a method with a body, the brace separator and the block.
pub open spec fn method_layout<'a>(body: Seq<DocRef<'a>>, s: MethodDeclaration, cm: &CommentMap, cfg: PrettyConfig) -> bool {
    let n = body.len();
    let k = modifier_count(s.modifiers);
    &&& n == k + (if s.body is Some {
        6int
    } else {
        4int
    })
    &&& crate::enum_def::unannotated_type_doc(*body[k], s.type_)
    &&& is_text(*body[k + 1], seq![' '])
    &&& wraps_text(*body[k + 2], s.name.value@)
    &&& match s.body {
        Some(blk) => is_brace_sep(*body[n - 2], cfg.brace_style) && crate::enum_def::block_doc(*body[n - 1], blk, cm, cfg),
        None => true,
    }
}

/// A method whose body, where it has one, holds only statements that hold
/// no other statement.
pub open spec fn method_with_leaf_body(t: &SyntaxTree, n: int) -> bool {
    first_field_if(t, n, "body"@, |c: int| holds_leaf_statements(t, c))
}

/// A method of that shape that can be read: modifiers, type, name,
/// parameters and body.
pub open spec fn leaf_method_ok(t: &SyntaxTree, n: int) -> bool {
    &&& t.nodes@[n].kind@ == "method_declaration"@
    &&& optional_modifiers_ok(t, n)
    &&& declared_type_ok(t, n)
    &&& readable_first(t, crate::accessor::field_children(t, n, "name"@))
    &&& first_field_is(t, n, "parameters"@, |c: int| formal_parameters_ok(t, c))
    &&& first_field_if(t, n, "body"@, |c: int| leaf_block_ok(t, c))
}

/// A method: modifiers, type, name, parameters and an optional body.
pub struct MethodDeclaration {
    pub modifiers: Option<Modifiers>,
    pub type_: UnannotatedType,
    pub name: ValueNode,
    pub formal_parameters: FormalParameters,
    pub body: Option<Block>,
    pub node_context: NodeContext,
}

impl MethodDeclaration {
    pub fn new(t: &SyntaxTree, n: usize) -> (r: Result<Self, String>)
        requires
            t.wf(),
            t.valid(n as int),
        ensures
            r matches Ok(v) ==> crate::enum_def::method_tied(t, n as int, v),
            r matches Ok(v) ==> v.node_context.id == n && t.nodes@[n as int].kind@ == "method_declaration"@,
            method_with_leaf_body(t, n as int) ==> (r is Ok <==> leaf_method_ok(t, n as int)),
            r matches Ok(v) ==> (v.body is Some <==> crate::accessor::field_children(t, n as int, "body"@).len() > 0),
            method_reads(t, n as int) ==> r is Ok,
        decreases t.nodes@.len() - n, 1int,
    {
        assert_check(t, n, "method_declaration")?;
        let modifiers = modifiers_of(t, n)?;
        let ty = c_by_n(t, n, "type")?;
        let type_ = UnannotatedType::new(t, ty)?;
        let nm = c_by_n(t, n, "name")?;
        let name = ValueNode::new(t, nm)?;
        let p = c_by_n(t, n, "parameters")?;
        let formal_parameters = FormalParameters::new(t, p)?;
        let body = match try_c_by_n(t, n, "body") {
            Some(c) => Some(Block::new(t, c)?),
            None => None,
        };
        Ok(MethodDeclaration { modifiers, type_, name, formal_parameters, body, node_context: NodeContext::with_punctuation(t, n) })
    }

    pub fn build<'a>(&self, b: &'a DocBuilder<'a>, cm: &CommentMap, st: &mut BuildState) -> (r: DocRef<'a>)
        ensures
            final(st).printed@.len() == old(st).printed@.len(),
            exists|body: Seq<DocRef<'a>>| #[trigger] wraps(*r, body) && method_layout(body, *self, cm, b.config),
        decreases self,
    {
        proof {
            reveal_strlit(" ");
            assert(" "@ =~= seq![' ']);
        }
        let mut body: Vec<DocRef<'a>> = Vec::new();
        build_modifiers(&self.modifiers, b, cm, st, &mut body);
        let ty = self.type_.build(b, cm, st);
        body.push(ty);
        let s = b.txt(" ");
        body.push(s);
        let nm = self.name.build(b, cm, st);
        body.push(nm);
        let p = self.formal_parameters.build(b, cm, st);
        body.push(p);
        match &self.body {
            Some(bl) => {
                let s2 = before_brace(b);
                body.push(s2);
                let d = bl.build(b, cm, st);
                body.push(d);
            },
            None => {},
        }
        let ghost body_v = body@;
        assert(method_layout(body_v, *self, cm, b.config));
        let r = with_comments_and_punc(b, cm, st, &self.node_context, body);
        assert(wraps(*r, body_v));
        r
    }
}

/// `this` or `super` in a constructor invocation.
pub enum Constructor {
    This,
    Super,
}

/// The object, the type arguments, `this` or `super`, then the arguments.
pub open spec fn construct_invocation_layout<'a>(body: Seq<DocRef<'a>>, s: ConstructInvocation) -> bool {
    let k: int = (if s.object is Some { 1int } else { 0int }) + (if s.type_arguments is Some { 1int } else { 0int });
    &&& body.len() == k + 1 + if s.constructor is Some { 1int } else { 0int }
    &&& s.constructor == Some(Constructor::This) ==> is_text(*body[k], "this"@)
    &&& s.constructor == Some(Constructor::Super) ==> is_text(*body[k], "super"@)
}

/// `this(args)` or `super(args)` opening a constructor.
pub struct ConstructInvocation {
    pub object: Option<Box<PrimaryExpression>>,
    pub type_arguments: Option<TypeArguments>,
    pub constructor: Option<Constructor>,
    pub arguments: ArgumentList,
    pub node_context: NodeContext,
}

impl ConstructInvocation {
    pub fn new(t: &SyntaxTree, n: usize) -> (r: Result<Self, String>)
        requires
            t.wf(),
            t.valid(n as int),
        ensures
            r matches Ok(v) ==> v.node_context.id == n,
            crate::accessor::field_children(t, n as int, "object"@).len() == 0
                && first_field_if(t, n as int, "arguments"@, |c: int| holds_leaf_expressions(t, c))
                ==> (r is Ok <==> ({
                let ta = crate::accessor::kind_children(t, n as int, "type_arguments"@);
                &&& ta.len() > 0 ==> type_arguments_ok(t, ta[0] as int)
                &&& first_field_if(t, n as int, "constructor"@, |c: int| t.nodes@[c].kind@ == "this"@ || t.nodes@[c].kind@ == "super"@)
                &&& first_field_is(t, n as int, "arguments"@, |c: int| leaf_expressions_ok(t, c))
            })),
            r matches Ok(v) ==> (v.constructor is Some <==> crate::accessor::field_children(t, n as int, "constructor"@).len() > 0),
        decreases t.nodes@.len() - n, 1int,
    {
        let object = match try_c_by_n(t, n, "object") {
            Some(c) => Some(Box::new(PrimaryExpression::new(t, c)?)),
            None => None,
        };
        let type_arguments = match try_c_by_k(t, n, "type_arguments") {
            Some(c) => Some(TypeArguments::new(t, c)?),
            None => None,
        };
        let constructor = match try_c_by_n(t, n, "constructor") {
            Some(c) => {
                if kind_is(t, c, "this") {
                    Some(Constructor::This)
                } else if kind_is(t, c, "super") {
                    Some(Constructor::Super)
                } else {
                    return Err(panic_unknown_node(t, c, "Constructor"));
                }
            },
            None => None,
        };
        let a = c_by_n(t, n, "arguments")?;
        let arguments = ArgumentList::new(t, a)?;
        Ok(ConstructInvocation { object, type_arguments, constructor, arguments, node_context: NodeContext::with_punctuation(t, n) })
    }

    pub fn build<'a>(&self, b: &'a DocBuilder<'a>, cm: &CommentMap, st: &mut BuildState) -> (r: DocRef<'a>)
        ensures
            final(st).printed@.len() == old(st).printed@.len(),
            exists|body: Seq<DocRef<'a>>| #[trigger] wraps(*r, body) && construct_invocation_layout(body, *self),
        decreases self,
    {
        let mut body: Vec<DocRef<'a>> = Vec::new();
        match &self.object {
            Some(o) => {
                let d = o.build(b, cm, st);
                body.push(d);
            },
            None => {},
        }
        match &self.type_arguments {
            Some(a) => {
                let d = a.build(b, cm, st);
                body.push(d);
            },
            None => {},
        }
        match &self.constructor {
            Some(Constructor::This) => {
                let d = b.txt("this");
                body.push(d);
            },
            Some(Constructor::Super) => {
                let d = b.txt("super");
                body.push(d);
            },
            None => {},
        }
        let a = self.arguments.build(b, cm, st);
        body.push(a);
        let ghost body_v = body@;
        assert(construct_invocation_layout(body_v, *self));
        let r = with_comments_and_punc(b, cm, st, &self.node_context, body);
        assert(wraps(*r, body_v));
        r
    }
}

/// At position `k` of the parts `p`: empty braces for a body with nothing
/// in it; else `{`, the `this(..)` or `super(..)` call on a line of its
/// own where there is one, the statements each on its own line (see
/// `members_on_lines`), indented, then `}` on a line of its own.
pub open spec fn constructor_body_at<'a>(p: Seq<DocRef<'a>>, k: int, c: ConstructorBody, indent: u32) -> bool {
    if c.constructor_invocation is None && c.statements@.len() == 0 {
        0 <= k < p.len() && is_empty_braces(*p[k])
    } else {
        let m: int = if c.constructor_invocation is Some && c.statements@.len() > 0 {
            3
        } else {
            2
        };
        &&& 0 <= k
        &&& k + m + 2 < p.len()
        &&& is_text(*p[k], "{"@)
        &&& *p[k + m + 1] == Doc::Newline
        &&& is_text(*p[k + m + 2], "}"@)
        &&& c.constructor_invocation is None ==> *p[k + 1] is Indent && p[k + 1]->Indent_0 == indent
            && *p[k + 1]->Indent_1 == Doc::Newline
        &&& *p[k + m] is Indent
        &&& p[k + m]->Indent_0 == indent
        &&& c.statements@.len() > 0 ==> lines_of_members(*p[k + m]->Indent_1, trailing_flags(c.statements@))
    }
}

/// `d` is a concatenation that lays out members, with the given empty-line
/// flags, each on its own line (see `members_on_lines`).
pub open spec fn lines_of_members<'a>(d: Doc<'a>, trailing: Seq<bool>) -> bool {
    &&& d is Concat
    &&& exists|docs: Seq<DocRef<'a>>| #[trigger] members_on_lines(concat_parts(d), docs, trailing)
}

/// The body of a constructor: an optional `this(...)`/`super(...)` call,
/// then the statements.
pub struct ConstructorBody {
    pub constructor_invocation: Option<BodyMember<ConstructInvocation>>,
    pub statements: Vec<BodyMember<Statement>>,
    pub node_context: NodeContext,
}

impl ConstructorBody {
    pub fn new(t: &SyntaxTree, n: usize) -> (r: Result<Self, String>)
        requires
            t.wf(),
            t.valid(n as int),
        ensures
            r matches Ok(v) ==> crate::enum_def::ctor_body_tied(t, n as int, v),
            r matches Ok(v) ==> v.node_context.id == n,
            crate::accessor::code_children(t, n as int).len() == 0 ==> (r matches Ok(v) && v.constructor_invocation is None
                && v.statements@.len() == 0),
            constructor_body_reads(t, n as int) ==> r is Ok,
        decreases t.nodes@.len() - n, 1int,
    {
        let cs = children_vec(t, n);
        let mut constructor_invocation: Option<BodyMember<ConstructInvocation>> = None;
        let mut statements: Vec<BodyMember<Statement>> = Vec::new();
        let mut i: usize = 0;
        while i < cs.len()
            invariant
                t.wf(),
                t.valid(n as int),
                cs@ == crate::accessor::code_children(t, n as int),
                i == 0 ==> constructor_invocation is None && statements@.len() == 0,
                i <= cs@.len(),
                forall|j: int| 0 <= j < cs@.len() ==> n < #[trigger] cs@[j] < t.nodes@.len(),
                constructor_invocation is Some <==> i > 0 && t.nodes@[cs@[0] as int].kind@ == "explicit_constructor_invocation"@,
                statements@.len() + (if constructor_invocation is Some { 1int } else { 0int }) == i,
                forall|k: int|
                    0 <= k < statements@.len() ==> crate::enum_def::stmt_tied(
                        t,
                        cs@[k + (if constructor_invocation is Some { 1int } else { 0int })] as int,
                        #[trigger] statements@[k].member,
                    ),
            decreases cs@.len() - i,
        {
            let c = cs[i];
            if i == 0 && kind_is(t, c, "explicit_constructor_invocation") {
                let inv = ConstructInvocation::new(t, c)?;
                constructor_invocation = Some(BodyMember::new(t, c, inv));
            } else {
                let s = Statement::new(t, c)?;
                statements.push(BodyMember::new(t, c, s));
            }
            i = i + 1;
        }
        Ok(ConstructorBody { constructor_invocation, statements, node_context: NodeContext::with_punctuation(t, n) })
    }

    /// Appends the body without its comments.
    fn push_body<'a>(&self, b: &'a DocBuilder<'a>, cm: &CommentMap, st: &mut BuildState, result: &mut Vec<DocRef<'a>>)
        ensures
            final(st).printed@.len() == old(st).printed@.len(),
            old(result)@.is_prefix_of(final(result)@),
            constructor_body_at(final(result)@, old(result)@.len() as int, *self, b.config.indent_size),
        decreases self, 0int,
    {
        let ghost start = result@;
        let k = result.len();
        if self.constructor_invocation.is_none() && self.statements.len() == 0 {
            let e = empty_braces(b);
            result.push(e);
            return;
        }
        let o = b.txt("{");
        result.push(o);
        match &self.constructor_invocation {
            Some(c) => {
                let n = b.nl();
                let m = c.member.build(b, cm, st);
                let mut v: Vec<DocRef<'a>> = Vec::new();
                v.push(n);
                v.push(m);
                let cc = b.concat(v);
                let ind = b.indent(cc);
                result.push(ind);
                if self.statements.len() > 0 {
                    if c.has_trailing_newline {
                        let e = b.empty_new_line();
                        let ie = b.indent(e);
                        result.push(ie);
                    } else {
                        let n2 = b.nl();
                        let i2 = b.indent(n2);
                        result.push(i2);
                    }
                }
            },
            None => {
                let n = b.nl();
                let ind = b.indent(n);
                result.push(ind);
            },
        }
        let (docs, trailing) = build_statements(&self.statements, b, cm, st);
        assert(trailing@ =~= trailing_flags(self.statements@));
        let sp = b.split_with_trailing_newline_considered(docs.as_slice(), trailing.as_slice());
        let isp = b.indent(sp);
        let ghost m: int = result@.len() - k;
        result.push(isp);
        let n3 = b.nl();
        result.push(n3);
        let c = b.txt("}");
        result.push(c);
        assert(start.is_prefix_of(result@));
        assert(m == if self.constructor_invocation is Some && self.statements@.len() > 0 { 3int } else { 2int });
        assert(result@[k + m] == isp && isp->Indent_1 == sp);
        if self.statements.len() > 0 {
            assert(members_on_lines(concat_parts(*result@[k + m]->Indent_1), docs@, trailing_flags(self.statements@)));
        }
    }

    pub fn build<'a>(&self, b: &'a DocBuilder<'a>, cm: &CommentMap, st: &mut BuildState) -> (r: DocRef<'a>)
        ensures
            final(st).printed@.len() == old(st).printed@.len(),
            *r is Concat,
            bucket_of(cm, self.node_context.id).dangling_comments@.len() == 0 ==> exists|k: int|
                #[trigger] constructor_body_at(concat_parts(*r), k, *self, b.config.indent_size),
        decreases self, 1int,
    {
        let bucket = cm.bucket(self.node_context.id);
        let mut result: Vec<DocRef<'a>> = Vec::new();
        handle_pre_comments(b, bucket, &mut result, st);
        if bucket.dangling_comments.len() == 0 {
            let k = result.len();
            self.push_body(b, cm, st, &mut result);
            let ghost mid = result@;
            handle_post_comments(b, bucket, &mut result, st);
            proof {
                lemma_constructor_body_prefix(mid, result@, k as int, *self, b.config.indent_size);
            }
        } else {
            handle_dangling_comments_in_bracket_surround(b, bucket, &mut result, st);
        }
        b.concat(result)
    }

}

proof fn lemma_constructor_body_prefix<'a>(p: Seq<DocRef<'a>>, q: Seq<DocRef<'a>>, k: int, c: ConstructorBody, indent: u32)
    requires
        p.is_prefix_of(q),
        constructor_body_at(p, k, c, indent),
    ensures
        constructor_body_at(q, k, c, indent),
{
    if !(c.constructor_invocation is None && c.statements@.len() == 0) {
        let m: int = if c.constructor_invocation is Some && c.statements@.len() > 0 {
            3
        } else {
            2
        };
        assert(q[k] == p[k] && q[k + 1] == p[k + 1] && q[k + m] == p[k + m]);
        assert(q[k + m + 1] == p[k + m + 1] && q[k + m + 2] == p[k + m + 2]);

    } else {
        assert(q[k] == p[k]);
    }
}

/// A constructor: its modifiers, type parameters, name and parameters, then
/// the brace separator and the body.
pub open spec fn constructor_layout<'a>(body: Seq<DocRef<'a>>, cfg: PrettyConfig) -> bool {
    body.len() >= 4 && is_brace_sep(*body[body.len() - 2], cfg.brace_style)
}

/// The name of a constructor after its modifiers and type parameters.
pub open spec fn constructor_name_at<'a>(body: Seq<DocRef<'a>>, s: ConstructorDeclaration) -> bool {
    let k = modifier_count(s.modifiers) + if s.type_parameters is Some { 1int } else { 0int };
    k < body.len() && wraps_text(*body[k], s.name.value@)
}

/// A constructor with an empty body that can be read: its modifiers, type
/// parameters, name and parameters.
pub open spec fn empty_constructor_ok(t: &SyntaxTree, n: int) -> bool {
    let tp = crate::accessor::kind_children(t, n, "type_parameters"@);
    &&& optional_modifiers_ok(t, n)
    &&& tp.len() > 0 ==> type_parameters_ok(t, tp[0] as int)
    &&& readable_first(t, crate::accessor::field_children(t, n, "name"@))
    &&& first_field_is(t, n, "parameters"@, |c: int| formal_parameters_ok(t, c))
    &&& crate::accessor::field_children(t, n, "body"@).len() > 0
}

/// A constructor: modifiers, type parameters, name, parameters, body.
pub struct ConstructorDeclaration {
    pub modifiers: Option<Modifiers>,
    pub type_parameters: Option<TypeParameters>,
    pub name: ValueNode,
    pub parameters: FormalParameters,
    pub body: ConstructorBody,
    pub node_context: NodeContext,
}

impl ConstructorDeclaration {
    pub fn new(t: &SyntaxTree, n: usize) -> (r: Result<Self, String>)
        requires
            t.wf(),
            t.valid(n as int),
        ensures
            r matches Ok(v) ==> crate::enum_def::optional_modifiers_tied(t, n as int, v.modifiers),
            r matches Ok(v) ==> crate::data_model::read_from(t, crate::enum_def::field_child(t, n as int, "name"@), v.name.node_context.id, v.name.value) && crate::enum_def::params_tied(t, crate::enum_def::field_child(t, n as int, "parameters"@), v.parameters),
            r matches Ok(v) ==> v.node_context.id == n && crate::enum_def::ctor_body_tied(t, crate::enum_def::field_child(t, n as int, "body"@), v.body),
            r matches Ok(v) ==> v.node_context.id == n,
            has_empty_body(t, n as int) ==> (r is Ok <==> empty_constructor_ok(t, n as int)),
            constructor_reads(t, n as int) ==> r is Ok,
        decreases t.nodes@.len() - n, 1int,
    {
        let modifiers = modifiers_of(t, n)?;
        let type_parameters = match try_c_by_k(t, n, "type_parameters") {
            Some(c) => Some(TypeParameters::new(t, c)?),
            None => None,
        };
        let nm = c_by_n(t, n, "name")?;
        let name = ValueNode::new(t, nm)?;
        let p = c_by_n(t, n, "parameters")?;
        let parameters = FormalParameters::new(t, p)?;
        let bd = c_by_n(t, n, "body")?;
        let body = ConstructorBody::new(t, bd)?;
        Ok(ConstructorDeclaration { modifiers, type_parameters, name, parameters, body, node_context: NodeContext::with_punctuation(t, n) })
    }

    pub fn build<'a>(&self, b: &'a DocBuilder<'a>, cm: &CommentMap, st: &mut BuildState) -> (r: DocRef<'a>)
        ensures
            final(st).printed@.len() == old(st).printed@.len(),
            exists|body: Seq<DocRef<'a>>| #[trigger] wraps(*r, body) && constructor_layout(body, b.config),
            exists|body: Seq<DocRef<'a>>| #[trigger] wraps(*r, body) && constructor_layout(body, b.config) && constructor_name_at(body, *self),
        decreases self,
    {
        let mut body: Vec<DocRef<'a>> = Vec::new();
        build_modifiers(&self.modifiers, b, cm, st, &mut body);
        match &self.type_parameters {
            Some(tp) => {
                let d = tp.build(b, cm, st);
                body.push(d);
            },
            None => {},
        }
        let nm = self.name.build(b, cm, st);
        body.push(nm);
        let p = self.parameters.build(b, cm, st);
        body.push(p);
        let s = before_brace(b);
        body.push(s);
        let d = self.body.build(b, cm, st);
        body.push(d);
        let ghost body_v = body@;
        assert(constructor_layout(body_v, b.config));
        let r = with_comments_and_punc(b, cm, st, &self.node_context, body);
        assert(wraps(*r, body_v));
        r
    }
}

/// `static`, the brace separator, the block.
pub open spec fn static_initializer_layout<'a>(body: Seq<DocRef<'a>>, s: StaticInitializer, cm: &CommentMap, cfg: PrettyConfig) -> bool {
    body.len() == 3 && is_text(*body[0], "static"@) && is_brace_sep(*body[1], cfg.brace_style)
        && crate::enum_def::block_doc(*body[2], s.block, cm, cfg)
}

/// `static { ... }`
pub struct StaticInitializer {
    pub block: Block,
    pub node_context: NodeContext,
}

impl StaticInitializer {
    pub fn new(t: &SyntaxTree, n: usize) -> (r: Result<Self, String>)
        requires
            t.wf(),
            t.valid(n as int),
        ensures
            r matches Ok(v) ==> crate::enum_def::block_tied(t, crate::accessor::kind_children(t, n as int, "block"@)[0] as int, v.block),
            r matches Ok(v) ==> v.node_context.id == n,
        decreases t.nodes@.len() - n, 1int,
    {
        let c = c_by_k(t, n, "block")?;
        let block = Block::new(t, c)?;
        Ok(StaticInitializer { block, node_context: NodeContext::with_punctuation(t, n) })
    }

    pub fn build<'a>(&self, b: &'a DocBuilder<'a>, cm: &CommentMap, st: &mut BuildState) -> (r: DocRef<'a>)
        ensures
            final(st).printed@.len() == old(st).printed@.len(),
            exists|body: Seq<DocRef<'a>>| #[trigger] wraps(*r, body) && static_initializer_layout(body, *self, cm, b.config),
        decreases self,
    {
        let w = b.txt("static");
        let s = before_brace(b);
        let d = self.block.build(b, cm, st);
        let mut body: Vec<DocRef<'a>> = Vec::new();
        body.push(w);
        body.push(s);
        body.push(d);
        let ghost body_v = body@;
        assert(static_initializer_layout(body_v, *self, cm, b.config));
        let r = with_comments_and_punc(b, cm, st, &self.node_context, body);
        assert(wraps(*r, body_v));
        r
    }
}

/// The members of a class in braces.
pub struct ClassBody {
    pub class_members: Vec<BodyMember<ClassMember>>,
    pub node_context: NodeContext,
}

impl ClassBody {
    pub fn new(t: &SyntaxTree, n: usize) -> (r: Result<Self, String>)
        requires
            t.wf(),
            t.valid(n as int),
        ensures
            r matches Ok(v) ==> crate::enum_def::class_body_tied(t, n as int, v),
            r matches Ok(v) ==> v.node_context.id == n && t.nodes@[n as int].kind@ == "class_body"@
                && v.class_members@.len() == crate::accessor::code_children(t, n as int).len(),
            crate::accessor::code_children(t, n as int).len() == 0 ==> (r is Ok <==> t.nodes@[n as int].kind@ == "class_body"@),
            t.nodes@[n as int].kind@ == "class_body"@ && (forall|j: int| 0 <= j < crate::accessor::code_children(t, n as int).len()
                ==> member_below(t, n as int, #[trigger] crate::accessor::code_children(t, n as int)[j] as int)) ==> r is Ok,
        decreases t.nodes@.len() - n, 1int,
    {
        assert_check(t, n, "class_body")?;
        let cs = children_vec(t, n);
        let mut class_members: Vec<BodyMember<ClassMember>> = Vec::new();
        let mut i: usize = 0;
        while i < cs.len()
            invariant
                t.wf(),
                t.valid(n as int),
                cs@ == crate::accessor::code_children(t, n as int),
                i <= cs@.len(),
                class_members@.len() == i,
                forall|j: int| 0 <= j < cs@.len() ==> n < #[trigger] cs@[j] < t.nodes@.len(),
                forall|j: int| 0 <= j < i ==> crate::enum_def::member_tied(t, cs@[j] as int, #[trigger] class_members@[j].member),
            decreases cs@.len() - i,
        {
            let c = cs[i];
            let m = match ClassMember::new(t, c) {
                Ok(m) => m,
                Err(e) => {
                    assert(!member_below(t, n as int, cs@[i as int] as int));
                    return Err(e);
                },
            };
            class_members.push(BodyMember::new(t, c, m));
            i = i + 1;
        }
        Ok(ClassBody { class_members, node_context: NodeContext::with_punctuation(t, n) })
    }

    pub fn build<'a>(&self, b: &'a DocBuilder<'a>, cm: &CommentMap, st: &mut BuildState) -> (r: DocRef<'a>)
        ensures
            final(st).printed@.len() == old(st).printed@.len(),
            class_body_doc(*r, *self, cm, b.config),
        decreases self,
    {
        let ghost len0 = st.printed@.len();
        let mut docs: Vec<DocRef<'a>> = Vec::new();
        let mut trailing: Vec<bool> = Vec::new();
        let mut i: usize = 0;
        while i < self.class_members.len()
            invariant
                st.printed@.len() == len0,
                i <= self.class_members@.len(),
                docs@.len() == i,
                trailing@.len() == i,
                forall|m: int| 0 <= m < i ==> trailing@[m] == #[trigger] self.class_members@[m].has_trailing_newline,
                forall|m: int|
                    0 <= m < i ==> crate::enum_def::class_member_doc(*#[trigger] docs@[m], self.class_members@[m].member, cm, b.config),
            decreases self.class_members@.len() - i,
        {
            let d = self.class_members[i].member.build(b, cm, st);
            docs.push(d);
            trailing.push(self.class_members[i].has_trailing_newline);
            i = i + 1;
        }
        assert(trailing@ =~= trailing_flags(self.class_members@));
        let r = build_braced_members(b, cm, st, self.node_context.id, docs.as_slice(), trailing.as_slice());
        proof {
            if bucket_of(cm, self.node_context.id).dangling_comments@.len() == 0 && self.class_members@.len() > 0 {
                assert(has_members_body(*r, docs@, trailing_flags(self.class_members@), b.config.indent_size));
            }
        }
        r
    }
}

/// The header of a class: its parts after `class `, grouped and indented,
/// with a trailing space when the brace follows on the same line.
pub open spec fn is_class_header<'a>(g: Doc<'a>, trailing_space: bool) -> bool {
    &&& g is Choice
    &&& *g->Choice_1 is Indent
    &&& inner(*g->Choice_1) is Some
    &&& *inner(*g->Choice_1).unwrap() is Concat
    &&& ({
        let h = concat_parts(*inner(*g->Choice_1).unwrap());
        &&& h.len() >= 2
        &&& is_text(*h[0], "class"@ + seq![' '])
        &&& trailing_space ==> is_text(*h.last(), seq![' '])
    })
}

/// A class: its modifiers, its header, then the body after a space, or on
/// the next line with Allman braces.
/// A class: its header laid out as `class_layout` says, then its body.
pub open spec fn class_doc<'a>(body: Seq<DocRef<'a>>, s: ClassDeclaration, cm: &CommentMap, cfg: PrettyConfig) -> bool
    decreases s,
{
    &&& class_layout(body, cfg)
    &&& wraps_text(*concat_parts(*inner(*class_header_of(body, cfg)->Choice_1).unwrap())[1], s.name.value@)
    &&& class_body_doc(*body[body.len() - 1], s.body, cm, cfg)
}

/// The parts of a class model are those of its node: the name is the text of
/// its `name` child; the type parameters, superclass and interfaces are
/// there exactly when the node has such a child, and are read from it; the
/// body is read from its `body` child.
pub open spec fn class_fields_tied(t: &SyntaxTree, n: int, v: ClassDeclaration) -> bool {
    let tp = crate::accessor::kind_children(t, n, "type_parameters"@);
    let sc = crate::accessor::kind_children(t, n, "superclass"@);
    let it = crate::accessor::kind_children(t, n, "interfaces"@);
    let nm = crate::accessor::field_children(t, n, "name"@);
    let bd = crate::accessor::field_children(t, n, "body"@);
    &&& nm.len() > 0 && v.name.node_context.id == nm[0] && crate::strs::bytes_of(v.name.value@)
        == crate::accessor::node_bytes(t, nm[0] as int)
    &&& (v.type_parameters is Some <==> tp.len() > 0)
    &&& (v.type_parameters matches Some(x) ==> x.node_context.id == tp[0])
    &&& (v.superclass is Some <==> sc.len() > 0)
    &&& (v.superclass matches Some(x) ==> x.node_context.id == sc[0])
    &&& (v.interface is Some <==> it.len() > 0)
    &&& (v.interface matches Some(x) ==> x.node_context.id == it[0])
    &&& bd.len() > 0 && v.body.node_context.id == bd[0]
}

/// The header group of a class laid out as `class_layout` says.
pub open spec fn class_header_of<'a>(body: Seq<DocRef<'a>>, cfg: PrettyConfig) -> Doc<'a> {
    match cfg.brace_style {
        BraceStyle::KAndR => *body[body.len() - 2],
        BraceStyle::Allman => *body[body.len() - 3],
    }
}

/// A class body whose braces hold no comment of their own and that has
/// members is its members' documents between braces, one per member and in
/// their order, each laid out as its own kind lays it out.
pub open spec fn class_body_doc<'a>(d: Doc<'a>, cb: ClassBody, cm: &CommentMap, cfg: PrettyConfig) -> bool
    decreases cb,
{
    (bucket_of(cm, cb.node_context.id).dangling_comments@.len() == 0 && cb.class_members@.len() > 0) ==> exists|
        docs: Seq<DocRef<'a>>,
    |
        #[trigger] has_members_body(d, docs, trailing_flags(cb.class_members@), cfg.indent_size) && docs.len()
            == cb.class_members@.len() && (forall|m: int|
            0 <= m < docs.len() ==> crate::enum_def::class_member_doc(*docs[m], cb.class_members@[m].member, cm, cfg))
}

pub open spec fn class_layout<'a>(body: Seq<DocRef<'a>>, cfg: PrettyConfig) -> bool {
    let n = body.len();
    match cfg.brace_style {
        BraceStyle::KAndR => n >= 2 && is_class_header(*body[n - 2], true),
        BraceStyle::Allman => n >= 3 && *body[n - 2] == Doc::Newline && is_class_header(*body[n - 3], false),
    }
}

/// What precedes a class's body can be read: its modifiers, name, type
/// parameters, super class and interfaces, where it has them.
pub open spec fn class_heading_ok(t: &SyntaxTree, n: int) -> bool {
    let tp = crate::accessor::kind_children(t, n, "type_parameters"@);
    let sc = crate::accessor::kind_children(t, n, "superclass"@);
    let it = crate::accessor::kind_children(t, n, "interfaces"@);
    &&& t.nodes@[n].kind@ == "class_declaration"@
    &&& optional_modifiers_ok(t, n)
    &&& readable_first(t, crate::accessor::field_children(t, n, "name"@))
    &&& tp.len() > 0 ==> type_parameters_ok(t, tp[0] as int)
    &&& sc.len() > 0 ==> superclass_ok(t, sc[0] as int)
    &&& it.len() > 0 ==> interfaces_ok(t, it[0] as int)
}

/// A declaration whose body, where it has one, has no members.
pub open spec fn has_empty_body(t: &SyntaxTree, n: int) -> bool {
    first_field_if(t, n, "body"@, |c: int| crate::accessor::code_children(t, c).len() == 0)
}

/// A class with an empty body that can be read.
/// A method that the model reads in full: modifiers, type, name and
/// parameters that can be read, and a body, where it has one, that is a block
/// the model reads in full.
pub open spec fn method_reads(t: &SyntaxTree, n: int) -> bool {
    let b = crate::accessor::field_children(t, n, "body"@);
    &&& t.nodes@[n].kind@ == "method_declaration"@
    &&& optional_modifiers_ok(t, n)
    &&& declared_type_ok(t, n)
    &&& readable_first(t, crate::accessor::field_children(t, n, "name"@))
    &&& first_field_is(t, n, "parameters"@, |c: int| formal_parameters_ok(t, c))
    &&& b.len() > 0 ==> first_below(t, n, b) && t.nodes@[b[0] as int].kind@ == "block"@ && crate::enum_def::stmt_reads(
        t,
        b[0] as int,
    )
}

/// A field that the model reads in full: modifiers, type and declarators
/// that `declarator_reads`, and no accessors.
pub open spec fn field_reads(t: &SyntaxTree, n: int) -> bool {
    let ds = crate::accessor::field_children(t, n, "declarator"@);
    &&& t.nodes@[n].kind@ == "field_declaration"@
    &&& optional_modifiers_ok(t, n)
    &&& declared_type_ok(t, n)
    &&& ds.len() > 0
    &&& forall|j: int| 0 <= j < ds.len() ==> declarator_reads(t, #[trigger] ds[j] as int)
    &&& crate::accessor::kind_children(t, n, "accessor_list"@).len() == 0
}

/// `c` is a node below `n`, a class member that the model reads in full.
pub open spec fn member_below(t: &SyntaxTree, n: int, c: int) -> bool
    decreases t.nodes@.len() - n, 1int,
{
    n < c < t.nodes@.len() && member_reads(t, c)
}

/// A class member that the model reads in full, at any depth: a method,
/// field or constructor that `method_reads`, `field_reads` or
/// `constructor_reads`, or a nested class that `class_reads`.
pub open spec fn member_reads(t: &SyntaxTree, n: int) -> bool
    decreases t.nodes@.len() - n, 3int,
{
    let k = t.nodes@[n].kind@;
    if k == "method_declaration"@ {
        method_reads(t, n)
    } else if k == "field_declaration"@ {
        field_reads(t, n)
    } else if k == "class_declaration"@ {
        class_reads(t, n)
    } else if k == "constructor_declaration"@ {
        constructor_reads(t, n)
    } else {
        false
    }
}

/// A constructor that the model reads in full: modifiers, type parameters,
/// name and parameters that can be read, and a body of statements that
/// `stmt_reads`, without a call of another constructor.
pub open spec fn constructor_reads(t: &SyntaxTree, n: int) -> bool {
    let tp = crate::accessor::kind_children(t, n, "type_parameters"@);
    let b = crate::accessor::field_children(t, n, "body"@);
    &&& optional_modifiers_ok(t, n)
    &&& tp.len() > 0 ==> type_parameters_ok(t, tp[0] as int)
    &&& readable_first(t, crate::accessor::field_children(t, n, "name"@))
    &&& first_field_is(t, n, "parameters"@, |c: int| formal_parameters_ok(t, c))
    &&& first_below(t, n, b)
    &&& constructor_body_reads(t, b[0] as int)
}

/// A constructor body of statements that `stmt_reads`, without a call of
/// another constructor.
pub open spec fn constructor_body_reads(t: &SyntaxTree, n: int) -> bool {
    let cs = crate::accessor::code_children(t, n);
    forall|j: int|
        0 <= j < cs.len() ==> t.nodes@[#[trigger] cs[j] as int].kind@ != "explicit_constructor_invocation"@
            && crate::enum_def::stmt_below(t, n, cs[j] as int)
}

/// A class that the model reads in full: its heading can be read, and its
/// body holds members that `member_reads`.
pub open spec fn class_reads(t: &SyntaxTree, n: int) -> bool
    decreases t.nodes@.len() - n, 2int,
{
    let b = crate::accessor::field_children(t, n, "body"@);
    &&& class_heading_ok(t, n)
    &&& first_below(t, n, b)
    &&& t.nodes@[b[0] as int].kind@ == "class_body"@
    &&& forall|j: int|
        0 <= j < crate::accessor::code_children(t, b[0] as int).len() ==> member_below(
            t,
            b[0] as int,
            #[trigger] crate::accessor::code_children(t, b[0] as int)[j] as int,
        )
}

/// The whole source as the model reads it in full: each top-level
/// declaration is an enum or empty class that can be read, or a class that
/// `class_reads`.
pub open spec fn root_reads(t: &SyntaxTree) -> bool {
    let cs = crate::accessor::code_children(t, 0);
    &&& t.nodes@[0].kind@ == "parser_output"@
    &&& forall|j: int|
        0 <= j < cs.len() ==> (is_flat_root_member(t, #[trigger] cs[j] as int) && flat_root_member_ok(t, cs[j] as int))
            || (t.nodes@[cs[j] as int].kind@ == "class_declaration"@ && class_reads(t, cs[j] as int))
}

/// Kinds of class member that differ.
pub proof fn lemma_member_kinds(k: Seq<char>)
    ensures
        k == "method_declaration"@ ==> k != "field_declaration"@ && k != "class_declaration"@,
        k == "class_declaration"@ ==> k != "field_declaration"@ && k != "enum_declaration"@,
        k == "constructor_declaration"@ ==> k != "field_declaration"@ && k != "class_declaration"@ && k
            != "method_declaration"@ && k != "interface_declaration"@ && k != "block"@,
{
    reveal_strlit("constructor_declaration");
    reveal_strlit("interface_declaration");
    reveal_strlit("block");
    if k == "constructor_declaration"@ {
        assert(k.len() == 23 && k[0] == 'c' && k[1] == 'o');
    }
    reveal_strlit("method_declaration");
    reveal_strlit("field_declaration");
    reveal_strlit("class_declaration");
    reveal_strlit("enum_declaration");
    if k == "method_declaration"@ {
        assert(k.len() == 18 && k[0] == 'm');
    }
    if k == "class_declaration"@ {
        assert(k.len() == 17 && k[0] == 'c');
    }
}

pub open spec fn empty_class_ok(t: &SyntaxTree, n: int) -> bool {
    class_heading_ok(t, n) && first_field_is(t, n, "body"@, |c: int| t.nodes@[c].kind@ == "class_body"@)
}

/// A class: modifiers, `class` and name, type parameters, super class and
/// interfaces (grouped, broken and indented when too long), then the body.
pub struct ClassDeclaration {
    pub modifiers: Option<Modifiers>,
    pub name: ValueNode,
    pub type_parameters: Option<TypeParameters>,
    pub superclass: Option<SuperClass>,
    pub interface: Option<Interface>,
    pub body: ClassBody,
    pub node_context: NodeContext,
}

impl ClassDeclaration {
    pub fn new(t: &SyntaxTree, n: usize) -> (r: Result<Self, String>)
        requires
            t.wf(),
            t.valid(n as int),
        ensures
            r matches Ok(v) ==> crate::enum_def::class_tied(t, n as int, v),
            r matches Ok(v) ==> v.node_context.id == n && t.nodes@[n as int].kind@ == "class_declaration"@,
            has_empty_body(t, n as int) ==> (r is Ok <==> empty_class_ok(t, n as int)),
            class_reads(t, n as int) ==> r is Ok,
        decreases t.nodes@.len() - n, 1int,
    {
        assert_check(t, n, "class_declaration")?;
        let modifiers = modifiers_of(t, n)?;
        let nm = c_by_n(t, n, "name")?;
        let name = ValueNode::new(t, nm)?;
        let type_parameters = match try_c_by_k(t, n, "type_parameters") {
            Some(c) => Some(TypeParameters::new(t, c)?),
            None => None,
        };
        let superclass = match try_c_by_k(t, n, "superclass") {
            Some(c) => Some(SuperClass::new(t, c)?),
            None => None,
        };
        let interface = match try_c_by_k(t, n, "interfaces") {
            Some(c) => Some(Interface::new(t, c)?),
            None => None,
        };
        let bd = c_by_n(t, n, "body")?;
        let body = ClassBody::new(t, bd)?;
        Ok(ClassDeclaration {
            modifiers,
            name,
            type_parameters,
            superclass,
            interface,
            body,
            node_context: NodeContext::with_punctuation(t, n),
        })
    }

    pub fn build<'a>(&self, b: &'a DocBuilder<'a>, cm: &CommentMap, st: &mut BuildState) -> (r: DocRef<'a>)
        ensures
            final(st).printed@.len() == old(st).printed@.len(),
            exists|body: Seq<DocRef<'a>>| #[trigger] wraps(*r, body) && class_doc(body, *self, cm, b.config),
        decreases self,
    {
        proof {
            reveal_strlit(" ");
            assert(" "@ =~= seq![' ']);
        }
        let mut body: Vec<DocRef<'a>> = Vec::new();
        build_modifiers(&self.modifiers, b, cm, st, &mut body);
        let mut docs: Vec<DocRef<'a>> = Vec::new();
        let w = b.txt_("class");
        docs.push(w);
        let nm = self.name.build(b, cm, st);
        docs.push(nm);
        match &self.type_parameters {
            Some(tp) => {
                let d = tp.build(b, cm, st);
                docs.push(d);
            },
            None => {},
        }
        if self.superclass.is_some() || self.interface.is_some() {
            let sl = b.softline();
            docs.push(sl);
        }
        match &self.superclass {
            Some(s) => {
                let d = s.build(b, cm, st);
                docs.push(d);
                if self.interface.is_some() {
                    let sp = b.txt(" ");
                    docs.push(sp);
                }
            },
            None => {},
        }
        match &self.interface {
            Some(i) => {
                let d = i.build(b, cm, st);
                docs.push(d);
            },
            None => {},
        }
        match b.config.brace_style {
            BraceStyle::KAndR => {
                let sp = b.txt(" ");
                docs.push(sp);
                let g = b.group_indent_concat(docs);
                body.push(g);
            },
            BraceStyle::Allman => {
                let g = b.group_indent_concat(docs);
                body.push(g);
                let n = b.nl();
                body.push(n);
            },
        }
        let d = self.body.build(b, cm, st);
        body.push(d);
        let ghost body_v = body@;
        assert(class_doc(body_v, *self, cm, b.config));
        let r = with_comments_and_punc(b, cm, st, &self.node_context, body);
        assert(wraps(*r, body_v));
        r
    }
}

/// The modifiers, then the name as written.
pub open spec fn enum_constant_layout<'a>(body: Seq<DocRef<'a>>, s: EnumConstant) -> bool {
    let k = modifier_count(s.modifiers);
    body.len() == k + 1 && wraps_text(*body[k], s.name.value@)
}

/// An `enum_body` node whose values can each be read.
pub open spec fn enum_body_ok(t: &SyntaxTree, n: int) -> bool {
    let cs = crate::accessor::kind_children(t, n, "enum_constant"@);
    &&& t.nodes@[n].kind@ == "enum_body"@
    &&& forall|j: int| 0 <= j < cs.len() ==> enum_constant_ok(t, #[trigger] cs[j] as int)
}

/// An enum declaration whose modifiers, interfaces, name and body can be
/// read.
pub open spec fn enum_declaration_ok(t: &SyntaxTree, n: int) -> bool {
    let i = crate::accessor::kind_children(t, n, "interfaces"@);
    let b = crate::accessor::field_children(t, n, "body"@);
    &&& optional_modifiers_ok(t, n)
    &&& i.len() > 0 ==> interfaces_ok(t, i[0] as int)
    &&& readable_first(t, crate::accessor::field_children(t, n, "name"@))
    &&& b.len() > 0
    &&& enum_body_ok(t, b[0] as int)
}

/// An enum value whose modifiers and name can be read.
pub open spec fn enum_constant_ok(t: &SyntaxTree, n: int) -> bool {
    optional_modifiers_ok(t, n) && readable_first(t, crate::accessor::field_children(t, n, "name"@))
}

/// A value of an enum.
pub struct EnumConstant {
    pub modifiers: Option<Modifiers>,
    pub name: ValueNode,
    pub node_context: NodeContext,
}

impl EnumConstant {
    pub fn new(t: &SyntaxTree, n: usize) -> (r: Result<Self, String>)
        requires
            t.wf(),
            t.valid(n as int),
        ensures
            r is Ok <==> enum_constant_ok(t, n as int),
            r matches Ok(v) ==> v.node_context.id == n,
            r matches Ok(v) ==> crate::strs::bytes_of(v.name.value@) == crate::accessor::node_bytes(
                t,
                crate::accessor::field_children(t, n as int, "name"@)[0] as int,
            ),
    {
        let modifiers = modifiers_of(t, n)?;
        let nm = c_by_n(t, n, "name")?;
        let name = ValueNode::new(t, nm)?;
        Ok(EnumConstant { modifiers, name, node_context: NodeContext::with_punctuation(t, n) })
    }

    pub fn build<'a>(&self, b: &'a DocBuilder<'a>, cm: &CommentMap, st: &mut BuildState) -> (r: DocRef<'a>)
        ensures
            final(st).printed@.len() == old(st).printed@.len(),
            exists|body: Seq<DocRef<'a>>| #[trigger] wraps(*r, body) && enum_constant_layout(body, *self),
    {
        let mut body: Vec<DocRef<'a>> = Vec::new();
        build_modifiers(&self.modifiers, b, cm, st, &mut body);
        let nm = self.name.build(b, cm, st);
        body.push(nm);
        let ghost body_v = body@;
        assert(enum_constant_layout(body_v, *self));
        let r = with_comments_and_punc(b, cm, st, &self.node_context, body);
        assert(wraps(*r, body_v));
        r
    }
}

/// `{`, then, indented, a line break and `n` values each on a line of its
/// own, then a line break and `}`, offered as one group.
pub open spec fn is_enum_block<'a>(d: Doc<'a>, n: nat, indent: u32) -> bool {
    &&& d is Choice
    &&& *d->Choice_0 == Doc::Flat(d->Choice_1)
    &&& *d->Choice_1 is Concat
    &&& ({
        let p = concat_parts(*d->Choice_1);
        &&& p.len() == 4
        &&& is_text(*p[0], "{"@)
        &&& *p[2] == Doc::Newline
        &&& is_text(*p[3], "}"@)
        &&& *p[1] is Indent
        &&& p[1]->Indent_0 == indent
        &&& lines_after_break(*p[1]->Indent_1, n)
    })
}

/// A line break, then `n` elements each two apart by a line break.
pub open spec fn lines_after_break<'a>(d: Doc<'a>, n: nat) -> bool {
    &&& d is Concat
    &&& concat_parts(d).len() == 2
    &&& *concat_parts(d)[0] == Doc::Newline
    &&& *concat_parts(d)[1] is Concat
    &&& exists|elems: Seq<DocRef<'a>>, sep: Seq<DocRef<'a>>|
        #![trigger interspersed(elems, sep)]
        elems.len() == n && sep.len() == 1 && *sep[0] == Doc::Newline && concat_parts(*concat_parts(d)[1])
            == interspersed(elems, sep)
}

/// At position `k` of the parts `p`: empty braces for an enum without
/// values, else the values in braces, each on a line of its own.
pub open spec fn enum_body_at<'a>(p: Seq<DocRef<'a>>, k: int, e: EnumBody, indent: u32) -> bool {
    &&& 0 <= k < p.len()
    &&& e.enum_constants@.len() == 0 ==> is_empty_braces(*p[k])
    &&& e.enum_constants@.len() > 0 ==> is_enum_block(*p[k], e.enum_constants@.len(), indent)
}

/// The values of an enum in braces, each on its own line.
pub struct EnumBody {
    pub enum_constants: Vec<EnumConstant>,
    pub node_context: NodeContext,
}

impl EnumBody {
    pub fn new(t: &SyntaxTree, n: usize) -> (r: Result<Self, String>)
        requires
            t.wf(),
            t.valid(n as int),
        ensures
            r matches Ok(v) ==> v.node_context.id == n && t.nodes@[n as int].kind@ == "enum_body"@,
            r is Ok <==> enum_body_ok(t, n as int),
            r matches Ok(v) ==> v.enum_constants@.len() == crate::accessor::kind_children(t, n as int, "enum_constant"@).len(),
    {
        assert_check(t, n, "enum_body")?;
        let cs = try_cs_by_k(t, n, "enum_constant");
        let mut enum_constants: Vec<EnumConstant> = Vec::new();
        let mut i: usize = 0;
        while i < cs.len()
            invariant
                t.wf(),
                t.valid(n as int),
                i <= cs@.len(),
                enum_constants@.len() == i,
                t.nodes@[n as int].kind@ == "enum_body"@,
                cs@ == crate::accessor::kind_children(t, n as int, "enum_constant"@),
                forall|j: int| 0 <= j < cs@.len() ==> n < #[trigger] cs@[j] < t.nodes@.len(),
                forall|j: int| 0 <= j < i ==> enum_constant_ok(t, #[trigger] cs@[j] as int),
            decreases cs@.len() - i,
        {
            let c = match EnumConstant::new(t, cs[i]) {
                Ok(c) => c,
                Err(e) => {
                    assert(!enum_constant_ok(t, cs@[i as int] as int));
                    return Err(e);
                },
            };
            enum_constants.push(c);
            i = i + 1;
        }
        Ok(EnumBody { enum_constants, node_context: NodeContext::with_punctuation(t, n) })
    }

    /// Appends the body without its comments.
    fn push_body<'a>(&self, b: &'a DocBuilder<'a>, cm: &CommentMap, st: &mut BuildState, result: &mut Vec<DocRef<'a>>)
        ensures
            final(st).printed@.len() == old(st).printed@.len(),
            old(result)@.is_prefix_of(final(result)@),
            enum_body_at(final(result)@, old(result)@.len() as int, *self, b.config.indent_size),
    {
        let ghost len0 = st.printed@.len();
        let mut docs: Vec<DocRef<'a>> = Vec::new();
        let mut i: usize = 0;
        while i < self.enum_constants.len()
            invariant
                st.printed@.len() == len0,
                i <= self.enum_constants@.len(),
                docs@.len() == i,
            decreases self.enum_constants@.len() - i,
        {
            let d = self.enum_constants[i].build(b, cm, st);
            docs.push(d);
            i = i + 1;
        }
        if docs.len() == 0 {
            let e = empty_braces(b);
            result.push(e);
        } else {
            let n0 = b.nl();
            let sep = b.insertable(None, None, Some(n0));
            let n1 = b.nl();
            let open = b.insertable(None, Some("{"), Some(n1));
            let n2 = b.nl();
            let close = b.insertable(Some(n2), Some("}"), None);
            let g = b.group_surround(docs.as_slice(), &sep, &open, &close);
            proof {
                let p = concat_parts(*g->Choice_1);
                assert(opt_seq(open.pre) + opt_seq(open.text) =~= seq![open.text->0]);
                assert(opt_seq(close.text) + opt_seq(close.suf) =~= seq![close.text->0]);
                assert(opt_seq(close.pre) =~= seq![n2]);
                assert(opt_seq(open.suf) =~= seq![n1]);
                assert(insertable_parts(sep) =~= seq![n0]);
                assert(p[0] == open.text->0 && p[2] == n2 && p[3] == close.text->0);
                let x = p[1]->Indent_1;
                assert(concat_parts(*x)[0] == concat_parts(*x).subrange(0, 1)[0]);
                assert(concat_parts(*x).last() == concat_parts(*x)[1]);
                assert(interspersed(docs@, insertable_parts(sep)) == concat_parts(*concat_parts(*x)[1]));
                assert(lines_after_break(*x, docs@.len()));
            }
            result.push(g);
        }
    }

    pub fn build<'a>(&self, b: &'a DocBuilder<'a>, cm: &CommentMap, st: &mut BuildState) -> (r: DocRef<'a>)
        ensures
            final(st).printed@.len() == old(st).printed@.len(),
            *r is Concat,
            bucket_of(cm, self.node_context.id).dangling_comments@.len() == 0 ==> exists|k: int|
                #[trigger] enum_body_at(concat_parts(*r), k, *self, b.config.indent_size),
    {
        let bucket = cm.bucket(self.node_context.id);
        let mut result: Vec<DocRef<'a>> = Vec::new();
        handle_pre_comments(b, bucket, &mut result, st);
        if bucket.dangling_comments.len() == 0 {
            let k = result.len();
            self.push_body(b, cm, st, &mut result);
            let ghost mid = result@;
            handle_post_comments(b, bucket, &mut result, st);
            assert(result@[k as int] == mid[k as int]);
            assert(enum_body_at(result@, k as int, *self, b.config.indent_size));
        } else {
            handle_dangling_comments_in_bracket_surround(b, bucket, &mut result, st);
        }
        b.concat(result)
    }

}

/// An enum: its modifiers, `enum `, its name, then the body after a space
/// (and the interfaces, when there are any), or with Allman braces on the
/// next line.
pub open spec fn enum_layout<'a>(body: Seq<DocRef<'a>>, s: EnumDeclaration, cfg: PrettyConfig) -> bool {
    let n = body.len();
    let k = modifier_count(s.modifiers);
    &&& n >= k + 4
    &&& is_text(*body[k], "enum"@ + seq![' '])
    &&& wraps_text(*body[k + 1], s.name.value@)
    &&& match cfg.brace_style {
        BraceStyle::KAndR => if s.interface is Some {
            is_text(*body[n - 3], seq![' '])
        } else {
            is_text(*body[n - 2], seq![' '])
        },
        BraceStyle::Allman => *body[n - 2] == Doc::Newline,
    }
}

/// `enum Name { A, B }`
pub struct EnumDeclaration {
    pub modifiers: Option<Modifiers>,
    pub name: ValueNode,
    pub interface: Option<Interface>,
    pub body: EnumBody,
    pub node_context: NodeContext,
}

impl EnumDeclaration {
    pub fn new(t: &SyntaxTree, n: usize) -> (r: Result<Self, String>)
        requires
            t.wf(),
            t.valid(n as int),
        ensures
            r matches Ok(v) ==> crate::enum_def::enum_tied(t, n as int, v),
            r matches Ok(v) ==> v.node_context.id == n,
            r is Ok <==> enum_declaration_ok(t, n as int),
            r matches Ok(v) ==> (v.interface is Some <==> crate::accessor::kind_children(t, n as int, "interfaces"@).len() > 0),
        decreases t.nodes@.len() - n, 1int,
    {
        let modifiers = modifiers_of(t, n)?;
        let interface = match try_c_by_k(t, n, "interfaces") {
            Some(c) => Some(Interface::new(t, c)?),
            None => None,
        };
        let nm = c_by_n(t, n, "name")?;
        let name = ValueNode::new(t, nm)?;
        let bd = c_by_n(t, n, "body")?;
        let body = EnumBody::new(t, bd)?;
        Ok(EnumDeclaration { modifiers, name, interface, body, node_context: NodeContext::with_punctuation(t, n) })
    }

    pub fn build<'a>(&self, b: &'a DocBuilder<'a>, cm: &CommentMap, st: &mut BuildState) -> (r: DocRef<'a>)
        ensures
            final(st).printed@.len() == old(st).printed@.len(),
            exists|body: Seq<DocRef<'a>>| #[trigger] wraps(*r, body) && enum_layout(body, *self, b.config),
    {
        proof {
            reveal_strlit(" ");
            assert(" "@ =~= seq![' ']);
        }
        let mut body: Vec<DocRef<'a>> = Vec::new();
        build_modifiers(&self.modifiers, b, cm, st, &mut body);
        let w = b.txt_("enum");
        body.push(w);
        let nm = self.name.build(b, cm, st);
        body.push(nm);
        match b.config.brace_style {
            BraceStyle::KAndR => {
                let s = b.txt(" ");
                body.push(s);
                match &self.interface {
                    Some(i) => {
                        let d = i.build(b, cm, st);
                        body.push(d);
                    },
                    None => {},
                }
            },
            BraceStyle::Allman => {
                match &self.interface {
                    Some(i) => {
                        let s = b.txt(" ");
                        body.push(s);
                        let d = i.build(b, cm, st);
                        body.push(d);
                    },
                    None => {},
                }
                let n = b.nl();
                body.push(n);
            },
        }
        let d = self.body.build(b, cm, st);
        body.push(d);
        let ghost body_v = body@;
        assert(enum_layout(body_v, *self, b.config));
        let r = with_comments_and_punc(b, cm, st, &self.node_context, body);
        assert(wraps(*r, body_v));
        r
    }
}

/// A member of an interface, laid out as a declaration of its kind.
pub open spec fn interface_member_doc<'a>(d: Doc<'a>, m: InterfaceMember, cm: &CommentMap, cfg: PrettyConfig) -> bool {
    match m {
        InterfaceMember::Constant(x) => exists|body: Seq<DocRef<'a>>| #[trigger] wraps(d, body) && constant_layout(body, x),
        InterfaceMember::EnumD(x) => exists|body: Seq<DocRef<'a>>| #[trigger] wraps(d, body) && enum_layout(body, x, cfg),
        InterfaceMember::Method(x) => exists|body: Seq<DocRef<'a>>| #[trigger] wraps(d, body) && method_layout(body, x, cm, cfg),
        InterfaceMember::Class(x) => exists|body: Seq<DocRef<'a>>| #[trigger] wraps(d, body) && class_doc(body, x, cm, cfg),
        InterfaceMember::Interface(x) => exists|body: Seq<DocRef<'a>>| #[trigger] wraps(d, body) && interface_layout(body, x, cfg),
    }
}

/// A member of an interface.
pub enum InterfaceMember {
    Constant(ConstantDeclaration),
    EnumD(EnumDeclaration),
    Method(MethodDeclaration),
    Class(ClassDeclaration),
    Interface(InterfaceDeclaration),
}

impl InterfaceMember {
    pub fn new(t: &SyntaxTree, n: usize) -> (r: Result<Self, String>)
        requires
            t.wf(),
            t.valid(n as int),
        ensures
            (t.nodes@[n as int].kind@ != "constant_declaration"@ && t.nodes@[n as int].kind@ != "enum_declaration"@ && t.nodes@[n as int].kind@ != "method_declaration"@ && t.nodes@[n as int].kind@ != "class_declaration"@ && t.nodes@[n as int].kind@ != "interface_declaration"@) ==> r is Err,
            r matches Ok(v) ==> (v is Constant ==> t.nodes@[n as int].kind@ == "constant_declaration"@),
            r matches Ok(v) ==> (v is EnumD ==> t.nodes@[n as int].kind@ == "enum_declaration"@),
            r matches Ok(v) ==> (v is Method ==> t.nodes@[n as int].kind@ == "method_declaration"@),
            r matches Ok(v) ==> (v is Class ==> t.nodes@[n as int].kind@ == "class_declaration"@),
            r matches Ok(v) ==> (v is Interface ==> t.nodes@[n as int].kind@ == "interface_declaration"@),
        decreases t.nodes@.len() - n, 3int,
    {
        if kind_is(t, n, "constant_declaration") {
            Ok(InterfaceMember::Constant(ConstantDeclaration::new(t, n)?))
        } else if kind_is(t, n, "enum_declaration") {
            Ok(InterfaceMember::EnumD(EnumDeclaration::new(t, n)?))
        } else if kind_is(t, n, "method_declaration") {
            Ok(InterfaceMember::Method(MethodDeclaration::new(t, n)?))
        } else if kind_is(t, n, "class_declaration") {
            Ok(InterfaceMember::Class(ClassDeclaration::new(t, n)?))
        } else if kind_is(t, n, "interface_declaration") {
            Ok(InterfaceMember::Interface(InterfaceDeclaration::new(t, n)?))
        } else {
            Err(panic_unknown_node(t, n, "InterfaceBody"))
        }
    }

    pub fn build<'a>(&self, b: &'a DocBuilder<'a>, cm: &CommentMap, st: &mut BuildState) -> (r: DocRef<'a>)
        ensures
            final(st).printed@.len() == old(st).printed@.len(),
            interface_member_doc(*r, *self, cm, b.config),
        decreases self,
    {
        match self {
            InterfaceMember::Constant(x) => x.build(b, cm, st),
            InterfaceMember::EnumD(x) => x.build(b, cm, st),
            InterfaceMember::Method(x) => x.build(b, cm, st),
            InterfaceMember::Class(x) => x.build(b, cm, st),
            InterfaceMember::Interface(x) => x.build(b, cm, st),
        }
    }
}

/// The members of an interface in braces.
pub struct InterfaceBody {
    pub members: Vec<BodyMember<InterfaceMember>>,
    pub node_context: NodeContext,
}

impl InterfaceBody {
    pub fn new(t: &SyntaxTree, n: usize) -> (r: Result<Self, String>)
        requires
            t.wf(),
            t.valid(n as int),
        ensures
            r matches Ok(v) ==> v.node_context.id == n && t.nodes@[n as int].kind@ == "interface_body"@,
            crate::accessor::code_children(t, n as int).len() == 0 ==> (r is Ok <==> t.nodes@[n as int].kind@ == "interface_body"@),
            r matches Ok(v) ==> v.members@.len() == crate::accessor::code_children(t, n as int).len(),
        decreases t.nodes@.len() - n, 1int,
    {
        assert_check(t, n, "interface_body")?;
        let cs = children_vec(t, n);
        let mut members: Vec<BodyMember<InterfaceMember>> = Vec::new();
        let mut i: usize = 0;
        while i < cs.len()
            invariant
                t.wf(),
                t.valid(n as int),
                cs@ == crate::accessor::code_children(t, n as int),
                members@.len() == i,
                i <= cs@.len(),
                forall|j: int| 0 <= j < cs@.len() ==> n < #[trigger] cs@[j] < t.nodes@.len(),
            decreases cs@.len() - i,
        {
            let c = cs[i];
            let m = InterfaceMember::new(t, c)?;
            members.push(BodyMember::new(t, c, m));
            i = i + 1;
        }
        Ok(InterfaceBody { members, node_context: NodeContext::with_punctuation(t, n) })
    }

    pub fn build<'a>(&self, b: &'a DocBuilder<'a>, cm: &CommentMap, st: &mut BuildState) -> (r: DocRef<'a>)
        ensures
            final(st).printed@.len() == old(st).printed@.len(),
        (bucket_of(cm, self.node_context.id).dangling_comments@.len() == 0 && self.members@.len() > 0) ==> exists|docs: Seq<DocRef<'a>>|
                #[trigger] has_members_body(*r, docs, trailing_flags(self.members@), b.config.indent_size) && (forall|m: int|
                    0 <= m < docs.len() ==> interface_member_doc(*#[trigger] docs[m], self.members@[m].member, cm, b.config)),
        decreases self,
    {
        let ghost len0 = st.printed@.len();
        let mut docs: Vec<DocRef<'a>> = Vec::new();
        let mut trailing: Vec<bool> = Vec::new();
        let mut i: usize = 0;
        while i < self.members.len()
            invariant
                st.printed@.len() == len0,
                i <= self.members@.len(),
                docs@.len() == i,
                trailing@.len() == i,
                forall|m: int| 0 <= m < i ==> trailing@[m] == #[trigger] self.members@[m].has_trailing_newline,
                forall|m: int| 0 <= m < i ==> interface_member_doc(*#[trigger] docs@[m], self.members@[m].member, cm, b.config),
            decreases self.members@.len() - i,
        {
            let d = self.members[i].member.build(b, cm, st);
            docs.push(d);
            trailing.push(self.members[i].has_trailing_newline);
            i = i + 1;
        }
        assert(trailing@ =~= trailing_flags(self.members@));
        let r = build_braced_members(b, cm, st, self.node_context.id, docs.as_slice(), trailing.as_slice());
        proof {
            if bucket_of(cm, self.node_context.id).dangling_comments@.len() == 0 && self.members@.len() > 0 {
                assert(has_members_body(*r, docs@, trailing_flags(self.members@), b.config.indent_size));
            }
        }
        r
    }
}

/// An interface: its modifiers, `interface `, its name and the rest of its
/// header, then the brace separator and the body.
pub open spec fn interface_layout<'a>(body: Seq<DocRef<'a>>, s: InterfaceDeclaration, cfg: PrettyConfig) -> bool {
    let n = body.len();
    let k = modifier_count(s.modifiers);
    &&& n >= k + 3
    &&& is_text(*body[k], "interface"@ + seq![' '])
    &&& wraps_text(*body[k + 1], s.name.value@)
    &&& is_brace_sep(*body[n - 2], cfg.brace_style)
}

/// An interface that extends nothing, with an empty body, that can be read.
pub open spec fn empty_interface_ok(t: &SyntaxTree, n: int) -> bool {
    let tp = crate::accessor::kind_children(t, n, "type_parameters"@);
    &&& t.nodes@[n].kind@ == "interface_declaration"@
    &&& optional_modifiers_ok(t, n)
    &&& tp.len() > 0 ==> type_parameters_ok(t, tp[0] as int)
    &&& readable_first(t, crate::accessor::field_children(t, n, "name"@))
    &&& first_field_is(t, n, "body"@, |c: int| t.nodes@[c].kind@ == "interface_body"@)
}

/// `interface Name<T> extends A { ... }`
pub struct InterfaceDeclaration {
    pub modifiers: Option<Modifiers>,
    pub name: ValueNode,
    pub type_parameters: Option<TypeParameters>,
    pub extends: Option<ExtendsInterface>,
    pub body: InterfaceBody,
    pub node_context: NodeContext,
}

impl InterfaceDeclaration {
    pub fn new(t: &SyntaxTree, n: usize) -> (r: Result<Self, String>)
        requires
            t.wf(),
            t.valid(n as int),
        ensures
            r matches Ok(v) ==> crate::enum_def::interface_tied(t, n as int, v),
            r matches Ok(v) ==> v.node_context.id == n && t.nodes@[n as int].kind@ == "interface_declaration"@,
            crate::accessor::kind_children(t, n as int, "extends_interfaces"@).len() == 0 && has_empty_body(t, n as int)
                ==> (r is Ok <==> empty_interface_ok(t, n as int)),
        decreases t.nodes@.len() - n, 1int,
    {
        assert_check(t, n, "interface_declaration")?;
        let modifiers = modifiers_of(t, n)?;
        let type_parameters = match try_c_by_k(t, n, "type_parameters") {
            Some(c) => Some(TypeParameters::new(t, c)?),
            None => None,
        };
        let extends = match try_c_by_k(t, n, "extends_interfaces") {
            Some(c) => Some(ExtendsInterface::new(t, c)?),
            None => None,
        };
        let nm = c_by_n(t, n, "name")?;
        let name = ValueNode::new(t, nm)?;
        let bd = c_by_n(t, n, "body")?;
        let body = InterfaceBody::new(t, bd)?;
        Ok(InterfaceDeclaration { modifiers, name, type_parameters, extends, body, node_context: NodeContext::with_punctuation(t, n) })
    }

    pub fn build<'a>(&self, b: &'a DocBuilder<'a>, cm: &CommentMap, st: &mut BuildState) -> (r: DocRef<'a>)
        ensures
            final(st).printed@.len() == old(st).printed@.len(),
            exists|body: Seq<DocRef<'a>>| #[trigger] wraps(*r, body) && interface_layout(body, *self, b.config),
        decreases self,
    {
        let mut body: Vec<DocRef<'a>> = Vec::new();
        build_modifiers(&self.modifiers, b, cm, st, &mut body);
        let w = b.txt_("interface");
        body.push(w);
        let nm = self.name.build(b, cm, st);
        body.push(nm);
        match &self.type_parameters {
            Some(tp) => {
                let d = tp.build(b, cm, st);
                body.push(d);
            },
            None => {},
        }
        match &self.extends {
            Some(e) => {
                let d = e.build(b, cm, st);
                body.push(d);
            },
            None => {},
        }
        let s = before_brace(b);
        body.push(s);
        let d = self.body.build(b, cm, st);
        body.push(d);
        let ghost body_v = body@;
        assert(interface_layout(body_v, *self, b.config));
        let r = with_comments_and_punc(b, cm, st, &self.node_context, body);
        assert(wraps(*r, body_v));
        r
    }
}

/// The events a trigger fires on.
pub enum TriggerEventVariant {
    BeforeInsert,
    BeforeUpdate,
    BeforeDelete,
    AfterInsert,
    AfterUpdate,
    AfterDelete,
    AfterUndelete,
}

impl TriggerEventVariant {
    /// How an event is written.
    pub open spec fn text(self) -> Seq<char> {
        match self {
            TriggerEventVariant::BeforeInsert => "before insert"@,
            TriggerEventVariant::BeforeUpdate => "before update"@,
            TriggerEventVariant::BeforeDelete => "before delete"@,
            TriggerEventVariant::AfterInsert => "after insert"@,
            TriggerEventVariant::AfterUpdate => "after update"@,
            TriggerEventVariant::AfterDelete => "after delete"@,
            TriggerEventVariant::AfterUndelete => "after undelete"@,
        }
    }

    /// The kind of node an event is read from.
    pub open spec fn source_kind(self) -> Seq<char> {
        match self {
            TriggerEventVariant::BeforeInsert => "before_insert"@,
            TriggerEventVariant::BeforeUpdate => "before_update"@,
            TriggerEventVariant::BeforeDelete => "before_delete"@,
            TriggerEventVariant::AfterInsert => "after_insert"@,
            TriggerEventVariant::AfterUpdate => "after_update"@,
            TriggerEventVariant::AfterDelete => "after_delete"@,
            TriggerEventVariant::AfterUndelete => "after_undelete"@,
        }
    }

    pub fn new(t: &SyntaxTree, n: usize) -> (r: Result<Self, String>)
        requires
            t.valid(n as int),
        ensures
            r is Ok <==> (t.nodes@[n as int].kind@ == "before_insert"@ || t.nodes@[n as int].kind@ == "before_update"@ || t.nodes@[n as int].kind@ == "before_delete"@ || t.nodes@[n as int].kind@ == "after_insert"@ || t.nodes@[n as int].kind@ == "after_update"@ || t.nodes@[n as int].kind@ == "after_delete"@ || t.nodes@[n as int].kind@ == "after_undelete"@),
            r matches Ok(v) ==> t.nodes@[n as int].kind@ == v.source_kind(),
    {
        if kind_is(t, n, "before_insert") {
            Ok(TriggerEventVariant::BeforeInsert)
        } else if kind_is(t, n, "before_update") {
            Ok(TriggerEventVariant::BeforeUpdate)
        } else if kind_is(t, n, "before_delete") {
            Ok(TriggerEventVariant::BeforeDelete)
        } else if kind_is(t, n, "after_insert") {
            Ok(TriggerEventVariant::AfterInsert)
        } else if kind_is(t, n, "after_update") {
            Ok(TriggerEventVariant::AfterUpdate)
        } else if kind_is(t, n, "after_delete") {
            Ok(TriggerEventVariant::AfterDelete)
        } else if kind_is(t, n, "after_undelete") {
            Ok(TriggerEventVariant::AfterUndelete)
        } else {
            Err(panic_unknown_node(t, n, "TriggerEvent"))
        }
    }

    pub fn build<'a>(&self, b: &'a DocBuilder<'a>) -> (r: DocRef<'a>)
        ensures
            is_text(*r, self.text()),
    {
        match self {
            TriggerEventVariant::BeforeInsert => b.txt("before insert"),
            TriggerEventVariant::BeforeUpdate => b.txt("before update"),
            TriggerEventVariant::BeforeDelete => b.txt("before delete"),
            TriggerEventVariant::AfterInsert => b.txt("after insert"),
            TriggerEventVariant::AfterUpdate => b.txt("after update"),
            TriggerEventVariant::AfterDelete => b.txt("after delete"),
            TriggerEventVariant::AfterUndelete => b.txt("after undelete"),
        }
    }
}

/// The kinds of node that name a trigger event.
pub open spec fn is_trigger_event_kind(k: Seq<char>) -> bool {
    k == "before_insert"@ || k == "before_update"@ || k == "before_delete"@ || k == "after_insert"@
        || k == "after_update"@ || k == "after_delete"@ || k == "after_undelete"@
}

/// A `trigger_event` node whose first code child names an event.
pub open spec fn trigger_event_ok(t: &SyntaxTree, n: int) -> bool {
    let cs = crate::accessor::code_children(t, n);
    t.nodes@[n].kind@ == "trigger_event"@ && cs.len() > 0 && is_trigger_event_kind(t.nodes@[cs[0] as int].kind@)
}

/// One event of a trigger.
pub struct TriggerEvent {
    pub event: TriggerEventVariant,
    pub node_context: NodeContext,
}

impl TriggerEvent {
    pub fn new(t: &SyntaxTree, n: usize) -> (r: Result<Self, String>)
        requires
            t.wf(),
            t.valid(n as int),
        ensures
            r matches Ok(v) ==> v.node_context.id == n && t.nodes@[n as int].kind@ == "trigger_event"@,
            r is Ok <==> trigger_event_ok(t, n as int),
    {
        assert_check(t, n, "trigger_event")?;
        let c = first_c(t, n)?;
        let event = TriggerEventVariant::new(t, c)?;
        Ok(TriggerEvent { event, node_context: NodeContext::with_punctuation(t, n) })
    }

    pub fn build<'a>(&self, b: &'a DocBuilder<'a>, cm: &CommentMap, st: &mut BuildState) -> (r: DocRef<'a>)
        ensures
            final(st).printed@.len() == old(st).printed@.len(),
            wraps_text(*r, self.event.text()),
    {
        let e = self.event.build(b);
        let mut body: Vec<DocRef<'a>> = Vec::new();
        body.push(e);
        let ghost body_v = body@;
        let r = with_comments_and_punc(b, cm, st, &self.node_context, body);
        proof {
            assert(body_v =~= seq![e]);
            lemma_wraps_single(*r, e, self.event.text());
        }
        r
    }
}

/// A trigger body whose block, where it has one, holds only statements
/// that hold no other statement.
pub open spec fn leaf_trigger_body(t: &SyntaxTree, n: int) -> bool {
    let b = crate::accessor::kind_children(t, n, "block"@);
    b.len() > 0 ==> holds_leaf_statements(t, b[0] as int)
}

/// Such a body that can be read.
pub open spec fn leaf_trigger_body_ok(t: &SyntaxTree, n: int) -> bool {
    let b = crate::accessor::kind_children(t, n, "block"@);
    t.nodes@[n].kind@ == "trigger_body"@ && b.len() > 0 && leaf_block_ok(t, b[0] as int)
}

/// The block of a trigger.
pub struct TriggerBody {
    pub block: Block,
    pub node_context: NodeContext,
}

impl TriggerBody {
    pub fn new(t: &SyntaxTree, n: usize) -> (r: Result<Self, String>)
        requires
            t.wf(),
            t.valid(n as int),
        ensures
            r matches Ok(v) ==> v.node_context.id == n && t.nodes@[n as int].kind@ == "trigger_body"@,
            leaf_trigger_body(t, n as int) ==> (r is Ok <==> leaf_trigger_body_ok(t, n as int)),
        decreases t.nodes@.len() - n, 1int,
    {
        assert_check(t, n, "trigger_body")?;
        let c = c_by_k(t, n, "block")?;
        let block = Block::new(t, c)?;
        Ok(TriggerBody { block, node_context: NodeContext::with_punctuation(t, n) })
    }

    pub fn build<'a>(&self, b: &'a DocBuilder<'a>, cm: &CommentMap, st: &mut BuildState) -> (r: DocRef<'a>)
        ensures
            final(st).printed@.len() == old(st).printed@.len(),
            exists|body: Seq<DocRef<'a>>| #[trigger] wraps(*r, body) && body.len() == 1 && ((bucket_of(
                cm,
                self.block.node_context.id,
            ).dangling_comments@.len() == 0 && self.block.statements@.len() > 0) ==> exists|docs: Seq<DocRef<'a>>|
                #[trigger] has_members_body(
                    *body[0],
                    docs,
                    trailing_flags(self.block.statements@),
                    b.config.indent_size,
                )),
        decreases self,
    {
        let d = self.block.build(b, cm, st);
        let mut body: Vec<DocRef<'a>> = Vec::new();
        body.push(d);
        let ghost body_v = body@;
        assert(body_v[0] == d);
        let r = with_comments_and_punc(b, cm, st, &self.node_context, body);
        assert(wraps(*r, body_v));
        r
    }
}

/// A trigger: `trigger `, the name, ` on `, the object, the events in
/// parentheses, then the brace separator and the body.
pub open spec fn trigger_layout<'a>(body: Seq<DocRef<'a>>, cfg: PrettyConfig) -> bool {
    &&& body.len() == 7
    &&& is_text(*body[0], "trigger"@ + seq![' '])
    &&& is_text(*body[2], seq![' '] + "on"@ + seq![' '])
    &&& is_brace_sep(*body[5], cfg.brace_style)
}

/// The trigger's name follows `trigger `, and its object follows ` on `.
pub open spec fn trigger_names<'a>(body: Seq<DocRef<'a>>, x: TriggerDeclaration) -> bool {
    &&& wraps_text(*body[1], x.name.value@)
    &&& wraps_text(*body[3], x.object.value@)
}

/// A trigger whose body holds nothing but leaves, that can be read: its
/// events, name, object and body.
pub open spec fn leaf_trigger_ok(t: &SyntaxTree, n: int) -> bool {
    let es = crate::accessor::kind_children(t, n, "trigger_event"@);
    &&& t.nodes@[n].kind@ == "trigger_declaration"@
    &&& es.len() > 0
    &&& forall|j: int| 0 <= j < es.len() ==> trigger_event_ok(t, #[trigger] es[j] as int)
    &&& readable_first(t, crate::accessor::field_children(t, n, "name"@))
    &&& readable_first(t, crate::accessor::field_children(t, n, "object"@))
    &&& first_field_is(t, n, "body"@, |c: int| leaf_trigger_body_ok(t, c))
}

/// `trigger Name on Object (events) { ... }`
pub struct TriggerDeclaration {
    pub name: ValueNode,
    pub events: Vec<TriggerEvent>,
    pub object: ValueNode,
    pub body: TriggerBody,
    pub node_context: NodeContext,
}

impl TriggerDeclaration {
    pub fn new(t: &SyntaxTree, n: usize) -> (r: Result<Self, String>)
        requires
            t.wf(),
            t.valid(n as int),
        ensures
            r matches Ok(v) ==> crate::enum_def::trigger_tied(t, n as int, v),
            r matches Ok(v) ==> v.node_context.id == n && t.nodes@[n as int].kind@ == "trigger_declaration"@,
            first_field_if(t, n as int, "body"@, |c: int| leaf_trigger_body(t, c)) ==> (r is Ok <==> leaf_trigger_ok(t, n as int)),
            r matches Ok(v) ==> v.events@.len() == crate::accessor::kind_children(t, n as int, "trigger_event"@).len(),
        decreases t.nodes@.len() - n, 1int,
    {
        assert_check(t, n, "trigger_declaration")?;
        let cs = cs_by_k(t, n, "trigger_event")?;
        let mut events: Vec<TriggerEvent> = Vec::new();
        let mut i: usize = 0;
        while i < cs.len()
            invariant
                t.wf(),
                t.valid(n as int),
                i <= cs@.len(),
                events@.len() == i,
                t.nodes@[n as int].kind@ == "trigger_declaration"@,
                cs@ == crate::accessor::kind_children(t, n as int, "trigger_event"@),
                forall|j: int| 0 <= j < cs@.len() ==> n < #[trigger] cs@[j] < t.nodes@.len(),
                forall|j: int| 0 <= j < i ==> trigger_event_ok(t, #[trigger] cs@[j] as int),
            decreases cs@.len() - i,
        {
            let e = match TriggerEvent::new(t, cs[i]) {
                Ok(e) => e,
                Err(e) => {
                    assert(!trigger_event_ok(t, cs@[i as int] as int));
                    return Err(e);
                },
            };
            events.push(e);
            i = i + 1;
        }
        let nm = c_by_n(t, n, "name")?;
        let name = ValueNode::new(t, nm)?;
        let o = c_by_n(t, n, "object")?;
        let object = ValueNode::new(t, o)?;
        let bd = c_by_n(t, n, "body")?;
        let body = TriggerBody::new(t, bd)?;
        Ok(TriggerDeclaration { name, events, object, body, node_context: NodeContext::with_punctuation(t, n) })
    }

    pub fn build<'a>(&self, b: &'a DocBuilder<'a>, cm: &CommentMap, st: &mut BuildState) -> (r: DocRef<'a>)
        ensures
            final(st).printed@.len() == old(st).printed@.len(),
            exists|body: Seq<DocRef<'a>>| #[trigger] wraps(*r, body) && trigger_layout(body, b.config),
            exists|body: Seq<DocRef<'a>>| #[trigger] wraps(*r, body) && trigger_layout(body, b.config) && trigger_names(body, *self),
        decreases self,
    {
        let mut body: Vec<DocRef<'a>> = Vec::new();
        let w = b.txt_("trigger");
        body.push(w);
        let nm = self.name.build(b, cm, st);
        body.push(nm);
        let on = b._txt_("on");
        body.push(on);
        let o = self.object.build(b, cm, st);
        body.push(o);
        let ghost len0 = st.printed@.len();
        let mut docs: Vec<DocRef<'a>> = Vec::new();
        let mut i: usize = 0;
        while i < self.events.len()
            invariant
                st.printed@.len() == len0,
            decreases self.events@.len() - i,
        {
            let d = self.events[i].build(b, cm, st);
            docs.push(d);
            i = i + 1;
        }
        let g = surround_group(b, docs.as_slice(), "(", ")", false);
        body.push(g);
        let s = before_brace(b);
        body.push(s);
        let d = self.body.build(b, cm, st);
        body.push(d);
        let ghost body_v = body@;
        assert(trigger_layout(body_v, b.config));
        assert(trigger_names(body_v, *self));
        let r = with_comments_and_punc(b, cm, st, &self.node_context, body);
        assert(wraps(*r, body_v));
        r
    }
}

/// The document of a source file: the top-level declarations, each laid
/// out as its kind says, on lines of their own (see `members_on_lines`),
/// then a line break.
pub open spec fn root_doc<'a>(d: Doc<'a>, root: Root, cm: &CommentMap, cfg: PrettyConfig) -> bool {
    &&& d is Concat
    &&& concat_parts(d).len() == 2
    &&& *concat_parts(d)[1] == Doc::Newline
    &&& root.members@.len() > 0 ==> *concat_parts(d)[0] is Concat && exists|docs: Seq<DocRef<'a>>|
        #[trigger] crate::doc_builder::members_on_lines(concat_parts(*concat_parts(d)[0]), docs, trailing_flags(root.members@))
            && (forall|m: int|
            0 <= m < docs.len() ==> crate::enum_def::root_member_doc(*#[trigger] docs[m], root.members@[m].member, cm, cfg))
}

/// A top-level declaration that holds no member: an enum, or a class with
/// an empty body.
pub open spec fn is_flat_root_member(t: &SyntaxTree, n: int) -> bool {
    ||| t.nodes@[n].kind@ == "enum_declaration"@
    ||| (t.nodes@[n].kind@ == "class_declaration"@ && has_empty_body(t, n))
}

/// Such a declaration that can be read.
pub open spec fn flat_root_member_ok(t: &SyntaxTree, n: int) -> bool {
    ||| (t.nodes@[n].kind@ == "enum_declaration"@ && enum_declaration_ok(t, n))
    ||| (t.nodes@[n].kind@ == "class_declaration"@ && empty_class_ok(t, n))
}

// ---------------------------------------------------------------------------
// The whole source.
// ---------------------------------------------------------------------------
/// The declarations of a source file.
pub struct Root {
    pub members: Vec<BodyMember<RootMember>>,
    pub node_context: NodeContext,
}

impl Root {
    pub fn new(t: &SyntaxTree, n: usize) -> (r: Result<Self, String>)
        requires
            t.wf(),
            t.valid(n as int),
        ensures
            r matches Ok(v) ==> v.node_context.id == n && t.nodes@[n as int].kind@ == "parser_output"@
                && v.members@.len() == crate::accessor::code_children(t, n as int).len(),
            r matches Ok(v) ==> forall|k: int| 0 <= k < v.members@.len() ==> (#[trigger] v.members@[k]).member.node_id()
                == crate::accessor::code_children(t, n as int)[k] && v.members@[k].has_trailing_newline
                == has_trailing_newline_spec(t, crate::accessor::code_children(t, n as int)[k] as int),
            r matches Ok(v) ==> forall|k: int| 0 <= k < v.members@.len() ==> crate::enum_def::root_member_tied(
                t,
                crate::accessor::code_children(t, n as int)[k] as int,
                (#[trigger] v.members@[k]).member,
            ),
            (forall|j: int| 0 <= j < crate::accessor::code_children(t, n as int).len()
                ==> is_flat_root_member(t, #[trigger] crate::accessor::code_children(t, n as int)[j] as int))
                ==> (r is Ok <==> t.nodes@[n as int].kind@ == "parser_output"@
                    && forall|j: int| 0 <= j < crate::accessor::code_children(t, n as int).len()
                        ==> flat_root_member_ok(t, #[trigger] crate::accessor::code_children(t, n as int)[j] as int)),
            n == 0 && root_reads(t) ==> r is Ok,
    {
        assert_check(t, n, "parser_output")?;
        let cs = children_vec(t, n);
        let mut members: Vec<BodyMember<RootMember>> = Vec::new();
        let mut i: usize = 0;
        while i < cs.len()
            invariant
                t.wf(),
                t.valid(n as int),
                i <= cs@.len(),
                members@.len() == i,
                t.nodes@[n as int].kind@ == "parser_output"@,
                cs@ == crate::accessor::code_children(t, n as int),
                forall|j: int| 0 <= j < cs@.len() ==> n < #[trigger] cs@[j] < t.nodes@.len(),
                forall|k: int| 0 <= k < i ==> (#[trigger] members@[k]).member.node_id() == cs@[k]
                    && members@[k].has_trailing_newline == has_trailing_newline_spec(t, cs@[k] as int),
                forall|k: int| 0 <= k < i ==> crate::enum_def::root_member_tied(t, cs@[k] as int, (#[trigger] members@[k]).member),
                forall|j: int| 0 <= j < i ==> is_flat_root_member(t, #[trigger] cs@[j] as int) ==> flat_root_member_ok(t, cs@[j] as int),
            decreases cs@.len() - i,
        {
            let c = cs[i];
            let m = match RootMember::new(t, c) {
                Ok(m) => m,
                Err(e) => {
                    assert(!(n == 0 && root_reads(t))) by {
                        if n == 0 && root_reads(t) {
                            assert(cs@[i as int] == crate::accessor::code_children(t, 0)[i as int]);
                        }
                    }
                    assert(is_flat_root_member(t, cs@[i as int] as int) ==> !flat_root_member_ok(t, cs@[i as int] as int));
                    return Err(e);
                },
            };
            members.push(BodyMember::new(t, c, m));
            i = i + 1;
        }
        Ok(Root { members, node_context: NodeContext::with_punctuation(t, n) })
    }

    /// The members, each on its own line, empty lines kept, then a newline.
    /// Comments with no declaration to attach to are not written, which the
    /// formatter reports as a failure.
    pub fn build<'a>(&self, b: &'a DocBuilder<'a>, cm: &CommentMap, st: &mut BuildState) -> (r: DocRef<'a>)
        ensures
            final(st).printed@.len() == old(st).printed@.len(),
            root_doc(*r, *self, cm, b.config),
            self.members@.len() == 0 ==> final(st).printed@ == old(st).printed@,
    {
        let ghost len0 = st.printed@.len();
        let ghost p0 = st.printed@;
        let mut docs: Vec<DocRef<'a>> = Vec::new();
        let mut trailing: Vec<bool> = Vec::new();
        let mut i: usize = 0;
        while i < self.members.len()
            invariant
                st.printed@.len() == len0,
                i <= self.members@.len(),
                docs@.len() == i,
                trailing@.len() == i,
                forall|m: int| 0 <= m < i ==> trailing@[m] == #[trigger] self.members@[m].has_trailing_newline,
                forall|m: int| 0 <= m < i ==> crate::enum_def::root_member_doc(*#[trigger] docs@[m], self.members@[m].member, cm, b.config),
                self.members@.len() == 0 ==> st.printed@ == p0,
            decreases self.members@.len() - i,
        {
            let d = self.members[i].member.build(b, cm, st);
            docs.push(d);
            trailing.push(self.members[i].has_trailing_newline);
            i = i + 1;
        }
        assert(trailing@ =~= trailing_flags(self.members@));
        let body = b.split_with_trailing_newline_considered(docs.as_slice(), trailing.as_slice());
        let n = b.nl();
        let mut parts: Vec<DocRef<'a>> = Vec::new();
        parts.push(body);
        parts.push(n);
        let r = b.concat(parts);
        proof {
            assert(concat_parts(*r)[0] == body);
            if self.members@.len() > 0 {
                assert(crate::doc_builder::members_on_lines(concat_parts(*body), docs@, trailing_flags(self.members@)));
            }
        }
        r
    }
}

} // verus!
