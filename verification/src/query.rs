//! SOQL and SOSL queries inside Apex: `[SELECT ... FROM ...]` and
//! `[FIND ... RETURNING ...]`, each clause built from its node and written
//! with its keyword, broken at the clauses when the query does not fit.
use crate::accessor::{
    c_by_k, c_by_n, children_vec, cs_by_k, first_c, kind_is, try_c_by_k, try_c_by_n,
    try_cs_by_k, value,
};
use crate::context::{BuildState, CommentMap, NodeContext};
use crate::data_model::{
    is_joined, is_softline_list, is_surrounded, join, surround_group, with_comments_and_punc, wraps, wraps_text, ValueNode, ValueNodeUpperCase,
};
use crate::doc::{Doc, DocRef, PrettyConfig};
use crate::doc_builder::{concat_parts, inner, insertable_parts, interspersed, is_text, opt_seq, DocBuilder};
use crate::enum_def::Expression;
use crate::strs::{concat3, owned, string_push_str, to_uppercase};
use crate::syntax::SyntaxTree;
use crate::utility::{assert_check, build_chaining_context, panic_unknown_node, ChainingContext};
use vstd::prelude::*;

verus! {

/// The documents of a list of value nodes.
fn build_values<'a>(list: &Vec<ValueNode>, b: &'a DocBuilder<'a>, cm: &CommentMap, st: &mut BuildState) -> (r: Vec<DocRef<'a>>)
    ensures
        final(st).printed@.len() == old(st).printed@.len(),
        r@.len() == list@.len(),
{
    let ghost len0 = st.printed@.len();
    let mut docs: Vec<DocRef<'a>> = Vec::new();
    let mut i: usize = 0;
    while i < list.len()
        invariant
            st.printed@.len() == len0,
            i <= list@.len(),
            docs@.len() == i,
        decreases list@.len() - i,
    {
        let d = list[i].build(b, cm, st);
        docs.push(d);
        i = i + 1;
    }
    docs
}

/// Value nodes read from a list of nodes.
fn values_of(t: &SyntaxTree, n: usize, cs: &Vec<usize>) -> (r: Result<Vec<ValueNode>, String>)
    requires
        t.wf(),
        t.valid(n as int),
        forall|j: int| 0 <= j < cs@.len() ==> n < #[trigger] cs@[j] < t.nodes@.len(),
    ensures
        r matches Ok(v) ==> v@.len() == cs@.len(),
        r is Ok <==> forall|j: int| 0 <= j < cs@.len() ==> crate::accessor::readable(t, #[trigger] cs@[j] as int),
        r matches Ok(v) ==> forall|j: int|
            0 <= j < cs@.len() ==> (#[trigger] v@[j]).node_context.id == cs@[j] && crate::strs::bytes_of(v@[j].value@)
                == crate::accessor::node_bytes(t, cs@[j] as int),
{
    let mut v: Vec<ValueNode> = Vec::new();
    let mut i: usize = 0;
    while i < cs.len()
        invariant
            t.wf(),
            t.valid(n as int),
            i <= cs@.len(),
            v@.len() == i,
            forall|j: int| 0 <= j < i ==> crate::accessor::readable(t, #[trigger] cs@[j] as int),
            forall|j: int|
                0 <= j < i ==> (#[trigger] v@[j]).node_context.id == cs@[j] && crate::strs::bytes_of(v@[j].value@)
                    == crate::accessor::node_bytes(t, cs@[j] as int),
            forall|j: int| 0 <= j < cs@.len() ==> n < #[trigger] cs@[j] < t.nodes@.len(),
        decreases cs@.len() - i,
    {
        let x = ValueNode::new(t, cs[i])?;
        v.push(x);
        i = i + 1;
    }
    Ok(v)
}

/// Documents separated by lines that break when the group does not fit.
fn soft_join<'a>(b: &'a DocBuilder<'a>, docs: &[DocRef<'a>]) -> (r: DocRef<'a>)
    ensures
        *r is Concat,
        soft_joined(concat_parts(*r), docs@),
{
    let sl = b.softline();
    let sep = b.insertable(None, None, Some(sl));
    proof {
        assert(crate::doc_builder::insertable_parts(sep) =~= seq![sl]);
        lemma_interspersed_soft(docs@, sl);
    }
    b.intersperse(docs, &sep)
}

/// The separator between element `i` and the next of a joined list.
pub open spec fn sep_after<'a>(parts: Seq<DocRef<'a>>, i: int) -> DocRef<'a> {
    parts[2 * i + 1]
}

/// `parts` holds the documents `docs` with a soft line break between each
/// two.
pub open spec fn soft_joined<'a>(parts: Seq<DocRef<'a>>, docs: Seq<DocRef<'a>>) -> bool {
    &&& docs.len() > 0 ==> parts.len() == 2 * docs.len() - 1
    &&& docs.len() == 0 ==> parts.len() == 0
    &&& forall|i: int| 0 <= i < docs.len() ==> parts[2 * i] == #[trigger] docs[i]
    &&& forall|i: int| 0 <= i < docs.len() - 1 ==> *#[trigger] sep_after(parts, i) == Doc::Softline
}

proof fn lemma_interspersed_soft<'a>(docs: Seq<DocRef<'a>>, sl: DocRef<'a>)
    requires
        *sl == Doc::Softline,
    ensures
        soft_joined(crate::doc_builder::interspersed(docs, seq![sl]), docs),
    decreases docs.len(),
{
    let p = crate::doc_builder::interspersed(docs, seq![sl]);
    if docs.len() > 1 {
        let d0 = docs.drop_last();
        lemma_interspersed_soft(d0, sl);
        let p0 = crate::doc_builder::interspersed(d0, seq![sl]);
        assert(p == p0 + seq![sl] + seq![docs.last()]);
        assert forall|i: int| 0 <= i < docs.len() implies p[2 * i] == #[trigger] docs[i] by {
            if i < docs.len() - 1 {
                assert(p0[2 * i] == d0[i]);
            }
        }
        assert forall|i: int| 0 <= i < docs.len() - 1 implies *#[trigger] sep_after(p, i) == Doc::Softline by {
            if i < docs.len() - 2 {
                assert(sep_after(p0, i) == p0[2 * i + 1]);
            }
        }
    } else if docs.len() == 1 {
        assert(p == seq![docs[0]]);
    }
}

/// A keyword and what follows it after a soft line break, grouped and
/// indented.
pub open spec fn is_keyword_condition<'a>(d: Doc<'a>, word: Seq<char>) -> bool {
    &&& d is Choice
    &&& *d->Choice_0 == Doc::Flat(d->Choice_1)
    &&& *d->Choice_1 is Indent
    &&& inner(*d->Choice_1) is Some
    &&& *inner(*d->Choice_1).unwrap() is Concat
    &&& ({
        let p = concat_parts(*inner(*d->Choice_1).unwrap());
        p.len() == 3 && is_text(*p[0], word) && *p[1] == Doc::Softline
    })
}

/// Two documents in a row.
fn pair<'a>(b: &'a DocBuilder<'a>, x: DocRef<'a>, y: DocRef<'a>) -> (r: DocRef<'a>)
    ensures
        *r is Concat && concat_parts(*r) == seq![x, y],
{
    let mut v: Vec<DocRef<'a>> = Vec::new();
    v.push(x);
    v.push(y);
    proof {
        assert(v@ =~= seq![x, y]);
    }
    b.concat(v)
}

/// `:` and the Apex expression.
pub open spec fn bound_layout<'a>(body: Seq<DocRef<'a>>) -> bool {
    body.len() == 2 && is_text(*body[0], ":"@)
}

// ---------------------------------------------------------------------------
// Bound Apex and literals.
// ---------------------------------------------------------------------------
/// `:expression`, Apex bound into a query.
pub struct BoundApexExpression {
    pub exp: Box<Expression>,
    pub node_context: NodeContext,
}

impl BoundApexExpression {
    pub fn new(t: &SyntaxTree, n: usize) -> (r: Result<Self, String>)
        requires
            t.wf(),
            t.valid(n as int),
        ensures
            r matches Ok(v) ==> v.node_context.id == n && t.nodes@[n as int].kind@ == "bound_apex_expression"@,
        decreases t.nodes@.len() - n, 1int,
    {
        assert_check(t, n, "bound_apex_expression")?;
        let c = first_c(t, n)?;
        let exp = Box::new(Expression::new(t, c)?);
        Ok(BoundApexExpression { exp, node_context: NodeContext::with_punctuation(t, n) })
    }

    pub fn build<'a>(&self, b: &'a DocBuilder<'a>, cm: &CommentMap, st: &mut BuildState) -> (r: DocRef<'a>)
        ensures
            final(st).printed@.len() == old(st).printed@.len(),
            exists|body: Seq<DocRef<'a>>| #[trigger] wraps(*r, body) && bound_layout(body),
        decreases self,
    {
        let c = b.txt(":");
        let e = self.exp.build(b, cm, st);
        let mut body: Vec<DocRef<'a>> = Vec::new();
        body.push(c);
        body.push(e);
        let ghost body_v = body@;
        assert(bound_layout(body_v));
        let r = with_comments_and_punc(b, cm, st, &self.node_context, body);
        assert(wraps(*r, body_v));
        r
    }
}

/// The date literal, `:` and its parameter, as one text.
pub open spec fn date_literal_layout<'a>(body: Seq<DocRef<'a>>, s: DateLiteralWithParam) -> bool {
    body.len() == 1 && is_text(*body[0], s.date_literal@ + ":"@ + s.param@)
}

/// `LAST_N_DAYS:30`, the literal in upper case.
pub struct DateLiteralWithParam {
    pub date_literal: String,
    pub param: String,
    pub node_context: NodeContext,
}

impl DateLiteralWithParam {
    pub fn new(t: &SyntaxTree, n: usize) -> (r: Result<Self, String>)
        requires
            t.wf(),
            t.valid(n as int),
        ensures
            r is Ok <==> t.nodes@[n as int].kind@ == "date_literal_with_param"@ && crate::accessor::kind_children(t, n as int, "date_literal"@).len() > 0 && crate::accessor::readable(t, crate::accessor::kind_children(t, n as int, "date_literal"@)[0] as int) && crate::accessor::kind_children(t, n as int, "int"@).len() > 0 && crate::accessor::readable(t, crate::accessor::kind_children(t, n as int, "int"@)[0] as int),
            r matches Ok(v) ==> v.date_literal@ == crate::strs::uppercase(crate::accessor::node_text(t, crate::accessor::kind_children(t, n as int, "date_literal"@)[0] as int)) && v.param@ == crate::accessor::node_text(t, crate::accessor::kind_children(t, n as int, "int"@)[0] as int),
            r matches Ok(v) ==> v.node_context.id == n && t.nodes@[n as int].kind@ == "date_literal_with_param"@,
        decreases t.nodes@.len() - n, 1int,
    {
        assert_check(t, n, "date_literal_with_param")?;
        let d = crate::accessor::cvalue_by_k(t, n, "date_literal")?;
        let date_literal = to_uppercase(d.as_str());
        let param = crate::accessor::cvalue_by_k(t, n, "int")?;
        Ok(DateLiteralWithParam { date_literal, param, node_context: NodeContext::with_punctuation(t, n) })
    }

    pub fn build<'a>(&self, b: &'a DocBuilder<'a>, cm: &CommentMap, st: &mut BuildState) -> (r: DocRef<'a>)
        ensures
            final(st).printed@.len() == old(st).printed@.len(),
            exists|body: Seq<DocRef<'a>>| #[trigger] wraps(*r, body) && date_literal_layout(body, *self),
    {
        let s = concat3(self.date_literal.as_str(), ":", self.param.as_str());
        let d = b.txt_string(s);
        let mut body: Vec<DocRef<'a>> = Vec::new();
        body.push(d);
        let ghost body_v = body@;
        assert(date_literal_layout(body_v, *self));
        let r = with_comments_and_punc(b, cm, st, &self.node_context, body);
        assert(wraps(*r, body_v));
        r
    }
}

/// A literal of a query as written; a date literal with a parameter laid
/// out as such.
pub open spec fn soql_literal_doc<'a>(d: Doc<'a>, l: SoqlLiteral) -> bool {
    match l {
        SoqlLiteral::Int(v) => wraps_text(d, v.value@),
        SoqlLiteral::Decimal(v) => wraps_text(d, v.value@),
        SoqlLiteral::StringLiteral(v) => wraps_text(d, v.value@),
        SoqlLiteral::Date(v) => wraps_text(d, v.value@),
        SoqlLiteral::DateTime(v) => wraps_text(d, v.value@),
        SoqlLiteral::Boolean(v) => wraps_text(d, v.value@),
        SoqlLiteral::DateLiteral(v) => wraps_text(d, v.value@),
        SoqlLiteral::DWithParam(x) => exists|body: Seq<DocRef<'a>>| #[trigger] wraps(d, body) && date_literal_layout(body, x),
        SoqlLiteral::CurrentLiteral(v) => wraps_text(d, v.value@),
        SoqlLiteral::NullLiteral(v) => wraps_text(d, v.value@),
    }
}

/// The names of the literal kinds that are read as their text alone are
/// each unlike every other literal kind, and unlike a bound expression.
proof fn lemma_plain_literal_kinds(k: Seq<char>)
    ensures
        k == "decimal"@ ==> k != "int"@ && k != "string_literal"@ && k != "boolean"@ && k != "date"@ && k != "date_literal"@ && k != "date_literal_with_param"@ && k != "null_literal"@ && k != "bound_apex_expression"@,
        k == "int"@ ==> k != "decimal"@ && k != "string_literal"@ && k != "boolean"@ && k != "date"@ && k != "date_literal"@ && k != "date_literal_with_param"@ && k != "null_literal"@ && k != "bound_apex_expression"@,
        k == "string_literal"@ ==> k != "decimal"@ && k != "int"@ && k != "boolean"@ && k != "date"@ && k != "date_literal"@ && k != "date_literal_with_param"@ && k != "null_literal"@ && k != "bound_apex_expression"@,
        k == "boolean"@ ==> k != "decimal"@ && k != "int"@ && k != "string_literal"@ && k != "date"@ && k != "date_literal"@ && k != "date_literal_with_param"@ && k != "null_literal"@ && k != "bound_apex_expression"@,
        k == "date"@ ==> k != "decimal"@ && k != "int"@ && k != "string_literal"@ && k != "boolean"@ && k != "date_literal"@ && k != "date_literal_with_param"@ && k != "null_literal"@ && k != "bound_apex_expression"@,
        k == "date_literal"@ ==> k != "decimal"@ && k != "int"@ && k != "string_literal"@ && k != "boolean"@ && k != "date"@ && k != "date_literal_with_param"@ && k != "null_literal"@ && k != "bound_apex_expression"@,
        k == "null_literal"@ ==> k != "decimal"@ && k != "int"@ && k != "string_literal"@ && k != "boolean"@ && k != "date"@ && k != "date_literal"@ && k != "date_literal_with_param"@ && k != "bound_apex_expression"@,
{
    reveal_strlit("decimal");
    reveal_strlit("int");
    reveal_strlit("string_literal");
    reveal_strlit("boolean");
    reveal_strlit("date");
    reveal_strlit("date_literal");
    reveal_strlit("date_literal_with_param");
    reveal_strlit("null_literal");
    reveal_strlit("bound_apex_expression");
    assert("boolean"@.len() != "bound_apex_expression"@.len());
    assert("boolean"@.len() != "date"@.len());
    assert("boolean"@.len() != "date_literal"@.len());
    assert("boolean"@.len() != "date_literal_with_param"@.len());
    assert("boolean"@[0] != "decimal"@[0]);
    assert("boolean"@.len() != "int"@.len());
    assert("boolean"@.len() != "null_literal"@.len());
    assert("boolean"@.len() != "string_literal"@.len());
    assert("bound_apex_expression"@.len() != "date"@.len());
    assert("bound_apex_expression"@.len() != "date_literal"@.len());
    assert("bound_apex_expression"@.len() != "decimal"@.len());
    assert("bound_apex_expression"@.len() != "int"@.len());
    assert("bound_apex_expression"@.len() != "null_literal"@.len());
    assert("bound_apex_expression"@.len() != "string_literal"@.len());
    assert("date"@.len() != "date_literal"@.len());
    assert("date"@.len() != "date_literal_with_param"@.len());
    assert("date"@.len() != "decimal"@.len());
    assert("date"@.len() != "int"@.len());
    assert("date"@.len() != "null_literal"@.len());
    assert("date"@.len() != "string_literal"@.len());
    assert("date_literal"@.len() != "date_literal_with_param"@.len());
    assert("date_literal"@.len() != "decimal"@.len());
    assert("date_literal"@.len() != "int"@.len());
    assert("date_literal"@[0] != "null_literal"@[0]);
    assert("date_literal"@.len() != "string_literal"@.len());
    assert("date_literal_with_param"@.len() != "decimal"@.len());
    assert("date_literal_with_param"@.len() != "int"@.len());
    assert("date_literal_with_param"@.len() != "null_literal"@.len());
    assert("date_literal_with_param"@.len() != "string_literal"@.len());
    assert("decimal"@.len() != "int"@.len());
    assert("decimal"@.len() != "null_literal"@.len());
    assert("decimal"@.len() != "string_literal"@.len());
    assert("int"@.len() != "null_literal"@.len());
    assert("int"@.len() != "string_literal"@.len());
    assert("null_literal"@.len() != "string_literal"@.len());
}

/// The kinds of query literal that are read as their text alone.
pub open spec fn is_plain_literal_kind(k: Seq<char>) -> bool {
    k == "decimal"@ || k == "int"@ || k == "string_literal"@ || k == "boolean"@ || k == "date"@
        || k == "date_literal"@ || k == "null_literal"@
}

/// A literal in a query.
pub enum SoqlLiteral {
    Int(ValueNode),
    Decimal(ValueNode),
    StringLiteral(ValueNode),
    Date(ValueNode),
    DateTime(ValueNode),
    Boolean(ValueNode),
    DateLiteral(ValueNode),
    DWithParam(DateLiteralWithParam),
    CurrentLiteral(ValueNode),
    NullLiteral(ValueNode),
}

impl SoqlLiteral {
    pub fn new(t: &SyntaxTree, n: usize) -> (r: Result<Self, String>)
        requires
            t.wf(),
            t.valid(n as int),
        ensures
            (t.nodes@[n as int].kind@ != "boolean"@ && t.nodes@[n as int].kind@ != "date"@ && t.nodes@[n as int].kind@ != "decimal"@ && t.nodes@[n as int].kind@ != "int"@ && t.nodes@[n as int].kind@ != "string_literal"@ && t.nodes@[n as int].kind@ != "date_literal"@ && t.nodes@[n as int].kind@ != "date_literal_with_param"@ && t.nodes@[n as int].kind@ != "null_literal"@) ==> r is Err,
            r matches Ok(v) ==> (v is Decimal ==> t.nodes@[n as int].kind@ == "decimal"@),
            r matches Ok(v) ==> (v is Int ==> t.nodes@[n as int].kind@ == "int"@),
            r matches Ok(v) ==> (v is StringLiteral ==> t.nodes@[n as int].kind@ == "string_literal"@),
            r matches Ok(v) ==> (v is DateLiteral ==> t.nodes@[n as int].kind@ == "date_literal"@),
            r matches Ok(v) ==> (v is DWithParam ==> t.nodes@[n as int].kind@ == "date_literal_with_param"@),
            r matches Ok(v) ==> (v is NullLiteral ==> t.nodes@[n as int].kind@ == "null_literal"@),
            r matches Ok(v) ==> (v is Boolean ==> t.nodes@[n as int].kind@ == "boolean"@ || t.nodes@[n as int].kind@ == "date"@),
            t.nodes@[n as int].kind@ == "decimal"@ ==> (r is Ok <==> crate::accessor::readable(t, n as int)),
            is_plain_literal_kind(t.nodes@[n as int].kind@) ==> (r is Ok <==> crate::accessor::readable(t, n as int)),
            r matches Ok(SoqlLiteral::Decimal(x)) ==> crate::strs::bytes_of(x.value@) == crate::accessor::node_bytes(t, n as int) && x.node_context.id == n,
            r matches Ok(SoqlLiteral::Int(x)) ==> crate::strs::bytes_of(x.value@) == crate::accessor::node_bytes(t, n as int) && x.node_context.id == n,
            r matches Ok(SoqlLiteral::StringLiteral(x)) ==> crate::strs::bytes_of(x.value@) == crate::accessor::node_bytes(t, n as int) && x.node_context.id == n,
            r matches Ok(SoqlLiteral::Boolean(x)) ==> crate::strs::bytes_of(x.value@) == crate::accessor::node_bytes(t, n as int) && x.node_context.id == n,
            r matches Ok(SoqlLiteral::DateLiteral(x)) ==> crate::strs::bytes_of(x.value@) == crate::accessor::node_bytes(t, n as int) && x.node_context.id == n,
            r matches Ok(SoqlLiteral::NullLiteral(x)) ==> crate::strs::bytes_of(x.value@) == crate::accessor::node_bytes(t, n as int) && x.node_context.id == n,
        decreases t.nodes@.len() - n, 2int,
    {
        proof {
            lemma_plain_literal_kinds(t.nodes@[n as int].kind@);
        }
        if kind_is(t, n, "decimal") {
            Ok(SoqlLiteral::Decimal(ValueNode::new(t, n)?))
        } else if kind_is(t, n, "int") {
            Ok(SoqlLiteral::Int(ValueNode::new(t, n)?))
        } else if kind_is(t, n, "string_literal") {
            Ok(SoqlLiteral::StringLiteral(ValueNode::new(t, n)?))
        } else if kind_is(t, n, "boolean") {
            Ok(SoqlLiteral::Boolean(ValueNode::new(t, n)?))
        } else if kind_is(t, n, "date") {
            Ok(SoqlLiteral::Boolean(ValueNode::new(t, n)?))
        } else if kind_is(t, n, "date_literal") {
            Ok(SoqlLiteral::DateLiteral(ValueNode::new(t, n)?))
        } else if kind_is(t, n, "date_literal_with_param") {
            Ok(SoqlLiteral::DWithParam(DateLiteralWithParam::new(t, n)?))
        } else if kind_is(t, n, "null_literal") {
            Ok(SoqlLiteral::NullLiteral(ValueNode::new(t, n)?))
        } else {
            Err(panic_unknown_node(t, n, "SoqlLiteral"))
        }
    }

    pub fn build<'a>(&self, b: &'a DocBuilder<'a>, cm: &CommentMap, st: &mut BuildState) -> (r: DocRef<'a>)
        ensures
            final(st).printed@.len() == old(st).printed@.len(),
            soql_literal_doc(*r, *self),
    {
        match self {
            SoqlLiteral::Int(v) => v.build(b, cm, st),
            SoqlLiteral::Decimal(v) => v.build(b, cm, st),
            SoqlLiteral::StringLiteral(v) => v.build(b, cm, st),
            SoqlLiteral::Date(v) => v.build(b, cm, st),
            SoqlLiteral::DateTime(v) => v.build(b, cm, st),
            SoqlLiteral::Boolean(v) => v.build(b, cm, st),
            SoqlLiteral::DateLiteral(v) => v.build(b, cm, st),
            SoqlLiteral::DWithParam(v) => v.build(b, cm, st),
            SoqlLiteral::CurrentLiteral(v) => v.build(b, cm, st),
            SoqlLiteral::NullLiteral(v) => v.build(b, cm, st),
        }
    }
}

/// An `int` or a bound expression, as after `LIMIT`.
pub enum LimitValue {
    Int(ValueNode),
    Bound(BoundApexExpression),
}

impl LimitValue {
    pub fn new(t: &SyntaxTree, n: usize) -> (r: Result<Self, String>)
        requires
            t.wf(),
            t.valid(n as int),
        ensures
            (t.nodes@[n as int].kind@ != "int"@ && t.nodes@[n as int].kind@ != "bound_apex_expression"@) ==> r is Err,
            r matches Ok(v) ==> (v is Int ==> t.nodes@[n as int].kind@ == "int"@),
            r matches Ok(v) ==> (v is Bound ==> t.nodes@[n as int].kind@ == "bound_apex_expression"@),
            t.nodes@[n as int].kind@ == "int"@ ==> (r is Ok <==> crate::accessor::readable(t, n as int)),
        decreases t.nodes@.len() - n, 2int,
    {
        if kind_is(t, n, "int") {
            Ok(LimitValue::Int(ValueNode::new(t, n)?))
        } else if kind_is(t, n, "bound_apex_expression") {
            Ok(LimitValue::Bound(BoundApexExpression::new(t, n)?))
        } else {
            Err(panic_unknown_node(t, n, "LimitValue"))
        }
    }

    pub fn build<'a>(&self, b: &'a DocBuilder<'a>, cm: &CommentMap, st: &mut BuildState) -> (r: DocRef<'a>)
        ensures
            final(st).printed@.len() == old(st).printed@.len(),
            *self matches LimitValue::Int(v) ==> wraps_text(*r, v.value@),
            self is Bound ==> exists|body: Seq<DocRef<'a>>| #[trigger] wraps(*r, body) && bound_layout(body),
        decreases self,
    {
        match self {
            LimitValue::Int(v) => v.build(b, cm, st),
            LimitValue::Bound(v) => v.build(b, cm, st),
        }
    }
}

/// `LIMIT ` and the value.
pub open spec fn limit_layout<'a>(body: Seq<DocRef<'a>>) -> bool {
    body.len() == 2 && is_text(*body[0], "LIMIT"@ + seq![' '])
}

/// `LIMIT value`
pub struct LimitClause {
    pub limit_value: LimitValue,
    pub node_context: NodeContext,
}

impl LimitClause {
    pub fn new(t: &SyntaxTree, n: usize) -> (r: Result<Self, String>)
        requires
            t.wf(),
            t.valid(n as int),
        ensures
            r matches Ok(v) ==> v.node_context.id == n && t.nodes@[n as int].kind@ == "limit_clause"@,
        decreases t.nodes@.len() - n, 1int,
    {
        assert_check(t, n, "limit_clause")?;
        let c = first_c(t, n)?;
        let limit_value = LimitValue::new(t, c)?;
        Ok(LimitClause { limit_value, node_context: NodeContext::with_punctuation(t, n) })
    }

    pub fn build<'a>(&self, b: &'a DocBuilder<'a>, cm: &CommentMap, st: &mut BuildState) -> (r: DocRef<'a>)
        ensures
            final(st).printed@.len() == old(st).printed@.len(),
            exists|body: Seq<DocRef<'a>>| #[trigger] wraps(*r, body) && limit_layout(body),
        decreases self,
    {
        let w = b.txt_("LIMIT");
        let v = self.limit_value.build(b, cm, st);
        let mut body: Vec<DocRef<'a>> = Vec::new();
        body.push(w);
        body.push(v);
        let ghost body_v = body@;
        assert(limit_layout(body_v));
        let r = with_comments_and_punc(b, cm, st, &self.node_context, body);
        assert(wraps(*r, body_v));
        r
    }
}

/// `OFFSET value`
pub enum OffsetClause {
    Int(ValueNode),
    Bound(BoundApexExpression),
}

impl OffsetClause {
    pub fn new(t: &SyntaxTree, n: usize) -> (r: Result<Self, String>)
        requires
            t.wf(),
            t.valid(n as int),
        ensures
            r is Ok ==> t.nodes@[n as int].kind@ == "offset_clause"@,
            crate::accessor::code_children(t, n as int).len() == 0 ==> r is Err,
            crate::accessor::code_children(t, n as int).len() > 0 && t.nodes@[crate::accessor::code_children(t, n as int)[0] as int].kind@ == "int"@
                ==> (r is Ok <==> t.nodes@[n as int].kind@ == "offset_clause"@ && crate::accessor::readable(t, crate::accessor::code_children(t, n as int)[0] as int)),
            crate::accessor::code_children(t, n as int).len() > 0 && t.nodes@[crate::accessor::code_children(t, n as int)[0] as int].kind@ != "int"@
                && t.nodes@[crate::accessor::code_children(t, n as int)[0] as int].kind@ != "bound_apex_expression"@ ==> r is Err,
            r matches Ok(OffsetClause::Int(v)) ==> crate::strs::bytes_of(v.value@) == crate::accessor::node_bytes(t, crate::accessor::code_children(t, n as int)[0] as int),
        decreases t.nodes@.len() - n, 1int,
    {
        assert_check(t, n, "offset_clause")?;
        let c = first_c(t, n)?;
        if kind_is(t, c, "int") {
            Ok(OffsetClause::Int(ValueNode::new(t, c)?))
        } else if kind_is(t, c, "bound_apex_expression") {
            Ok(OffsetClause::Bound(BoundApexExpression::new(t, c)?))
        } else {
            Err(panic_unknown_node(t, c, "OffsetClause"))
        }
    }

    pub fn build<'a>(&self, b: &'a DocBuilder<'a>, cm: &CommentMap, st: &mut BuildState) -> (r: DocRef<'a>)
        ensures
            final(st).printed@.len() == old(st).printed@.len(),
            *r is Concat && concat_parts(*r).len() == 2,
            is_text(*concat_parts(*r)[0], "OFFSET"@ + seq![' ']),
        decreases self,
    {
        let w = b.txt_("OFFSET");
        let v = match self {
            OffsetClause::Int(v) => v.build(b, cm, st),
            OffsetClause::Bound(v) => v.build(b, cm, st),
        };
        pair(b, w, v)
    }
}

// ---------------------------------------------------------------------------
// Fields and functions.
// ---------------------------------------------------------------------------
/// `a.b.c`
pub struct DottedIdentifier {
    pub identifiers: Vec<ValueNode>,
    pub node_context: NodeContext,
}

impl DottedIdentifier {
    pub fn new(t: &SyntaxTree, n: usize) -> (r: Result<Self, String>)
        requires
            t.wf(),
            t.valid(n as int),
        ensures
            r is Ok <==> t.nodes@[n as int].kind@ == "dotted_identifier"@ && identifiers_readable(t, n as int),
            r matches Ok(v) ==> v.node_context.id == n && t.nodes@[n as int].kind@ == "dotted_identifier"@,
    {
        assert_check(t, n, "dotted_identifier")?;
        let cs = cs_by_k(t, n, "identifier")?;
        let identifiers = values_of(t, n, &cs)?;
        Ok(DottedIdentifier { identifiers, node_context: NodeContext::with_punctuation(t, n) })
    }

    pub fn build<'a>(&self, b: &'a DocBuilder<'a>, cm: &CommentMap, st: &mut BuildState) -> (r: DocRef<'a>)
        ensures
            final(st).printed@.len() == old(st).printed@.len(),
            exists|body: Seq<DocRef<'a>>| #[trigger] wraps(*r, body) && body.len() == 1 && is_joined(*body[0], self.identifiers@.len(), "."@),
    {
        let docs = build_values(&self.identifiers, b, cm, st);
        let j = join(b, docs.as_slice(), ".");
        let mut body: Vec<DocRef<'a>> = Vec::new();
        body.push(j);
        let ghost body_v = body@;
        let r = with_comments_and_punc(b, cm, st, &self.node_context, body);
        assert(wraps(*r, body_v));
        r
    }
}

/// The node has `identifier` children, and each can be read.
pub open spec fn identifiers_readable(t: &SyntaxTree, n: int) -> bool {
    let ids = crate::accessor::kind_children(t, n, "identifier"@);
    ids.len() > 0 && forall|j: int| 0 <= j < ids.len() ==> crate::accessor::readable(t, #[trigger] ids[j] as int)
}

/// The first code child of `n` is an identifier that can be read, or a
/// dotted identifier whose parts can be read.
pub open spec fn name_child_ok(t: &SyntaxTree, n: int) -> bool {
    let cs = crate::accessor::code_children(t, n);
    cs.len() > 0 && ((t.nodes@[cs[0] as int].kind@ == "identifier"@ && crate::accessor::readable(t, cs[0] as int)) || (
    t.nodes@[cs[0] as int].kind@ == "dotted_identifier"@ && identifiers_readable(t, cs[0] as int)))
}

/// A field name as written, or its parts each two apart by `.`.
pub open spec fn field_identifier_doc<'a>(d: Doc<'a>, v: FieldIdentifierVariant) -> bool {
    match v {
        FieldIdentifierVariant::Identifier(x) => wraps_text(d, x.value@),
        FieldIdentifierVariant::Dotted(x) => exists|body: Seq<DocRef<'a>>| #[trigger] wraps(d, body) && body.len() == 1 && is_joined(*body[0], x.identifiers@.len(), "."@),
    }
}

/// A field: a name or a dotted path.
pub enum FieldIdentifierVariant {
    Identifier(ValueNode),
    Dotted(DottedIdentifier),
}

impl FieldIdentifierVariant {
    pub fn new(t: &SyntaxTree, n: usize) -> (r: Result<Self, String>)
        requires
            t.wf(),
            t.valid(n as int),
        ensures
            r is Ok <==> t.nodes@[n as int].kind@ == "field_identifier"@ && name_child_ok(t, n as int),
            r matches Ok(v) ==> (v is Identifier ==> t.nodes@[crate::accessor::code_children(t, n as int)[0] as int].kind@ == "identifier"@) && (v is Dotted ==> t.nodes@[crate::accessor::code_children(t, n as int)[0] as int].kind@ == "dotted_identifier"@),
            r is Ok ==> t.nodes@[n as int].kind@ == "field_identifier"@,
    {
        proof {
            reveal_strlit("identifier");
            reveal_strlit("dotted_identifier");
            assert("identifier"@.len() != "dotted_identifier"@.len());
        }
        assert_check(t, n, "field_identifier")?;
        let c = first_c(t, n)?;
        if kind_is(t, c, "identifier") {
            Ok(FieldIdentifierVariant::Identifier(ValueNode::new(t, c)?))
        } else if kind_is(t, c, "dotted_identifier") {
            Ok(FieldIdentifierVariant::Dotted(DottedIdentifier::new(t, c)?))
        } else {
            Err(panic_unknown_node(t, c, "FieldIdentifier"))
        }
    }

    pub fn build<'a>(&self, b: &'a DocBuilder<'a>, cm: &CommentMap, st: &mut BuildState) -> (r: DocRef<'a>)
        ensures
            final(st).printed@.len() == old(st).printed@.len(),
            field_identifier_doc(*r, *self),
    {
        match self {
            FieldIdentifierVariant::Identifier(v) => v.build(b, cm, st),
            FieldIdentifierVariant::Dotted(v) => v.build(b, cm, st),
        }
    }
}

pub struct FieldIdentifier {
    pub variant: FieldIdentifierVariant,
    pub node_context: NodeContext,
}

impl FieldIdentifier {
    pub fn new(t: &SyntaxTree, n: usize) -> (r: Result<Self, String>)
        requires
            t.wf(),
            t.valid(n as int),
        ensures
            r matches Ok(v) ==> v.node_context.id == n && t.nodes@[n as int].kind@ == "field_identifier"@,
            r is Ok <==> t.nodes@[n as int].kind@ == "field_identifier"@ && name_child_ok(t, n as int),
    {
        assert_check(t, n, "field_identifier")?;
        let variant = FieldIdentifierVariant::new(t, n)?;
        Ok(FieldIdentifier { variant, node_context: NodeContext::with_punctuation(t, n) })
    }

    pub fn build<'a>(&self, b: &'a DocBuilder<'a>, cm: &CommentMap, st: &mut BuildState) -> (r: DocRef<'a>)
        ensures
            final(st).printed@.len() == old(st).printed@.len(),
            exists|body: Seq<DocRef<'a>>| #[trigger] wraps(*r, body) && body.len() == 1 && field_identifier_doc(*body[0], self.variant),
    {
        let v = self.variant.build(b, cm, st);
        let mut body: Vec<DocRef<'a>> = Vec::new();
        body.push(v);
        let ghost body_v = body@;
        assert(body_v[0] == v);
        let r = with_comments_and_punc(b, cm, st, &self.node_context, body);
        assert(wraps(*r, body_v));
        r
    }
}

/// For a location function: the name, `(`, the two values a space apart,
/// then `)`.
pub open spec fn geo_function_layout<'a>(d: Doc<'a>) -> bool {
    let p = concat_parts(d);
    &&& d is Concat
    &&& p.len() == 6
    &&& is_text(*p[1], "("@)
    &&& is_text(*p[3], " "@)
    &&& is_text(*p[5], ")"@)
}

/// A location: a field, a bound expression, or `GEOLOCATION(lat lon)`.
pub enum GeoLocationTypeVariant {
    Field(FieldIdentifier),
    Bound(BoundApexExpression),
    Func { function_name: ValueNode, decimal1: ValueNode, decimal2: ValueNode },
}

impl GeoLocationTypeVariant {
    pub fn new(t: &SyntaxTree, n: usize) -> (r: Result<Self, String>)
        requires
            t.wf(),
            t.valid(n as int),
        ensures
            crate::accessor::code_children(t, n as int).len() == 0 ==> r is Err,
            crate::accessor::code_children(t, n as int).len() > 0 && t.nodes@[crate::accessor::code_children(t, n as int)[0] as int].kind@ != "field_identifier"@ && t.nodes@[crate::accessor::code_children(t, n as int)[0] as int].kind@ != "bound_apex_expression"@ && t.nodes@[crate::accessor::code_children(t, n as int)[0] as int].kind@ != "identifier"@ ==> r is Err,
            r matches Ok(v) ==> crate::accessor::code_children(t, n as int).len() > 0 && (v is Field ==> t.nodes@[crate::accessor::code_children(t, n as int)[0] as int].kind@ == "field_identifier"@) && (v is Bound ==> t.nodes@[crate::accessor::code_children(t, n as int)[0] as int].kind@ == "bound_apex_expression"@) && (v is Func ==> t.nodes@[crate::accessor::code_children(t, n as int)[0] as int].kind@ == "identifier"@),
            r matches Ok(GeoLocationTypeVariant::Func { .. }) ==> crate::accessor::kind_children(t, n as int, "decimal"@).len() == 2,
        decreases t.nodes@.len() - n, 1int,
    {
        let c = first_c(t, n)?;
        if kind_is(t, c, "field_identifier") {
            Ok(GeoLocationTypeVariant::Field(FieldIdentifier::new(t, c)?))
        } else if kind_is(t, c, "bound_apex_expression") {
            Ok(GeoLocationTypeVariant::Bound(BoundApexExpression::new(t, c)?))
        } else if kind_is(t, c, "identifier") {
            let ds = cs_by_k(t, n, "decimal")?;
            if ds.len() != 2 {
                return Err(owned("expect 2 decimal nodes in GeoLocationType"));
            }
            Ok(GeoLocationTypeVariant::Func {
                function_name: ValueNode::new(t, c)?,
                decimal1: ValueNode::new(t, ds[0])?,
                decimal2: ValueNode::new(t, ds[1])?,
            })
        } else {
            Err(panic_unknown_node(t, c, "GeoLocationType"))
        }
    }

    pub fn build<'a>(&self, b: &'a DocBuilder<'a>, cm: &CommentMap, st: &mut BuildState) -> (r: DocRef<'a>)
        ensures
            final(st).printed@.len() == old(st).printed@.len(),
            self is Func ==> geo_function_layout(*r),
        decreases self,
    {
        match self {
            GeoLocationTypeVariant::Field(v) => v.build(b, cm, st),
            GeoLocationTypeVariant::Bound(v) => v.build(b, cm, st),
            GeoLocationTypeVariant::Func { function_name, decimal1, decimal2 } => {
                let mut parts: Vec<DocRef<'a>> = Vec::new();
                let f = function_name.build(b, cm, st);
                parts.push(f);
                let o = b.txt("(");
                parts.push(o);
                let d1 = decimal1.build(b, cm, st);
                parts.push(d1);
                let s = b.txt(" ");
                parts.push(s);
                let d2 = decimal2.build(b, cm, st);
                parts.push(d2);
                let c = b.txt(")");
                parts.push(c);
                assert(parts@[1] == o && parts@[3] == s && parts@[5] == c);
                b.concat(parts)
            },
        }
    }
}

pub struct GeoLocationType {
    pub variant: GeoLocationTypeVariant,
    pub node_context: NodeContext,
}

impl GeoLocationType {
    pub fn new(t: &SyntaxTree, n: usize) -> (r: Result<Self, String>)
        requires
            t.wf(),
            t.valid(n as int),
        ensures
            r matches Ok(v) ==> v.node_context.id == n && t.nodes@[n as int].kind@ == "geo_location_type"@,
        decreases t.nodes@.len() - n, 2int,
    {
        assert_check(t, n, "geo_location_type")?;
        let variant = GeoLocationTypeVariant::new(t, n)?;
        Ok(GeoLocationType { variant, node_context: NodeContext::with_punctuation(t, n) })
    }

    pub fn build<'a>(&self, b: &'a DocBuilder<'a>, cm: &CommentMap, st: &mut BuildState) -> (r: DocRef<'a>)
        ensures
            final(st).printed@.len() == old(st).printed@.len(),
            exists|body: Seq<DocRef<'a>>| #[trigger] wraps(*r, body) && body.len() == 1 && (self.variant is Func ==> geo_function_layout(*body[0])),
        decreases self,
    {
        let v = self.variant.build(b, cm, st);
        let mut body: Vec<DocRef<'a>> = Vec::new();
        body.push(v);
        let ghost body_v = body@;
        let r = with_comments_and_punc(b, cm, st, &self.node_context, body);
        assert(wraps(*r, body_v));
        r
    }
}

/// A field or a function call, laid out as such.
pub open spec fn value_expression_doc<'a>(d: Doc<'a>, v: ValueExpression, indent: u32) -> bool {
    match v {
        ValueExpression::Field(f) => exists|body: Seq<DocRef<'a>>| #[trigger] wraps(d, body) && body.len() == 1 && field_identifier_doc(*body[0], f.variant),
        ValueExpression::Function(f) => exists|body: Seq<DocRef<'a>>| #[trigger] wraps(d, body) && body.len() == 1 && function_layout(*body[0], f.variant, indent),
    }
}

/// A field or a function call, as a value in a query.
pub enum ValueExpression {
    Field(FieldIdentifier),
    Function(Box<FunctionExpression>),
}

impl ValueExpression {
    pub fn new(t: &SyntaxTree, n: usize) -> (r: Result<Self, String>)
        requires
            t.wf(),
            t.valid(n as int),
        ensures
            (t.nodes@[n as int].kind@ != "field_identifier"@ && t.nodes@[n as int].kind@ != "function_expression"@) ==> r is Err,
            t.nodes@[n as int].kind@ == "field_identifier"@ ==> (r is Ok <==> name_child_ok(t, n as int)),
            r matches Ok(v) ==> (v is Field ==> t.nodes@[n as int].kind@ == "field_identifier"@),
            r matches Ok(v) ==> (v is Function ==> t.nodes@[n as int].kind@ == "function_expression"@),
        decreases t.nodes@.len() - n, 3int,
    {
        if kind_is(t, n, "field_identifier") {
            Ok(ValueExpression::Field(FieldIdentifier::new(t, n)?))
        } else if kind_is(t, n, "function_expression") {
            Ok(ValueExpression::Function(Box::new(FunctionExpression::new(t, n)?)))
        } else {
            Err(panic_unknown_node(t, n, "ValueExpression"))
        }
    }

    pub fn build<'a>(&self, b: &'a DocBuilder<'a>, cm: &CommentMap, st: &mut BuildState) -> (r: DocRef<'a>)
        ensures
            final(st).printed@.len() == old(st).printed@.len(),
            value_expression_doc(*r, *self, b.config.indent_size),
        decreases self,
    {
        match self {
            ValueExpression::Field(v) => v.build(b, cm, st),
            ValueExpression::Function(v) => v.build(b, cm, st),
        }
    }
}

/// The documents of a list of values.
fn build_value_exps<'a>(list: &Vec<ValueExpression>, b: &'a DocBuilder<'a>, cm: &CommentMap, st: &mut BuildState) -> (r: Vec<DocRef<'a>>)
    ensures
        final(st).printed@.len() == old(st).printed@.len(),
        r@.len() == list@.len(),
    decreases list,
{
    let ghost len0 = st.printed@.len();
    let mut docs: Vec<DocRef<'a>> = Vec::new();
    let mut i: usize = 0;
    while i < list.len()
        invariant
            st.printed@.len() == len0,
            i <= list@.len(),
            docs@.len() == i,
        decreases list@.len() - i,
    {
        let d = list[i].build(b, cm, st);
        docs.push(d);
        i = i + 1;
    }
    docs
}

/// The function name, then: for a distance, `(`, the field or bound value,
/// a space, the location, a space, the unit and `)`; else the values between
/// `(` and `)`, on one line when that fits.
pub open spec fn function_layout<'a>(d: Doc<'a>, v: FunctionExpressionVariant, indent: u32) -> bool {
    let p = concat_parts(d);
    &&& d is Concat
    &&& match v {
        FunctionExpressionVariant::WithGEO { field, bound, .. } => {
            let k: int = 2 + (if field is Some { 1int } else { 0int }) + (if bound is Some { 1int } else { 0int });
            &&& p.len() == k + 5
            &&& is_text(*p[1], "("@)
            &&& is_text(*p[k], " "@)
            &&& is_text(*p[k + 2], " "@)
            &&& is_text(*p[k + 4], ")"@)
        },
        FunctionExpressionVariant::WithoutGEO { value_exps, .. } => {
            &&& p.len() == 2
            &&& is_surrounded(*p[1], value_exps@.len(), "("@, ")"@, false, indent)
        },
    }
}

/// A function of fields: no location, and every code child after the first
/// names a field.
pub open spec fn function_of_fields(t: &SyntaxTree, n: int) -> bool {
    let cs = crate::accessor::code_children(t, n);
    &&& crate::accessor::kind_children(t, n, "geo_location_type"@).len() == 0
    &&& forall|j: int| 1 <= j < cs.len() ==> t.nodes@[#[trigger] cs[j] as int].kind@ == "field_identifier"@
}

/// Such a function that can be read: its name and the names of its fields.
pub open spec fn function_of_fields_ok(t: &SyntaxTree, n: int) -> bool {
    let cs = crate::accessor::code_children(t, n);
    &&& t.nodes@[n].kind@ == "function_expression"@
    &&& crate::data_model::readable_first(t, crate::accessor::field_children(t, n, "function_name"@))
    &&& forall|j: int| 1 <= j < cs.len() ==> name_child_ok(t, #[trigger] cs[j] as int)
}

/// A function call in a query: a distance over a location, or a function of
/// values.
pub enum FunctionExpressionVariant {
    WithGEO {
        function_name: ValueNode,
        field: Option<FieldIdentifier>,
        bound: Option<BoundApexExpression>,
        geo: GeoLocationType,
        string_literal: ValueNode,
    },
    WithoutGEO { function_name: ValueNode, value_exps: Vec<ValueExpression> },
}

impl FunctionExpressionVariant {
    pub fn new(t: &SyntaxTree, n: usize) -> (r: Result<Self, String>)
        requires
            t.wf(),
            t.valid(n as int),
        ensures
            r is Ok ==> t.nodes@[n as int].kind@ == "function_expression"@,
            function_of_fields(t, n as int) ==> (r is Ok <==> function_of_fields_ok(t, n as int)),
        decreases t.nodes@.len() - n, 1int,
    {
        assert_check(t, n, "function_expression")?;
        let f = c_by_n(t, n, "function_name")?;
        let function_name = ValueNode::new(t, f)?;
        match try_c_by_k(t, n, "geo_location_type") {
            Some(g) => {
                let field = match try_c_by_k(t, n, "field_identifier") {
                    Some(c) => Some(FieldIdentifier::new(t, c)?),
                    None => None,
                };
                let bound = match try_c_by_k(t, n, "bound_apex_expression") {
                    Some(c) => Some(BoundApexExpression::new(t, c)?),
                    None => None,
                };
                let geo = GeoLocationType::new(t, g)?;
                let s = c_by_k(t, n, "string_literal")?;
                let string_literal = ValueNode::new(t, s)?;
                Ok(FunctionExpressionVariant::WithGEO { function_name, field, bound, geo, string_literal })
            },
            None => {
                let cs = children_vec(t, n);
                let mut value_exps: Vec<ValueExpression> = Vec::new();
                let mut i: usize = 1;
                while i < cs.len()
                    invariant
                        t.wf(),
                        t.valid(n as int),
                        1 <= i,
                        cs@ == crate::accessor::code_children(t, n as int),
                        forall|j: int| 0 <= j < cs@.len() ==> n < #[trigger] cs@[j] < t.nodes@.len(),
                        forall|j: int| 1 <= j < i && j < cs@.len() ==> t.nodes@[#[trigger] cs@[j] as int].kind@ == "field_identifier"@
                            ==> name_child_ok(t, cs@[j] as int),
                    decreases cs@.len() - i,
                {
                    let v = match ValueExpression::new(t, cs[i]) {
                        Ok(v) => v,
                        Err(e) => {
                            assert(t.nodes@[cs@[i as int] as int].kind@ == "field_identifier"@ ==> !name_child_ok(t, cs@[i as int] as int));
                            return Err(e);
                        },
                    };
                    value_exps.push(v);
                    i = i + 1;
                }
                Ok(FunctionExpressionVariant::WithoutGEO { function_name, value_exps })
            },
        }
    }

    pub fn build<'a>(&self, b: &'a DocBuilder<'a>, cm: &CommentMap, st: &mut BuildState) -> (r: DocRef<'a>)
        ensures
            final(st).printed@.len() == old(st).printed@.len(),
            function_layout(*r, *self, b.config.indent_size),
        decreases self,
    {
        let mut parts: Vec<DocRef<'a>> = Vec::new();
        match self {
            FunctionExpressionVariant::WithGEO { function_name, field, bound, geo, string_literal } => {
                let f = function_name.build(b, cm, st);
                parts.push(f);
                let o = b.txt("(");
                parts.push(o);
                match field {
                    Some(x) => {
                        let d = x.build(b, cm, st);
                        parts.push(d);
                    },
                    None => {},
                }
                match bound {
                    Some(x) => {
                        let d = x.build(b, cm, st);
                        parts.push(d);
                    },
                    None => {},
                }
                let ghost k: int = parts@.len() as int;
                assert(parts@[1] == o);
                let s1 = b.txt(" ");
                parts.push(s1);
                let g = geo.build(b, cm, st);
                parts.push(g);
                let s2 = b.txt(" ");
                parts.push(s2);
                let l = string_literal.build(b, cm, st);
                parts.push(l);
                let c = b.txt(")");
                parts.push(c);
                assert(k == 2 + (if field is Some { 1int } else { 0int }) + (if bound is Some { 1int } else { 0int }));
                assert(parts@[1] == o && parts@[k] == s1 && parts@[k + 2] == s2 && parts@[k + 4] == c);
            },
            FunctionExpressionVariant::WithoutGEO { function_name, value_exps } => {
                let f = function_name.build(b, cm, st);
                parts.push(f);
                let docs = build_value_exps(value_exps, b, cm, st);
                let g = surround_group(b, docs.as_slice(), "(", ")", false);
                parts.push(g);
                assert(parts@[1] == g);
            },
        }
        b.concat(parts)
    }
}

pub struct FunctionExpression {
    pub variant: FunctionExpressionVariant,
    pub node_context: NodeContext,
}

impl FunctionExpression {
    pub fn new(t: &SyntaxTree, n: usize) -> (r: Result<Self, String>)
        requires
            t.wf(),
            t.valid(n as int),
        ensures
            r matches Ok(v) ==> v.node_context.id == n && t.nodes@[n as int].kind@ == "function_expression"@,
        decreases t.nodes@.len() - n, 2int,
    {
        assert_check(t, n, "function_expression")?;
        let variant = FunctionExpressionVariant::new(t, n)?;
        Ok(FunctionExpression { variant, node_context: NodeContext::with_punctuation(t, n) })
    }

    pub fn build<'a>(&self, b: &'a DocBuilder<'a>, cm: &CommentMap, st: &mut BuildState) -> (r: DocRef<'a>)
        ensures
            final(st).printed@.len() == old(st).printed@.len(),
            exists|body: Seq<DocRef<'a>>| #[trigger] wraps(*r, body) && body.len() == 1 && function_layout(*body[0], self.variant, b.config.indent_size),
        decreases self,
    {
        let v = self.variant.build(b, cm, st);
        let mut body: Vec<DocRef<'a>> = Vec::new();
        body.push(v);
        let ghost body_v = body@;
        let r = with_comments_and_punc(b, cm, st, &self.node_context, body);
        assert(wraps(*r, body_v));
        r
    }
}

/// The function name, then `()`.
pub open spec fn count_layout<'a>(body: Seq<DocRef<'a>>) -> bool {
    body.len() == 2 && is_text(*body[1], "()"@)
}

/// `COUNT()`
pub struct CountExpression {
    pub function_name: ValueNode,
    pub node_context: NodeContext,
}

impl CountExpression {
    pub fn new(t: &SyntaxTree, n: usize) -> (r: Result<Self, String>)
        requires
            t.wf(),
            t.valid(n as int),
        ensures
            r matches Ok(v) ==> v.node_context.id == n && t.nodes@[n as int].kind@ == "count_expression"@,
            r is Ok <==> t.nodes@[n as int].kind@ == "count_expression"@ && crate::data_model::readable_first(
                t,
                crate::accessor::field_children(t, n as int, "function_name"@),
            ),
            r matches Ok(v) ==> crate::data_model::read_from(
                t,
                crate::accessor::field_children(t, n as int, "function_name"@)[0] as int,
                v.function_name.node_context.id,
                v.function_name.value,
            ),
    {
        assert_check(t, n, "count_expression")?;
        let f = c_by_n(t, n, "function_name")?;
        let function_name = ValueNode::new(t, f)?;
        Ok(CountExpression { function_name, node_context: NodeContext::with_punctuation(t, n) })
    }

    pub fn build<'a>(&self, b: &'a DocBuilder<'a>, cm: &CommentMap, st: &mut BuildState) -> (r: DocRef<'a>)
        ensures
            final(st).printed@.len() == old(st).printed@.len(),
            exists|body: Seq<DocRef<'a>>| #[trigger] wraps(*r, body) && count_layout(body),
    {
        let f = self.function_name.build(b, cm, st);
        let p = b.txt("()");
        let mut body: Vec<DocRef<'a>> = Vec::new();
        body.push(f);
        body.push(p);
        let ghost body_v = body@;
        assert(count_layout(body_v));
        let r = with_comments_and_punc(b, cm, st, &self.node_context, body);
        assert(wraps(*r, body_v));
        r
    }
}

/// `FIELDS(`, the kind of fields, `)`.
pub open spec fn fields_layout<'a>(body: Seq<DocRef<'a>>) -> bool {
    body.len() == 3 && is_text(*body[0], "FIELDS("@) && is_text(*body[2], ")"@)
}

// ---------------------------------------------------------------------------
// SELECT and FROM.
// ---------------------------------------------------------------------------
/// `FIELDS(ALL)`
pub struct FieldsExpression {
    pub fields_type: ValueNodeUpperCase,
    pub node_context: NodeContext,
}

impl FieldsExpression {
    pub fn new(t: &SyntaxTree, n: usize) -> (r: Result<Self, String>)
        requires
            t.wf(),
            t.valid(n as int),
        ensures
            r matches Ok(v) ==> v.node_context.id == n && t.nodes@[n as int].kind@ == "fields_expression"@,
            r is Ok <==> t.nodes@[n as int].kind@ == "fields_expression"@ && crate::data_model::readable_first(
                t,
                crate::accessor::kind_children(t, n as int, "fields_type"@),
            ),
            r matches Ok(v) ==> crate::data_model::read_from(
                t,
                crate::accessor::kind_children(t, n as int, "fields_type"@)[0] as int,
                v.fields_type.node_context.id,
                v.fields_type.value,
            ),
    {
        assert_check(t, n, "fields_expression")?;
        let c = c_by_k(t, n, "fields_type")?;
        let fields_type = ValueNodeUpperCase::new(t, c)?;
        Ok(FieldsExpression { fields_type, node_context: NodeContext::with_punctuation(t, n) })
    }

    pub fn build<'a>(&self, b: &'a DocBuilder<'a>, cm: &CommentMap, st: &mut BuildState) -> (r: DocRef<'a>)
        ensures
            final(st).printed@.len() == old(st).printed@.len(),
            exists|body: Seq<DocRef<'a>>| #[trigger] wraps(*r, body) && fields_layout(body),
    {
        let o = b.txt("FIELDS(");
        let f = self.fields_type.build(b, cm, st);
        let c = b.txt(")");
        let mut body: Vec<DocRef<'a>> = Vec::new();
        body.push(o);
        body.push(f);
        body.push(c);
        let ghost body_v = body@;
        assert(fields_layout(body_v));
        let r = with_comments_and_punc(b, cm, st, &self.node_context, body);
        assert(wraps(*r, body_v));
        r
    }
}

/// The value, a space, its alias.
pub open spec fn alias_layout<'a>(body: Seq<DocRef<'a>>) -> bool {
    body.len() == 3 && is_text(*body[1], seq![' '])
}

/// `value alias`
pub struct AliasExpression {
    pub value_exp: ValueExpression,
    pub identifier: ValueNode,
    pub node_context: NodeContext,
}

impl AliasExpression {
    pub fn new(t: &SyntaxTree, n: usize) -> (r: Result<Self, String>)
        requires
            t.wf(),
            t.valid(n as int),
        ensures
            r matches Ok(v) ==> v.node_context.id == n && t.nodes@[n as int].kind@ == "alias_expression"@,
            crate::accessor::code_children(t, n as int).len() == 0 ==> r is Err,
            crate::accessor::code_children(t, n as int).len() > 0 && t.nodes@[crate::accessor::code_children(t, n as int)[0] as int].kind@
                == "field_identifier"@ ==> (r is Ok <==> t.nodes@[n as int].kind@ == "alias_expression"@
                && name_child_ok(t, crate::accessor::code_children(t, n as int)[0] as int)
                && crate::data_model::readable_first(t, crate::accessor::kind_children(t, n as int, "identifier"@))),
            r matches Ok(v) ==> crate::strs::bytes_of(v.identifier.value@) == crate::accessor::node_bytes(
                t,
                crate::accessor::kind_children(t, n as int, "identifier"@)[0] as int,
            ),
        decreases t.nodes@.len() - n, 1int,
    {
        assert_check(t, n, "alias_expression")?;
        let c = first_c(t, n)?;
        let value_exp = ValueExpression::new(t, c)?;
        let i = c_by_k(t, n, "identifier")?;
        let identifier = ValueNode::new(t, i)?;
        Ok(AliasExpression { value_exp, identifier, node_context: NodeContext::with_punctuation(t, n) })
    }

    pub fn build<'a>(&self, b: &'a DocBuilder<'a>, cm: &CommentMap, st: &mut BuildState) -> (r: DocRef<'a>)
        ensures
            final(st).printed@.len() == old(st).printed@.len(),
            exists|body: Seq<DocRef<'a>>| #[trigger] wraps(*r, body) && alias_layout(body),
        decreases self,
    {
        proof {
            reveal_strlit(" ");
            assert(" "@ =~= seq![' ']);
        }
        let v = self.value_exp.build(b, cm, st);
        let s = b.txt(" ");
        let i = self.identifier.build(b, cm, st);
        let mut body: Vec<DocRef<'a>> = Vec::new();
        body.push(v);
        body.push(s);
        body.push(i);
        let ghost body_v = body@;
        assert(alias_layout(body_v));
        let r = with_comments_and_punc(b, cm, st, &self.node_context, body);
        assert(wraps(*r, body_v));
        r
    }
}

/// The inner query between `(` and `)`, on one line when that fits.
pub open spec fn subquery_layout<'a>(body: Seq<DocRef<'a>>, cfg: PrettyConfig) -> bool {
    body.len() == 1 && crate::data_model::is_surrounded(*body[0], 1, "("@, ")"@, false, cfg.indent_size)
}

/// `(SELECT ...)` inside a query.
pub struct SubQuery {
    pub soql_query_body: Box<SoqlQueryBody>,
    pub node_context: NodeContext,
}

impl SubQuery {
    pub fn new(t: &SyntaxTree, n: usize) -> (r: Result<Self, String>)
        requires
            t.wf(),
            t.valid(n as int),
        ensures
            r matches Ok(v) ==> v.node_context.id == n,
        decreases t.nodes@.len() - n, 1int,
    {
        let c = c_by_k(t, n, "soql_query_body")?;
        let soql_query_body = Box::new(SoqlQueryBody::new(t, c)?);
        Ok(SubQuery { soql_query_body, node_context: NodeContext::with_punctuation(t, n) })
    }

    pub fn build<'a>(&self, b: &'a DocBuilder<'a>, cm: &CommentMap, st: &mut BuildState) -> (r: DocRef<'a>)
        ensures
            final(st).printed@.len() == old(st).printed@.len(),
            exists|body: Seq<DocRef<'a>>| #[trigger] wraps(*r, body) && subquery_layout(body, b.config),
        decreases self,
    {
        let q = self.soql_query_body.build(b, cm, st);
        let mut docs: Vec<DocRef<'a>> = Vec::new();
        docs.push(q);
        let g = surround_group(b, docs.as_slice(), "(", ")", false);
        let mut body: Vec<DocRef<'a>> = Vec::new();
        body.push(g);
        let ghost body_v = body@;
        assert(subquery_layout(body_v, b.config));
        let r = with_comments_and_punc(b, cm, st, &self.node_context, body);
        assert(wraps(*r, body_v));
        r
    }
}

/// A selected item, laid out as its kind says.
pub open spec fn selectable_doc<'a>(d: Doc<'a>, e: SelectableExpression, cfg: PrettyConfig) -> bool {
    match e {
        SelectableExpression::Value(v) => value_expression_doc(d, v, cfg.indent_size),
        SelectableExpression::Alias(_) => exists|body: Seq<DocRef<'a>>| #[trigger] wraps(d, body) && alias_layout(body),
        SelectableExpression::Fields(_) => exists|body: Seq<DocRef<'a>>| #[trigger] wraps(d, body) && fields_layout(body),
        SelectableExpression::Sub(_) => exists|body: Seq<DocRef<'a>>| #[trigger] wraps(d, body) && subquery_layout(body, cfg),
    }
}

/// Every code child of `n` names a field.
pub open spec fn names_fields(t: &SyntaxTree, n: int) -> bool {
    let cs = crate::accessor::code_children(t, n);
    forall|j: int| 0 <= j < cs.len() ==> t.nodes@[#[trigger] cs[j] as int].kind@ == "field_identifier"@
}

/// The name of every code child of `n` can be read.
pub open spec fn field_names_ok(t: &SyntaxTree, n: int) -> bool {
    let cs = crate::accessor::code_children(t, n);
    forall|j: int| 0 <= j < cs.len() ==> name_child_ok(t, #[trigger] cs[j] as int)
}

/// What can be selected.
pub enum SelectableExpression {
    Value(ValueExpression),
    Alias(AliasExpression),
    Fields(FieldsExpression),
    Sub(SubQuery),
}

impl SelectableExpression {
    pub fn new(t: &SyntaxTree, n: usize) -> (r: Result<Self, String>)
        requires
            t.wf(),
            t.valid(n as int),
        ensures
            (t.nodes@[n as int].kind@ != "field_identifier"@ && t.nodes@[n as int].kind@ != "function_expression"@ && t.nodes@[n as int].kind@ != "alias_expression"@ && t.nodes@[n as int].kind@ != "fields_expression"@ && t.nodes@[n as int].kind@ != "subquery"@) ==> r is Err,
            r matches Ok(v) ==> ((v matches SelectableExpression::Value(x) && x is Field) ==> t.nodes@[n as int].kind@ == "field_identifier"@),
            r matches Ok(v) ==> ((v matches SelectableExpression::Value(x) && x is Function) ==> t.nodes@[n as int].kind@ == "function_expression"@),
            r matches Ok(v) ==> (v is Alias ==> t.nodes@[n as int].kind@ == "alias_expression"@),
            r matches Ok(v) ==> (v is Fields ==> t.nodes@[n as int].kind@ == "fields_expression"@),
            r matches Ok(v) ==> (v is Sub ==> t.nodes@[n as int].kind@ == "subquery"@),
            t.nodes@[n as int].kind@ == "field_identifier"@ ==> (r is Ok <==> name_child_ok(t, n as int)),
        decreases t.nodes@.len() - n, 3int,
    {
        if kind_is(t, n, "field_identifier") {
            Ok(SelectableExpression::Value(ValueExpression::Field(FieldIdentifier::new(t, n)?)))
        } else if kind_is(t, n, "function_expression") {
            Ok(SelectableExpression::Value(ValueExpression::Function(Box::new(FunctionExpression::new(t, n)?))))
        } else if kind_is(t, n, "alias_expression") {
            Ok(SelectableExpression::Alias(AliasExpression::new(t, n)?))
        } else if kind_is(t, n, "fields_expression") {
            Ok(SelectableExpression::Fields(FieldsExpression::new(t, n)?))
        } else if kind_is(t, n, "subquery") {
            Ok(SelectableExpression::Sub(SubQuery::new(t, n)?))
        } else {
            Err(panic_unknown_node(t, n, "SelectableExpression"))
        }
    }

    pub fn build<'a>(&self, b: &'a DocBuilder<'a>, cm: &CommentMap, st: &mut BuildState) -> (r: DocRef<'a>)
        ensures
            final(st).printed@.len() == old(st).printed@.len(),
            selectable_doc(*r, *self, b.config),
        decreases self,
    {
        match self {
            SelectableExpression::Value(v) => v.build(b, cm, st),
            SelectableExpression::Alias(v) => v.build(b, cm, st),
            SelectableExpression::Fields(v) => v.build(b, cm, st),
            SelectableExpression::Sub(v) => v.build(b, cm, st),
        }
    }
}

/// Selectable expressions read from the code children of a node.
fn selectables_of(t: &SyntaxTree, n: usize) -> (r: Result<Vec<SelectableExpression>, String>)
    requires
        t.wf(),
        t.valid(n as int),
    ensures
        r matches Ok(v) ==> v@.len() == crate::accessor::code_children(t, n as int).len(),
        names_fields(t, n as int) ==> (r is Ok <==> field_names_ok(t, n as int)),
    decreases t.nodes@.len() - n, 0int,
{
    let cs = children_vec(t, n);
    let mut v: Vec<SelectableExpression> = Vec::new();
    let mut i: usize = 0;
    while i < cs.len()
        invariant
            t.wf(),
            t.valid(n as int),
            i <= cs@.len(),
            v@.len() == i,
            cs@ == crate::accessor::code_children(t, n as int),
            forall|j: int| 0 <= j < cs@.len() ==> n < #[trigger] cs@[j] < t.nodes@.len(),
            forall|j: int| 0 <= j < i ==> t.nodes@[#[trigger] cs@[j] as int].kind@ == "field_identifier"@ ==> name_child_ok(t, cs@[j] as int),
        decreases cs@.len() - i,
    {
        let x = match SelectableExpression::new(t, cs[i]) {
            Ok(x) => x,
            Err(e) => {
                assert(t.nodes@[cs@[i as int] as int].kind@ == "field_identifier"@ ==> !name_child_ok(t, cs@[i as int] as int));
                return Err(e);
            },
        };
        v.push(x);
        i = i + 1;
    }
    Ok(v)
}

/// The documents of selectable expressions.
fn build_selectables<'a>(list: &Vec<SelectableExpression>, b: &'a DocBuilder<'a>, cm: &CommentMap, st: &mut BuildState) -> (r: Vec<DocRef<'a>>)
    ensures
        final(st).printed@.len() == old(st).printed@.len(),
        r@.len() == list@.len(),
        forall|i: int| 0 <= i < list@.len() ==> selectable_doc(*#[trigger] r@[i], list@[i], b.config),
    decreases list,
{
    let ghost len0 = st.printed@.len();
    let mut docs: Vec<DocRef<'a>> = Vec::new();
    let mut i: usize = 0;
    while i < list.len()
        invariant
            st.printed@.len() == len0,
            i <= list@.len(),
            docs@.len() == i,
            forall|k: int| 0 <= k < i ==> selectable_doc(*#[trigger] docs@[k], list@[k], b.config),
        decreases list@.len() - i,
    {
        let d = list[i].build(b, cm, st);
        docs.push(d);
        i = i + 1;
    }
    docs
}

/// A `SELECT` of fields alone, without `COUNT()`.
pub open spec fn selects_fields(t: &SyntaxTree, n: int) -> bool {
    crate::accessor::kind_children(t, n, "count_expression"@).len() == 0 && names_fields(t, n)
}

/// Such a clause that can be read.
pub open spec fn selects_fields_ok(t: &SyntaxTree, n: int) -> bool {
    t.nodes@[n].kind@ == "select_clause"@ && field_names_ok(t, n)
}

/// `SELECT COUNT()` or `SELECT a, b`.
pub enum SelectClauseVariant {
    Count(CountExpression),
    Selectable(Vec<SelectableExpression>),
}

impl SelectClauseVariant {
    pub fn new(t: &SyntaxTree, n: usize) -> (r: Result<Self, String>)
        requires
            t.wf(),
            t.valid(n as int),
        ensures
            r is Ok ==> t.nodes@[n as int].kind@ == "select_clause"@,
            selects_fields(t, n as int) ==> (r is Ok <==> selects_fields_ok(t, n as int)),
        decreases t.nodes@.len() - n, 1int,
    {
        assert_check(t, n, "select_clause")?;
        match try_c_by_k(t, n, "count_expression") {
            Some(c) => Ok(SelectClauseVariant::Count(CountExpression::new(t, c)?)),
            None => Ok(SelectClauseVariant::Selectable(selectables_of(t, n)?)),
        }
    }

    /// `SELECT`, then the fields, indented, broken one to a line when the
    /// clause does not fit.
    pub fn build<'a>(&self, b: &'a DocBuilder<'a>, cm: &CommentMap, st: &mut BuildState) -> (r: DocRef<'a>)
        ensures
            final(st).printed@.len() == old(st).printed@.len(),
            is_select(*r),
        decreases self,
    {
        let mut docs: Vec<DocRef<'a>> = Vec::new();
        let w = b.txt("SELECT");
        docs.push(w);
        let sl = b.softline();
        let isl = b.indent(sl);
        docs.push(isl);
        match self {
            SelectClauseVariant::Count(c) => {
                let d = c.build(b, cm, st);
                docs.push(d);
            },
            SelectClauseVariant::Selectable(v) => {
                let ds = build_selectables(v, b, cm, st);
                let j = soft_join(b, ds.as_slice());
                let ij = b.indent(j);
                docs.push(ij);
            },
        }
        b.group_concat(docs)
    }
}

/// `SELECT` and the selected fields after an indented soft line break, on
/// one line when that fits.
pub open spec fn is_select<'a>(d: Doc<'a>) -> bool {
    &&& d is Choice
    &&& *d->Choice_0 == Doc::Flat(d->Choice_1)
    &&& *d->Choice_1 is Concat
    &&& concat_parts(*d->Choice_1).len() == 3
    &&& is_text(*concat_parts(*d->Choice_1)[0], "SELECT"@)
}

/// The `SELECT` clause with its comments.
pub open spec fn select_layout<'a>(body: Seq<DocRef<'a>>) -> bool {
    body.len() == 1 && is_select(*body[0])
}

pub struct SelectClause {
    pub variant: SelectClauseVariant,
    pub node_context: NodeContext,
}

impl SelectClause {
    pub fn new(t: &SyntaxTree, n: usize) -> (r: Result<Self, String>)
        requires
            t.wf(),
            t.valid(n as int),
        ensures
            r matches Ok(v) ==> v.node_context.id == n && t.nodes@[n as int].kind@ == "select_clause"@,
            selects_fields(t, n as int) ==> (r is Ok <==> selects_fields_ok(t, n as int)),
        decreases t.nodes@.len() - n, 2int,
    {
        assert_check(t, n, "select_clause")?;
        let variant = SelectClauseVariant::new(t, n)?;
        Ok(SelectClause { variant, node_context: NodeContext::with_punctuation(t, n) })
    }

    pub fn build<'a>(&self, b: &'a DocBuilder<'a>, cm: &CommentMap, st: &mut BuildState) -> (r: DocRef<'a>)
        ensures
            final(st).printed@.len() == old(st).printed@.len(),
            exists|body: Seq<DocRef<'a>>| #[trigger] wraps(*r, body) && select_layout(body),
        decreases self,
    {
        let v = self.variant.build(b, cm, st);
        let mut body: Vec<DocRef<'a>> = Vec::new();
        body.push(v);
        let ghost body_v = body@;
        assert(select_layout(body_v));
        let r = with_comments_and_punc(b, cm, st, &self.node_context, body);
        assert(wraps(*r, body_v));
        r
    }
}

/// A storage name as written, or its parts each two apart by `.`.
pub open spec fn storage_identifier_doc<'a>(d: Doc<'a>, v: StorageIdentifierVariant) -> bool {
    match v {
        StorageIdentifierVariant::Identifier(x) => wraps_text(d, x.value@),
        StorageIdentifierVariant::Dotted(x) => is_joined(d, x@.len(), "."@),
    }
}

/// An object name: a name or a dotted path.
pub enum StorageIdentifierVariant {
    Identifier(ValueNode),
    Dotted(Vec<ValueNode>),
}

impl StorageIdentifierVariant {
    pub fn new(t: &SyntaxTree, n: usize) -> (r: Result<Self, String>)
        requires
            t.wf(),
            t.valid(n as int),
        ensures
            r is Ok <==> t.nodes@[n as int].kind@ == "storage_identifier"@ && name_child_ok(t, n as int),
            r matches Ok(v) ==> (v is Identifier ==> t.nodes@[crate::accessor::code_children(t, n as int)[0] as int].kind@ == "identifier"@) && (v is Dotted ==> t.nodes@[crate::accessor::code_children(t, n as int)[0] as int].kind@ == "dotted_identifier"@),
            r is Ok ==> t.nodes@[n as int].kind@ == "storage_identifier"@,
    {
        proof {
            reveal_strlit("identifier");
            reveal_strlit("dotted_identifier");
            assert("identifier"@.len() != "dotted_identifier"@.len());
        }
        assert_check(t, n, "storage_identifier")?;
        let c = first_c(t, n)?;
        if kind_is(t, c, "identifier") {
            Ok(StorageIdentifierVariant::Identifier(ValueNode::new(t, c)?))
        } else if kind_is(t, c, "dotted_identifier") {
            let cs = cs_by_k(t, c, "identifier")?;
            Ok(StorageIdentifierVariant::Dotted(values_of(t, c, &cs)?))
        } else {
            Err(panic_unknown_node(t, c, "StorageIdentifier"))
        }
    }

    pub fn build<'a>(&self, b: &'a DocBuilder<'a>, cm: &CommentMap, st: &mut BuildState) -> (r: DocRef<'a>)
        ensures
            final(st).printed@.len() == old(st).printed@.len(),
            storage_identifier_doc(*r, *self),
    {
        match self {
            StorageIdentifierVariant::Identifier(v) => v.build(b, cm, st),
            StorageIdentifierVariant::Dotted(v) => {
                let docs = build_values(v, b, cm, st);
                join(b, docs.as_slice(), ".")
            },
        }
    }
}

pub struct StorageIdentifier {
    pub variant: StorageIdentifierVariant,
    pub node_context: NodeContext,
}

impl StorageIdentifier {
    pub fn new(t: &SyntaxTree, n: usize) -> (r: Result<Self, String>)
        requires
            t.wf(),
            t.valid(n as int),
        ensures
            r is Ok <==> t.nodes@[n as int].kind@ == "storage_identifier"@ && name_child_ok(t, n as int),
            r matches Ok(v) ==> v.node_context.id == n && t.nodes@[n as int].kind@ == "storage_identifier"@,
    {
        assert_check(t, n, "storage_identifier")?;
        let variant = StorageIdentifierVariant::new(t, n)?;
        Ok(StorageIdentifier { variant, node_context: NodeContext::with_punctuation(t, n) })
    }

    pub fn build<'a>(&self, b: &'a DocBuilder<'a>, cm: &CommentMap, st: &mut BuildState) -> (r: DocRef<'a>)
        ensures
            final(st).printed@.len() == old(st).printed@.len(),
            exists|body: Seq<DocRef<'a>>| #[trigger] wraps(*r, body) && body.len() == 1 && storage_identifier_doc(*body[0], self.variant),
    {
        let v = self.variant.build(b, cm, st);
        let mut body: Vec<DocRef<'a>> = Vec::new();
        body.push(v);
        let ghost body_v = body@;
        assert(body_v[0] == v);
        let r = with_comments_and_punc(b, cm, st, &self.node_context, body);
        assert(wraps(*r, body_v));
        r
    }
}

/// The object, a space, its alias.
pub open spec fn storage_alias_layout<'a>(body: Seq<DocRef<'a>>) -> bool {
    body.len() == 3 && is_text(*body[1], seq![' '])
}

/// `Account a`
pub struct StorageAlias {
    pub storage_identifier: StorageIdentifier,
    pub identifier: ValueNode,
    pub node_context: NodeContext,
}

impl StorageAlias {
    pub fn new(t: &SyntaxTree, n: usize) -> (r: Result<Self, String>)
        requires
            t.wf(),
            t.valid(n as int),
        ensures
            r is Ok <==> t.nodes@[n as int].kind@ == "storage_alias"@ && crate::accessor::kind_children(t, n as int, "storage_identifier"@).len() > 0 && t.nodes@[crate::accessor::kind_children(t, n as int, "storage_identifier"@)[0] as int].kind@ == "storage_identifier"@ && name_child_ok(t, crate::accessor::kind_children(t, n as int, "storage_identifier"@)[0] as int) && crate::accessor::kind_children(t, n as int, "identifier"@).len() > 0 && crate::accessor::readable(t, crate::accessor::kind_children(t, n as int, "identifier"@)[0] as int),
            r matches Ok(v) ==> v.node_context.id == n && t.nodes@[n as int].kind@ == "storage_alias"@,
    {
        assert_check(t, n, "storage_alias")?;
        let s = c_by_k(t, n, "storage_identifier")?;
        let storage_identifier = StorageIdentifier::new(t, s)?;
        let i = c_by_k(t, n, "identifier")?;
        let identifier = ValueNode::new(t, i)?;
        Ok(StorageAlias { storage_identifier, identifier, node_context: NodeContext::with_punctuation(t, n) })
    }

    pub fn build<'a>(&self, b: &'a DocBuilder<'a>, cm: &CommentMap, st: &mut BuildState) -> (r: DocRef<'a>)
        ensures
            final(st).printed@.len() == old(st).printed@.len(),
            exists|body: Seq<DocRef<'a>>| #[trigger] wraps(*r, body) && storage_alias_layout(body),
    {
        proof {
            reveal_strlit(" ");
            assert(" "@ =~= seq![' ']);
        }
        let s = self.storage_identifier.build(b, cm, st);
        let sp = b.txt(" ");
        let i = self.identifier.build(b, cm, st);
        let mut body: Vec<DocRef<'a>> = Vec::new();
        body.push(s);
        body.push(sp);
        body.push(i);
        let ghost body_v = body@;
        assert(storage_alias_layout(body_v));
        let r = with_comments_and_punc(b, cm, st, &self.node_context, body);
        assert(wraps(*r, body_v));
        r
    }
}

/// What follows `FROM`.
pub enum StorageVariant {
    Identifier(StorageIdentifier),
    Alias(StorageAlias),
}

impl StorageVariant {
    pub fn new(t: &SyntaxTree, n: usize) -> (r: Result<Self, String>)
        requires
            t.wf(),
            t.valid(n as int),
        ensures
            t.nodes@[n as int].kind@ == "storage_identifier"@ ==> (r is Ok <==> name_child_ok(t, n as int)),
            t.nodes@[n as int].kind@ == "storage_alias"@ ==> (r is Ok <==> crate::accessor::kind_children(t, n as int, "storage_identifier"@).len() > 0 && t.nodes@[crate::accessor::kind_children(t, n as int, "storage_identifier"@)[0] as int].kind@ == "storage_identifier"@ && name_child_ok(t, crate::accessor::kind_children(t, n as int, "storage_identifier"@)[0] as int) && crate::accessor::kind_children(t, n as int, "identifier"@).len() > 0 && crate::accessor::readable(t, crate::accessor::kind_children(t, n as int, "identifier"@)[0] as int)),
            (t.nodes@[n as int].kind@ != "storage_alias"@ && t.nodes@[n as int].kind@ != "storage_identifier"@) ==> r is Err,
            r matches Ok(v) ==> (v is Alias ==> t.nodes@[n as int].kind@ == "storage_alias"@),
            r matches Ok(v) ==> (v is Identifier ==> t.nodes@[n as int].kind@ == "storage_identifier"@),
    {
        proof {
            reveal_strlit("storage_alias");
            reveal_strlit("storage_identifier");
            assert("storage_alias"@.len() != "storage_identifier"@.len());
        }
        if kind_is(t, n, "storage_alias") {
            Ok(StorageVariant::Alias(StorageAlias::new(t, n)?))
        } else if kind_is(t, n, "storage_identifier") {
            Ok(StorageVariant::Identifier(StorageIdentifier::new(t, n)?))
        } else {
            Err(panic_unknown_node(t, n, "StorageVariant"))
        }
    }

    pub fn build<'a>(&self, b: &'a DocBuilder<'a>, cm: &CommentMap, st: &mut BuildState) -> (r: DocRef<'a>)
        ensures
            final(st).printed@.len() == old(st).printed@.len(),
            *self matches StorageVariant::Identifier(x) ==> exists|body: Seq<DocRef<'a>>| #[trigger] wraps(*r, body) && body.len() == 1 && storage_identifier_doc(*body[0], x.variant),
            self is Alias ==> exists|body: Seq<DocRef<'a>>| #[trigger] wraps(*r, body) && storage_alias_layout(body),
    {
        match self {
            StorageVariant::Identifier(v) => v.build(b, cm, st),
            StorageVariant::Alias(v) => v.build(b, cm, st),
        }
    }
}

/// `FROM ` and the objects.
pub open spec fn from_layout<'a>(body: Seq<DocRef<'a>>) -> bool {
    body.len() == 2 && is_text(*body[0], "FROM"@ + seq![' '])
}

/// A `FROM` of an object named without an alias.
pub open spec fn from_object(t: &SyntaxTree, n: int) -> bool {
    let cs = crate::accessor::code_children(t, n);
    cs.len() > 0 ==> t.nodes@[cs[0] as int].kind@ == "storage_identifier"@
}

/// Such a clause that can be read.
pub open spec fn from_object_ok(t: &SyntaxTree, n: int) -> bool {
    let cs = crate::accessor::code_children(t, n);
    t.nodes@[n].kind@ == "from_clause"@ && cs.len() > 0 && name_child_ok(t, cs[0] as int)
}

/// `FROM object`
pub struct FromClause {
    pub content: StorageVariant,
    pub node_context: NodeContext,
}

impl FromClause {
    pub fn new(t: &SyntaxTree, n: usize) -> (r: Result<Self, String>)
        requires
            t.wf(),
            t.valid(n as int),
        ensures
            r matches Ok(v) ==> v.node_context.id == n && t.nodes@[n as int].kind@ == "from_clause"@,
            from_object(t, n as int) ==> (r is Ok <==> from_object_ok(t, n as int)),
    {
        assert_check(t, n, "from_clause")?;
        let c = first_c(t, n)?;
        let content = StorageVariant::new(t, c)?;
        Ok(FromClause { content, node_context: NodeContext::with_punctuation(t, n) })
    }

    pub fn build<'a>(&self, b: &'a DocBuilder<'a>, cm: &CommentMap, st: &mut BuildState) -> (r: DocRef<'a>)
        ensures
            final(st).printed@.len() == old(st).printed@.len(),
            exists|body: Seq<DocRef<'a>>| #[trigger] wraps(*r, body) && from_layout(body),
    {
        let w = b.txt_("FROM");
        let c = self.content.build(b, cm, st);
        let mut body: Vec<DocRef<'a>> = Vec::new();
        body.push(w);
        body.push(c);
        let ghost body_v = body@;
        assert(from_layout(body_v));
        let r = with_comments_and_punc(b, cm, st, &self.node_context, body);
        assert(wraps(*r, body_v));
        r
    }
}

// ---------------------------------------------------------------------------
// Conditions.
// ---------------------------------------------------------------------------
/// What a value is compared with.
pub enum ValueComparedWith {
    Literal(SoqlLiteral),
    Bound(BoundApexExpression),
}

/// `= value`, `LIKE value`, ...
pub struct ValueComparison {
    pub operator: String,
    pub compared_with: ValueComparedWith,
}

/// A member of a list compared with.
pub enum ComparableListValue {
    Literal(SoqlLiteral),
    Bound(BoundApexExpression),
}

impl ComparableListValue {
    pub fn new(t: &SyntaxTree, n: usize) -> (r: Result<Self, String>)
        requires
            t.wf(),
            t.valid(n as int),
        ensures
            is_plain_literal_kind(t.nodes@[n as int].kind@) ==> (r is Ok <==> crate::accessor::readable(t, n as int)),
        decreases t.nodes@.len() - n, 3int,
    {
        proof {
            lemma_plain_literal_kinds(t.nodes@[n as int].kind@);
        }
        if kind_is(t, n, "bound_apex_expression") {
            Ok(ComparableListValue::Bound(BoundApexExpression::new(t, n)?))
        } else {
            Ok(ComparableListValue::Literal(SoqlLiteral::new(t, n)?))
        }
    }

    pub fn build<'a>(&self, b: &'a DocBuilder<'a>, cm: &CommentMap, st: &mut BuildState) -> (r: DocRef<'a>)
        ensures
            final(st).printed@.len() == old(st).printed@.len(),
            *self matches ComparableListValue::Literal(l) ==> soql_literal_doc(*r, l),
            self is Bound ==> exists|body: Seq<DocRef<'a>>| #[trigger] wraps(*r, body) && bound_layout(body),
        decreases self,
    {
        match self {
            ComparableListValue::Literal(v) => v.build(b, cm, st),
            ComparableListValue::Bound(v) => v.build(b, cm, st),
        }
    }
}

/// The values between `(` and `)`, on one line when that fits.
pub open spec fn comparable_list_layout<'a>(body: Seq<DocRef<'a>>, s: ComparableList, cfg: PrettyConfig) -> bool {
    body.len() == 1 && crate::data_model::is_surrounded(*body[0], s.values@.len(), "("@, ")"@, false, cfg.indent_size)
}

/// Every code child of `n` is a literal read as its text alone.
pub open spec fn holds_plain_literals(t: &SyntaxTree, n: int) -> bool {
    let cs = crate::accessor::code_children(t, n);
    forall|j: int| 0 <= j < cs.len() ==> is_plain_literal_kind(t.nodes@[#[trigger] cs[j] as int].kind@)
}

/// `(a, b, c)` compared with.
pub struct ComparableList {
    pub values: Vec<ComparableListValue>,
    pub node_context: NodeContext,
}

impl ComparableList {
    pub fn new(t: &SyntaxTree, n: usize) -> (r: Result<Self, String>)
        requires
            t.wf(),
            t.valid(n as int),
        ensures
            r matches Ok(v) ==> v.node_context.id == n,
            holds_plain_literals(t, n as int) ==> (r is Ok <==> forall|j: int| 0 <= j < crate::accessor::code_children(t, n as int).len()
                ==> crate::accessor::readable(t, #[trigger] crate::accessor::code_children(t, n as int)[j] as int)),
            r matches Ok(v) ==> v.values@.len() == crate::accessor::code_children(t, n as int).len(),
        decreases t.nodes@.len() - n, 1int,
    {
        let cs = children_vec(t, n);
        let mut values: Vec<ComparableListValue> = Vec::new();
        let mut i: usize = 0;
        while i < cs.len()
            invariant
                t.wf(),
                t.valid(n as int),
                i <= cs@.len(),
                values@.len() == i,
                cs@ == crate::accessor::code_children(t, n as int),
                forall|j: int| 0 <= j < cs@.len() ==> n < #[trigger] cs@[j] < t.nodes@.len(),
                forall|j: int| 0 <= j < i ==> is_plain_literal_kind(t.nodes@[#[trigger] cs@[j] as int].kind@)
                    ==> crate::accessor::readable(t, cs@[j] as int),
            decreases cs@.len() - i,
        {
            let v = match ComparableListValue::new(t, cs[i]) {
                Ok(v) => v,
                Err(e) => {
                    assert(is_plain_literal_kind(t.nodes@[cs@[i as int] as int].kind@) ==> !crate::accessor::readable(t, cs@[i as int] as int));
                    return Err(e);
                },
            };
            values.push(v);
            i = i + 1;
        }
        Ok(ComparableList { values, node_context: NodeContext::with_punctuation(t, n) })
    }

    pub fn build<'a>(&self, b: &'a DocBuilder<'a>, cm: &CommentMap, st: &mut BuildState) -> (r: DocRef<'a>)
        ensures
            final(st).printed@.len() == old(st).printed@.len(),
            exists|body: Seq<DocRef<'a>>| #[trigger] wraps(*r, body) && comparable_list_layout(body, *self, b.config),
        decreases self,
    {
        let ghost len0 = st.printed@.len();
        let mut docs: Vec<DocRef<'a>> = Vec::new();
        let mut i: usize = 0;
        while i < self.values.len()
            invariant
                st.printed@.len() == len0,
                i <= self.values@.len(),
                docs@.len() == i,
            decreases self.values@.len() - i,
        {
            let d = self.values[i].build(b, cm, st);
            docs.push(d);
            i = i + 1;
        }
        let g = surround_group(b, docs.as_slice(), "(", ")", false);
        let mut body: Vec<DocRef<'a>> = Vec::new();
        body.push(g);
        let ghost body_v = body@;
        assert(comparable_list_layout(body_v, *self, b.config));
        let r = with_comments_and_punc(b, cm, st, &self.node_context, body);
        assert(wraps(*r, body_v));
        r
    }
}

/// What a set is compared with: a subquery, a list in parentheses or a
/// bound value, laid out as such.
pub open spec fn set_value_doc<'a>(d: Doc<'a>, v: SetValue, cfg: PrettyConfig) -> bool {
    match v {
        SetValue::Sub(_) => exists|body: Seq<DocRef<'a>>| #[trigger] wraps(d, body) && subquery_layout(body, cfg),
        SetValue::List(l) => exists|body: Seq<DocRef<'a>>| #[trigger] wraps(d, body) && comparable_list_layout(body, l, cfg),
        SetValue::Bound(_) => exists|body: Seq<DocRef<'a>>| #[trigger] wraps(d, body) && bound_layout(body),
    }
}

/// What a set comparison tests membership in.
pub enum SetValue {
    Sub(SubQuery),
    List(ComparableList),
    Bound(BoundApexExpression),
}

impl SetValue {
    pub fn new(t: &SyntaxTree, n: usize) -> (r: Result<Self, String>)
        requires
            t.wf(),
            t.valid(n as int),
        ensures
            (t.nodes@[n as int].kind@ != "subquery"@ && t.nodes@[n as int].kind@ != "comparable_list"@ && t.nodes@[n as int].kind@ != "bound_apex_expression"@) ==> r is Err,
            r matches Ok(v) ==> (v is Sub ==> t.nodes@[n as int].kind@ == "subquery"@),
            r matches Ok(v) ==> (v is List ==> t.nodes@[n as int].kind@ == "comparable_list"@),
            r matches Ok(v) ==> (v is Bound ==> t.nodes@[n as int].kind@ == "bound_apex_expression"@),
        decreases t.nodes@.len() - n, 2int,
    {
        if kind_is(t, n, "subquery") {
            Ok(SetValue::Sub(SubQuery::new(t, n)?))
        } else if kind_is(t, n, "comparable_list") {
            Ok(SetValue::List(ComparableList::new(t, n)?))
        } else if kind_is(t, n, "bound_apex_expression") {
            Ok(SetValue::Bound(BoundApexExpression::new(t, n)?))
        } else {
            Err(panic_unknown_node(t, n, "SetValue"))
        }
    }

    pub fn build<'a>(&self, b: &'a DocBuilder<'a>, cm: &CommentMap, st: &mut BuildState) -> (r: DocRef<'a>)
        ensures
            final(st).printed@.len() == old(st).printed@.len(),
            set_value_doc(*r, *self, b.config),
        decreases self,
    {
        match self {
            SetValue::Sub(v) => v.build(b, cm, st),
            SetValue::List(v) => v.build(b, cm, st),
            SetValue::Bound(v) => v.build(b, cm, st),
        }
    }
}

/// `IN (...)`, `NOT IN ...`, `INCLUDES ...`
pub struct SetComparison {
    pub operator: String,
    pub set_value: SetValue,
}

/// The operator with a space on each side, then what is compared with.
pub open spec fn comparison_doc<'a>(d: Doc<'a>, c: Comparison, cfg: PrettyConfig) -> bool {
    &&& d is Concat
    &&& concat_parts(d).len() == 2
    &&& match c {
        Comparison::Value(v) => is_text(*concat_parts(d)[0], seq![' '] + v.operator@ + seq![' ']) && (
        v.compared_with matches ValueComparedWith::Literal(l) ==> soql_literal_doc(*concat_parts(d)[1], l)),
        Comparison::SetCmp(x) => is_text(*concat_parts(d)[0], seq![' '] + x.operator@ + seq![' ']) && set_value_doc(
            *concat_parts(d)[1],
            x.set_value,
            cfg,
        ),
    }
}

/// A comparison after a value.
pub enum Comparison {
    Value(ValueComparison),
    SetCmp(SetComparison),
}

impl Comparison {
    /// The operator between spaces, then what is compared with.
    pub fn build<'a>(&self, b: &'a DocBuilder<'a>, cm: &CommentMap, st: &mut BuildState) -> (r: DocRef<'a>)
        ensures
            final(st).printed@.len() == old(st).printed@.len(),
            comparison_doc(*r, *self, b.config),
        decreases self,
    {
        match self {
            Comparison::Value(v) => {
                let o = b._txt_(v.operator.as_str());
                let w = match &v.compared_with {
                    ValueComparedWith::Literal(l) => l.build(b, cm, st),
                    ValueComparedWith::Bound(x) => x.build(b, cm, st),
                };
                pair(b, o, w)
            },
            Comparison::SetCmp(s) => {
                let o = b._txt_(s.operator.as_str());
                let w = s.set_value.build(b, cm, st);
                pair(b, o, w)
            },
        }
    }
}

/// The first code child after child position `k` of node `n`.
fn next_code_child(t: &SyntaxTree, n: usize, k: usize) -> (r: Result<usize, String>)
    requires
        t.wf(),
        t.valid(n as int),
        k < t.nodes@[n as int].children@.len(),
    ensures
        r matches Ok(c) ==> n < c < t.nodes@.len(),
        r is Ok <==> crate::accessor::code_pos_from(t, n as int, k + 1) is Some,
        r matches Ok(c) ==> c == t.nodes@[n as int].children@[crate::accessor::code_pos_from(t, n as int, k + 1)->0],
{
    let node = &t.nodes[n];
    let len: usize = node.children.len();
    let mut i: usize = k + 1;
    while i < node.children.len()
        invariant
            t.wf(),
            t.valid(n as int),
            node == &t.nodes@[n as int],
            k + 1 <= i,
            crate::accessor::code_pos_from(t, n as int, i as int) == crate::accessor::code_pos_from(t, n as int, k + 1),
        decreases node.children@.len() - i,
    {
        let c = node.children[i];
        assert(t.nodes@[n as int].children@[i as int] == c);
        if t.nodes[c].is_named && !t.nodes[c].is_extra {
            return Ok(c);
        }
        i = i + 1;
    }
    Err(concat3("## ", t.nodes[n].kind.as_str(), ": next_named node missing."))
}

/// The position and node of the first child of a kind.
fn child_position(t: &SyntaxTree, n: usize, kind: &str) -> (r: Option<(usize, usize)>)
    requires
        t.wf(),
        t.valid(n as int),
    ensures
        r matches Some((k, c)) ==> n < c < t.nodes@.len() && k < t.nodes@[n as int].children@.len(),
        r is Some <==> crate::accessor::kind_pos_from(t, n as int, 0, kind@) is Some,
        r matches Some((k, c)) ==> crate::accessor::kind_pos_from(t, n as int, 0, kind@) == Some(k as int)
            && c == t.nodes@[n as int].children@[k as int],
{
    let node = &t.nodes[n];
    let mut i: usize = 0;
    while i < node.children.len()
        invariant
            t.wf(),
            t.valid(n as int),
            node == &t.nodes@[n as int],
            crate::accessor::kind_pos_from(t, n as int, i as int, kind@) == crate::accessor::kind_pos_from(t, n as int, 0, kind@),
        decreases node.children@.len() - i,
    {
        let c = node.children[i];
        assert(t.nodes@[n as int].children@[i as int] == c);
        if kind_is(t, c, kind) {
            return Some((i, c));
        }
        i = i + 1;
    }
    None
}

/// A value comparison whose compared node, where there is one, is a
/// literal read as its text alone.
pub open spec fn compares_to_plain_literal(t: &SyntaxTree, n: int) -> bool {
    crate::accessor::kind_pos_from(t, n, 0, "value_comparison_operator"@) matches Some(k) && (crate::accessor::code_pos_from(t, n, k + 1)
        matches Some(p) ==> is_plain_literal_kind(t.nodes@[t.nodes@[n].children@[p] as int].kind@))
}

/// Such a comparison that can be read: the operator and a compared node
/// after it.
pub open spec fn plain_comparison_ok(t: &SyntaxTree, n: int) -> bool {
    crate::accessor::kind_pos_from(t, n, 0, "value_comparison_operator"@) matches Some(k) && crate::accessor::readable(
        t,
        t.nodes@[n].children@[k] as int,
    ) && (crate::accessor::code_pos_from(t, n, k + 1) matches Some(p) && crate::accessor::readable(
        t,
        t.nodes@[n].children@[p] as int,
    ))
}

/// The comparison in node `n`: its operator, and the code node that follows
/// it.
pub fn get_comparison(t: &SyntaxTree, n: usize) -> (r: Result<Comparison, String>)
    requires
        t.wf(),
        t.valid(n as int),
    ensures
        (crate::accessor::kind_pos_from(t, n as int, 0, "value_comparison_operator"@) is None
            && crate::accessor::kind_pos_from(t, n as int, 0, "set_comparison_operator"@) is None) ==> r is Err,
        r matches Ok(Comparison::Value(v)) ==> (crate::accessor::kind_pos_from(t, n as int, 0, "value_comparison_operator"@)
            matches Some(k) && crate::strs::bytes_of(v.operator@) == crate::accessor::node_bytes(
            t,
            t.nodes@[n as int].children@[k] as int,
        )),
        r matches Ok(Comparison::SetCmp(c)) ==> crate::accessor::kind_pos_from(t, n as int, 0, "value_comparison_operator"@)
            is None && (crate::accessor::kind_pos_from(t, n as int, 0, "set_comparison_operator"@) matches Some(k)
            && crate::strs::bytes_of(c.operator@) == crate::accessor::node_bytes(t, t.nodes@[n as int].children@[k] as int)),
        compares_to_plain_literal(t, n as int) ==> (r is Ok <==> plain_comparison_ok(t, n as int)),
    decreases t.nodes@.len() - n, 0int,
{
    match child_position(t, n, "value_comparison_operator") {
        Some((k, o)) => {
            let next = next_code_child(t, n, k)?;
            proof {
                lemma_plain_literal_kinds(t.nodes@[next as int].kind@);
            }
            let compared_with = if kind_is(t, next, "bound_apex_expression") {
                ValueComparedWith::Bound(BoundApexExpression::new(t, next)?)
            } else {
                ValueComparedWith::Literal(SoqlLiteral::new(t, next)?)
            };
            Ok(Comparison::Value(ValueComparison { operator: value(t, o)?, compared_with }))
        },
        None => match child_position(t, n, "set_comparison_operator") {
            Some((k, o)) => {
                let next = next_code_child(t, n, k)?;
                Ok(Comparison::SetCmp(SetComparison { operator: value(t, o)?, set_value: SetValue::new(t, next)? }))
            },
            None => Err(owned("## comparison operator missing")),
        },
    }
}

/// `value op compared`
pub struct ComparisonExpression {
    pub value: Box<ValueExpression>,
    pub comparison: Comparison,
    pub node_context: NodeContext,
}

impl ComparisonExpression {
    pub fn new(t: &SyntaxTree, n: usize) -> (r: Result<Self, String>)
        requires
            t.wf(),
            t.valid(n as int),
        ensures
            r matches Ok(v) ==> v.node_context.id == n && t.nodes@[n as int].kind@ == "comparison_expression"@,
            compares_to_plain_literal(t, n as int) && starts_with_field(t, n as int) ==> (r is Ok
                <==> t.nodes@[n as int].kind@ == "comparison_expression"@ && name_child_ok(
                t,
                crate::accessor::code_children(t, n as int)[0] as int,
            ) && plain_comparison_ok(t, n as int)),
        decreases t.nodes@.len() - n, 1int,
    {
        assert_check(t, n, "comparison_expression")?;
        let c = first_c(t, n)?;
        let value = Box::new(ValueExpression::new(t, c)?);
        let comparison = get_comparison(t, n)?;
        Ok(ComparisonExpression { value, comparison, node_context: NodeContext::with_punctuation(t, n) })
    }

    pub fn build<'a>(&self, b: &'a DocBuilder<'a>, cm: &CommentMap, st: &mut BuildState) -> (r: DocRef<'a>)
        ensures
            final(st).printed@.len() == old(st).printed@.len(),
            exists|body: Seq<DocRef<'a>>| #[trigger] wraps(*r, body) && body.len() == 2 && value_expression_doc(*body[0], *self.value, b.config.indent_size) && comparison_doc(*body[1], self.comparison, b.config),
        decreases self,
    {
        let v = self.value.build(b, cm, st);
        let c = self.comparison.build(b, cm, st);
        let mut body: Vec<DocRef<'a>> = Vec::new();
        body.push(v);
        body.push(c);
        let ghost body_v = body@;
        assert(body_v[0] == v && body_v[1] == c);
        let r = with_comments_and_punc(b, cm, st, &self.node_context, body);
        assert(wraps(*r, body_v));
        r
    }
}

/// The boolean operators of a condition.
#[derive(Clone, Copy, PartialEq, Eq, Structural)]
pub enum BoolOp {
    And,
    Or,
    Not,
}

/// Whether an operand with operator `child` needs parentheses under the
/// operator `parent`: always, unless both are the same operator.
pub open spec fn spec_should_parenthesize(parent: Option<BoolOp>, child: Option<BoolOp>) -> bool {
    !(parent is Some && child is Some && parent == child)
}

pub fn should_parenthesize(parent: Option<BoolOp>, child: Option<BoolOp>) -> (r: bool)
    ensures
        r == spec_should_parenthesize(parent, child),
        parent is None || child is None ==> r,
        parent is Some && child is Some ==> (r <==> parent->0 != child->0),
{
    match (parent, child) {
        (Some(p), Some(c)) => !(p == c),
        _ => true,
    }
}

/// An operand under a boolean operator needs parentheses exactly when the
/// two operators differ; with no operator on either side it always gets
/// them.
pub proof fn law_parentheses_exactly_when_operators_differ(parent: BoolOp, child: BoolOp)
    ensures
        spec_should_parenthesize(Some(parent), Some(child)) <==> parent != child,
        spec_should_parenthesize(None, Some(child)),
        spec_should_parenthesize(Some(parent), None),
{
}

/// The document of a condition under the operator `parent`: a nested boolean
/// expression is its own document alone when its operator is `parent`, and
/// between `(` and `)` otherwise.
pub open spec fn condition_doc<'a>(d: Doc<'a>, c: ConditionExpression, parent: Option<BoolOp>, cfg: PrettyConfig) -> bool
    decreases c,
{
    match c {
        ConditionExpression::Comparison(x) => exists|body: Seq<DocRef<'a>>|
            #[trigger] wraps(d, body) && body.len() == 2 && value_expression_doc(*body[0], *x.value, cfg.indent_size)
                && comparison_doc(*body[1], x.comparison, cfg),
        ConditionExpression::Bool(e) => if parent is Some && parent == e.spec_operator() {
            bool_doc(d, *e, parent, cfg)
        } else {
            &&& d is Concat
            &&& concat_parts(d).len() == 3
            &&& is_text(*concat_parts(d)[0], "("@)
            &&& is_text(*concat_parts(d)[2], ")"@)
            &&& bool_doc(*concat_parts(d)[1], *e, e.spec_operator(), cfg)
        },
    }
}

/// The document of a boolean expression under the operator `parent`: an
/// `AND` or `OR` chain has the document of its condition `i` at element `i`
/// of the chain, each under the chain's operator; `NOT` has its condition's
/// document under `NOT` after the word; a single condition is its document
/// under `parent`.
pub open spec fn bool_doc<'a>(d: Doc<'a>, e: BooleanExpression, parent: Option<BoolOp>, cfg: PrettyConfig) -> bool
    decreases e,
{
    match e {
        BooleanExpression::And(x) => exists|body: Seq<DocRef<'a>>|
            #[trigger] wraps(d, body) && and_layout(body, x) && forall|i: int|
                0 <= i < x.condition_exps@.len() ==> condition_doc(
                    *concat_parts(*body[0])[3 * i],
                    #[trigger] x.condition_exps@[i],
                    Some(BoolOp::And),
                    cfg,
                ),
        BooleanExpression::Or(x) => exists|body: Seq<DocRef<'a>>|
            #[trigger] wraps(d, body) && or_layout(body, x) && forall|i: int|
                0 <= i < x.condition_exps@.len() ==> condition_doc(
                    *concat_parts(*body[0])[3 * i],
                    #[trigger] x.condition_exps@[i],
                    Some(BoolOp::Or),
                    cfg,
                ),
        BooleanExpression::Not(x) => exists|body: Seq<DocRef<'a>>|
            #[trigger] wraps(d, body) && not_layout(body) && condition_doc(
                *concat_parts(*body[0])[1],
                x.condition_exp,
                Some(BoolOp::Not),
                cfg,
            ),
        BooleanExpression::Condition(c) => condition_doc(d, *c, parent, cfg),
    }
}

/// A nested `AND`, `OR` or `NOT` under an operator other than its own is
/// printed between parentheses around its own document; under its own
/// operator it is printed without them. So the printed condition groups as
/// the model does.
pub proof fn law_nested_condition_parentheses<'a>(d: Doc<'a>, e: BooleanExpression, parent: Option<BoolOp>, cfg: PrettyConfig)
    requires
        condition_doc(d, ConditionExpression::Bool(Box::new(e)), parent, cfg),
        !(e is Condition),
    ensures
        parent != e.spec_operator() || parent is None ==> d is Concat && concat_parts(d).len() == 3 && is_text(*concat_parts(d)[0], "("@)
            && is_text(*concat_parts(d)[2], ")"@) && bool_doc(*concat_parts(d)[1], e, e.spec_operator(), cfg),
        parent is Some && parent == e.spec_operator() ==> bool_doc(d, e, parent, cfg),
        (e is And && parent == Some(BoolOp::Or)) ==> is_text(*concat_parts(d)[0], "("@),
        (e is Or && parent == Some(BoolOp::And)) ==> is_text(*concat_parts(d)[0], "("@),
{
}

/// `a AND b AND ...`, `a OR b OR ...`, `NOT a`, or a single condition.
pub enum BooleanExpression {
    And(AndExpression),
    Or(OrExpression),
    Not(NotExpression),
    Condition(Box<ConditionExpression>),
}

impl BooleanExpression {
    pub fn new(t: &SyntaxTree, n: usize) -> (r: Result<Self, String>)
        requires
            t.wf(),
            t.valid(n as int),
        ensures
            r matches Ok(v) ==> (v is And ==> t.nodes@[n as int].kind@ == "and_expression"@),
            r matches Ok(v) ==> (v is Or ==> t.nodes@[n as int].kind@ == "or_expression"@),
            r matches Ok(v) ==> (v is Not ==> t.nodes@[n as int].kind@ == "not_expression"@),
            r matches Ok(v) ==> (v is Condition ==> (t.nodes@[n as int].kind@ != "and_expression"@ && t.nodes@[n as int].kind@ != "or_expression"@ && t.nodes@[n as int].kind@ != "not_expression"@)),
        decreases t.nodes@.len() - n, 3int,
    {
        if kind_is(t, n, "and_expression") {
            Ok(BooleanExpression::And(AndExpression::new(t, n)?))
        } else if kind_is(t, n, "or_expression") {
            Ok(BooleanExpression::Or(OrExpression::new(t, n)?))
        } else if kind_is(t, n, "not_expression") {
            Ok(BooleanExpression::Not(NotExpression::new(t, n)?))
        } else {
            Ok(BooleanExpression::Condition(Box::new(ConditionExpression::new(t, n)?)))
        }
    }

    /// The operator of the expression, if it is a compound one.
    pub open spec fn spec_operator(self) -> Option<BoolOp> {
        match self {
            BooleanExpression::And(_) => Some(BoolOp::And),
            BooleanExpression::Or(_) => Some(BoolOp::Or),
            BooleanExpression::Not(_) => Some(BoolOp::Not),
            BooleanExpression::Condition(_) => None,
        }
    }

    pub fn operator(&self) -> (r: Option<BoolOp>)
        ensures
            r == self.spec_operator(),
    {
        match self {
            BooleanExpression::And(_) => Some(BoolOp::And),
            BooleanExpression::Or(_) => Some(BoolOp::Or),
            BooleanExpression::Not(_) => Some(BoolOp::Not),
            BooleanExpression::Condition(_) => None,
        }
    }

    /// The expression under the operator `parent_op`, which a single
    /// condition passes to its operand.
    pub fn build_with_parent<'a>(&self, b: &'a DocBuilder<'a>, cm: &CommentMap, st: &mut BuildState, parent_op: Option<BoolOp>) -> (r:
        DocRef<'a>)
        ensures
            final(st).printed@.len() == old(st).printed@.len(),
            *self matches BooleanExpression::And(x) ==> exists|body: Seq<DocRef<'a>>| #[trigger] wraps(*r, body) && and_layout(body, x),
            *self matches BooleanExpression::Or(x) ==> exists|body: Seq<DocRef<'a>>| #[trigger] wraps(*r, body) && or_layout(body, x),
            self is Not ==> exists|body: Seq<DocRef<'a>>| #[trigger] wraps(*r, body) && not_layout(body),
            bool_doc(*r, *self, parent_op, b.config),
            (*self matches BooleanExpression::Condition(c) && *c matches ConditionExpression::Bool(e) && spec_should_parenthesize(
                parent_op,
                e.spec_operator(),
            )) ==> *r is Concat && concat_parts(*r).len() == 3 && is_text(*concat_parts(*r)[0], "("@) && is_text(
                *concat_parts(*r)[2],
                ")"@,
            ),
        decreases self,
    {
        match self {
            BooleanExpression::And(x) => x.build(b, cm, st),
            BooleanExpression::Or(x) => x.build(b, cm, st),
            BooleanExpression::Not(x) => x.build(b, cm, st),
            BooleanExpression::Condition(x) => x.build_with_parent(b, cm, st, parent_op),
        }
    }
}

/// An operand of a boolean operator: a nested boolean expression or a
/// comparison.
pub enum ConditionExpression {
    Bool(Box<BooleanExpression>),
    Comparison(ComparisonExpression),
}

impl ConditionExpression {
    pub fn new(t: &SyntaxTree, n: usize) -> (r: Result<Self, String>)
        requires
            t.wf(),
            t.valid(n as int),
        ensures
            (t.nodes@[n as int].kind@ != "comparison_expression"@ && t.nodes@[n as int].kind@ != "and_expression"@ && t.nodes@[n as int].kind@ != "or_expression"@ && t.nodes@[n as int].kind@ != "not_expression"@) ==> r is Err,
            r matches Ok(v) ==> (v is Comparison ==> t.nodes@[n as int].kind@ == "comparison_expression"@),
            r matches Ok(v) ==> ((v matches ConditionExpression::Bool(b) && *b is And) ==> t.nodes@[n as int].kind@ == "and_expression"@),
            r matches Ok(v) ==> ((v matches ConditionExpression::Bool(b) && *b is Or) ==> t.nodes@[n as int].kind@ == "or_expression"@),
            r matches Ok(v) ==> ((v matches ConditionExpression::Bool(b) && *b is Not) ==> t.nodes@[n as int].kind@ == "not_expression"@),
        decreases t.nodes@.len() - n, 2int,
    {
        if kind_is(t, n, "comparison_expression") {
            Ok(ConditionExpression::Comparison(ComparisonExpression::new(t, n)?))
        } else if kind_is(t, n, "and_expression") {
            Ok(ConditionExpression::Bool(Box::new(BooleanExpression::And(AndExpression::new(t, n)?))))
        } else if kind_is(t, n, "or_expression") {
            Ok(ConditionExpression::Bool(Box::new(BooleanExpression::Or(OrExpression::new(t, n)?))))
        } else if kind_is(t, n, "not_expression") {
            Ok(ConditionExpression::Bool(Box::new(BooleanExpression::Not(NotExpression::new(t, n)?))))
        } else {
            Err(panic_unknown_node(t, n, "ConditionExpression"))
        }
    }

    /// A nested expression in parentheses unless its operator is the
    /// parent's; a comparison as it is.
    pub fn build_with_parent<'a>(&self, b: &'a DocBuilder<'a>, cm: &CommentMap, st: &mut BuildState, parent_op: Option<BoolOp>) -> (r:
        DocRef<'a>)
        ensures
            final(st).printed@.len() == old(st).printed@.len(),
            (self matches ConditionExpression::Bool(e) && spec_should_parenthesize(parent_op, e.spec_operator())) ==> *r is Concat
                && concat_parts(*r).len() == 3 && is_text(*concat_parts(*r)[0], "("@) && is_text(
                *concat_parts(*r)[2],
                ")"@,
            ),
            condition_doc(*r, *self, parent_op, b.config),
        decreases self,
    {
        match self {
            ConditionExpression::Comparison(c) => c.build(b, cm, st),
            ConditionExpression::Bool(e) => {
                let child_op = e.operator();
                let d = e.build_with_parent(b, cm, st, child_op);
                if should_parenthesize(parent_op, child_op) {
                    let o = b.txt("(");
                    let c = b.txt(")");
                    let mut parts: Vec<DocRef<'a>> = Vec::new();
                    parts.push(o);
                    parts.push(d);
                    parts.push(c);
                    b.concat(parts)
                } else {
                    d
                }
            },
        }
    }
}

/// Conditions read from the code children of a node.
fn conditions_of(t: &SyntaxTree, n: usize) -> (r: Result<Vec<ConditionExpression>, String>)
    requires
        t.wf(),
        t.valid(n as int),
    ensures
        r matches Ok(v) ==> v@.len() == crate::accessor::code_children(t, n as int).len(),
    decreases t.nodes@.len() - n, 0int,
{
    let cs = children_vec(t, n);
    let mut v: Vec<ConditionExpression> = Vec::new();
    let mut i: usize = 0;
    while i < cs.len()
        invariant
            t.wf(),
            t.valid(n as int),
            i <= cs@.len(),
            v@.len() == i,
            forall|j: int| 0 <= j < cs@.len() ==> n < #[trigger] cs@[j] < t.nodes@.len(),
        decreases cs@.len() - i,
    {
        let x = ConditionExpression::new(t, cs[i])?;
        v.push(x);
        i = i + 1;
    }
    Ok(v)
}

/// Conditions under an operator, separated by a line that breaks when the
/// group does not fit and the operator word.
fn build_conditions<'a>(list: &Vec<ConditionExpression>, b: &'a DocBuilder<'a>, cm: &CommentMap, st: &mut BuildState, op: BoolOp, word: &str) -> (r:
    DocRef<'a>)
    ensures
        final(st).printed@.len() == old(st).printed@.len(),
        *r is Concat,
        word_joined(concat_parts(*r), list@.len(), word@),
        forall|i: int| 0 <= i < list@.len() ==> condition_doc(*concat_parts(*r)[3 * i], #[trigger] list@[i], Some(op), b.config),
    decreases list,
{
    let ghost len0 = st.printed@.len();
    let mut docs: Vec<DocRef<'a>> = Vec::new();
    let mut i: usize = 0;
    while i < list.len()
        invariant
            st.printed@.len() == len0,
            i <= list@.len(),
            docs@.len() == i,
            forall|j: int| 0 <= j < i ==> condition_doc(*docs@[j], #[trigger] list@[j], Some(op), b.config),
        decreases list@.len() - i,
    {
        let d = list[i].build_with_parent(b, cm, st, Some(op));
        docs.push(d);
        i = i + 1;
    }
    let sl = b.softline();
    let sep = b.insertable(Some(sl), Some(word), None);
    proof {
        let t = sep.text->0;
        assert(crate::doc_builder::insertable_parts(sep) =~= seq![sl, t]);
        lemma_interspersed_word(docs@, sl, t, word@);
    }
    let r = b.intersperse(docs.as_slice(), &sep);
    proof {
        assert forall|i: int| 0 <= i < list@.len() implies condition_doc(*concat_parts(*r)[3 * i], #[trigger] list@[i], Some(op), b.config) by {
            assert(concat_parts(*r)[3 * i] == docs@[i]);
        }
    }
    r
}

/// The first part after element `i` of a list joined by a break and a word.
pub open spec fn break_after<'a>(parts: Seq<DocRef<'a>>, i: int) -> DocRef<'a> {
    parts[3 * i + 1]
}

/// The second part after element `i` of a list joined by a break and a word.
pub open spec fn word_after<'a>(parts: Seq<DocRef<'a>>, i: int) -> DocRef<'a> {
    parts[3 * i + 2]
}

/// `parts` holds `n` documents with, between each two, a soft line break and
/// the text `word`.
pub open spec fn word_joined<'a>(parts: Seq<DocRef<'a>>, n: nat, word: Seq<char>) -> bool {
    &&& n > 0 ==> parts.len() == 3 * n - 2
    &&& n == 0 ==> parts.len() == 0
    &&& forall|i: int| 0 <= i < n - 1 ==> *#[trigger] break_after(parts, i) == Doc::Softline
    &&& forall|i: int| 0 <= i < n - 1 ==> is_text(*#[trigger] word_after(parts, i), word)
}

proof fn lemma_interspersed_word<'a>(docs: Seq<DocRef<'a>>, sl: DocRef<'a>, t: DocRef<'a>, word: Seq<char>)
    requires
        *sl == Doc::Softline,
        is_text(*t, word),
    ensures
        word_joined(crate::doc_builder::interspersed(docs, seq![sl, t]), docs.len(), word),
        forall|i: int| 0 <= i < docs.len() ==> crate::doc_builder::interspersed(docs, seq![sl, t])[3 * i] == #[trigger] docs[i],
    decreases docs.len(),
{
    let p = crate::doc_builder::interspersed(docs, seq![sl, t]);
    if docs.len() > 1 {
        let d0 = docs.drop_last();
        lemma_interspersed_word(d0, sl, t, word);
        let p0 = crate::doc_builder::interspersed(d0, seq![sl, t]);
        assert(p == p0 + seq![sl, t] + seq![docs.last()]);
        assert forall|i: int| 0 <= i < docs.len() - 1 implies *#[trigger] break_after(p, i) == Doc::Softline by {
            if i < docs.len() - 2 {
                assert(break_after(p0, i) == p0[3 * i + 1]);
            }
        }
        assert forall|i: int| 0 <= i < docs.len() - 1 implies is_text(*#[trigger] word_after(p, i), word) by {
            if i < docs.len() - 2 {
                assert(word_after(p0, i) == p0[3 * i + 2]);
            }
        }
        assert forall|i: int| 0 <= i < docs.len() implies p[3 * i] == #[trigger] docs[i] by {
            if i < docs.len() - 1 {
                assert(p0[3 * i] == d0[i]);
            }
        }
    } else if docs.len() == 1 {
        assert(p == seq![docs[0]]);
    }
}

/// The conditions, each after the first on a new line when the whole does
/// not fit, led by `AND `.
pub open spec fn and_layout<'a>(body: Seq<DocRef<'a>>, s: AndExpression) -> bool {
    body.len() == 1 && *body[0] is Concat && word_joined(concat_parts(*body[0]), s.condition_exps@.len(), "AND "@)
}

/// `a AND b AND c`
pub struct AndExpression {
    pub condition_exps: Vec<ConditionExpression>,
    pub node_context: NodeContext,
}

impl AndExpression {
    pub fn new(t: &SyntaxTree, n: usize) -> (r: Result<Self, String>)
        requires
            t.wf(),
            t.valid(n as int),
        ensures
            r matches Ok(v) ==> v.node_context.id == n && t.nodes@[n as int].kind@ == "and_expression"@,
        decreases t.nodes@.len() - n, 1int,
    {
        assert_check(t, n, "and_expression")?;
        let condition_exps = conditions_of(t, n)?;
        Ok(AndExpression { condition_exps, node_context: NodeContext::with_punctuation(t, n) })
    }

    pub fn build<'a>(&self, b: &'a DocBuilder<'a>, cm: &CommentMap, st: &mut BuildState) -> (r: DocRef<'a>)
        ensures
            final(st).printed@.len() == old(st).printed@.len(),
            exists|body: Seq<DocRef<'a>>| #[trigger] wraps(*r, body) && and_layout(body, *self),
            bool_doc(*r, BooleanExpression::And(*self), None, b.config),
        decreases self,
    {
        let d = build_conditions(&self.condition_exps, b, cm, st, BoolOp::And, "AND ");
        let mut body: Vec<DocRef<'a>> = Vec::new();
        body.push(d);
        let ghost body_v = body@;
        assert(and_layout(body_v, *self));
        let r = with_comments_and_punc(b, cm, st, &self.node_context, body);
        assert(wraps(*r, body_v));
        r
    }
}

/// The conditions, each after the first on a new line when the whole does
/// not fit, led by `OR `.
pub open spec fn or_layout<'a>(body: Seq<DocRef<'a>>, s: OrExpression) -> bool {
    body.len() == 1 && *body[0] is Concat && word_joined(concat_parts(*body[0]), s.condition_exps@.len(), "OR "@)
}

/// `a OR b OR c`
pub struct OrExpression {
    pub condition_exps: Vec<ConditionExpression>,
    pub node_context: NodeContext,
}

impl OrExpression {
    pub fn new(t: &SyntaxTree, n: usize) -> (r: Result<Self, String>)
        requires
            t.wf(),
            t.valid(n as int),
        ensures
            r matches Ok(v) ==> v.node_context.id == n && t.nodes@[n as int].kind@ == "or_expression"@,
        decreases t.nodes@.len() - n, 1int,
    {
        assert_check(t, n, "or_expression")?;
        let condition_exps = conditions_of(t, n)?;
        Ok(OrExpression { condition_exps, node_context: NodeContext::with_punctuation(t, n) })
    }

    pub fn build<'a>(&self, b: &'a DocBuilder<'a>, cm: &CommentMap, st: &mut BuildState) -> (r: DocRef<'a>)
        ensures
            final(st).printed@.len() == old(st).printed@.len(),
            exists|body: Seq<DocRef<'a>>| #[trigger] wraps(*r, body) && or_layout(body, *self),
            bool_doc(*r, BooleanExpression::Or(*self), None, b.config),
        decreases self,
    {
        let d = build_conditions(&self.condition_exps, b, cm, st, BoolOp::Or, "OR ");
        let mut body: Vec<DocRef<'a>> = Vec::new();
        body.push(d);
        let ghost body_v = body@;
        assert(or_layout(body_v, *self));
        let r = with_comments_and_punc(b, cm, st, &self.node_context, body);
        assert(wraps(*r, body_v));
        r
    }
}

/// `NOT ` and the condition.
pub open spec fn not_layout<'a>(body: Seq<DocRef<'a>>) -> bool {
    &&& body.len() == 1
    &&& *body[0] is Concat
    &&& concat_parts(*body[0]).len() == 2
    &&& is_text(*concat_parts(*body[0])[0], "NOT"@ + seq![' '])
}

/// `NOT a`
pub struct NotExpression {
    pub condition_exp: ConditionExpression,
    pub node_context: NodeContext,
}

impl NotExpression {
    pub fn new(t: &SyntaxTree, n: usize) -> (r: Result<Self, String>)
        requires
            t.wf(),
            t.valid(n as int),
        ensures
            r matches Ok(v) ==> v.node_context.id == n && t.nodes@[n as int].kind@ == "not_expression"@,
        decreases t.nodes@.len() - n, 1int,
    {
        assert_check(t, n, "not_expression")?;
        let c = first_c(t, n)?;
        let condition_exp = ConditionExpression::new(t, c)?;
        Ok(NotExpression { condition_exp, node_context: NodeContext::with_punctuation(t, n) })
    }

    pub fn build<'a>(&self, b: &'a DocBuilder<'a>, cm: &CommentMap, st: &mut BuildState) -> (r: DocRef<'a>)
        ensures
            final(st).printed@.len() == old(st).printed@.len(),
            exists|body: Seq<DocRef<'a>>| #[trigger] wraps(*r, body) && not_layout(body),
            bool_doc(*r, BooleanExpression::Not(*self), None, b.config),
        decreases self,
    {
        let e = self.condition_exp.build_with_parent(b, cm, st, Some(BoolOp::Not));
        let w = b.txt_("NOT");
        let d = pair(b, w, e);
        let mut body: Vec<DocRef<'a>> = Vec::new();
        body.push(d);
        let ghost body_v = body@;
        assert(not_layout(body_v));
        let r = with_comments_and_punc(b, cm, st, &self.node_context, body);
        assert(wraps(*r, body_v));
        r
    }
}

/// A keyword and a condition, grouped, the condition indented on the next
/// line when the group does not fit.
fn keyword_condition<'a>(b: &'a DocBuilder<'a>, word: &str, d: DocRef<'a>) -> (r: DocRef<'a>)
    ensures
        is_keyword_condition(*r, word@),
        concat_parts(*inner(*r->Choice_1).unwrap())[2] == d,
{
    let w = b.txt(word);
    let sl = b.softline();
    let mut docs: Vec<DocRef<'a>> = Vec::new();
    docs.push(w);
    docs.push(sl);
    docs.push(d);
    b.group_indent_concat(docs)
}

/// `WHERE` and the condition after a soft line break, grouped and indented.
pub open spec fn where_layout<'a>(body: Seq<DocRef<'a>>) -> bool {
    body.len() == 1 && is_keyword_condition(*body[0], "WHERE"@)
}

/// The condition after `WHERE`, laid out as `bool_doc` says at the top.
pub open spec fn where_condition<'a>(body: Seq<DocRef<'a>>, s: WhereClause, cfg: PrettyConfig) -> bool {
    bool_doc(*concat_parts(*inner(*body[0]->Choice_1).unwrap())[2], s.boolean_exp, None, cfg)
}

/// `WHERE condition`
pub struct WhereClause {
    pub boolean_exp: BooleanExpression,
    pub node_context: NodeContext,
}

impl WhereClause {
    pub fn new(t: &SyntaxTree, n: usize) -> (r: Result<Self, String>)
        requires
            t.wf(),
            t.valid(n as int),
        ensures
            r matches Ok(v) ==> v.node_context.id == n && t.nodes@[n as int].kind@ == "where_clause"@,
        decreases t.nodes@.len() - n, 1int,
    {
        assert_check(t, n, "where_clause")?;
        let c = first_c(t, n)?;
        let boolean_exp = BooleanExpression::new(t, c)?;
        Ok(WhereClause { boolean_exp, node_context: NodeContext::with_punctuation(t, n) })
    }

    pub fn build<'a>(&self, b: &'a DocBuilder<'a>, cm: &CommentMap, st: &mut BuildState) -> (r: DocRef<'a>)
        ensures
            final(st).printed@.len() == old(st).printed@.len(),
            exists|body: Seq<DocRef<'a>>| #[trigger] wraps(*r, body) && where_layout(body),
            exists|body: Seq<DocRef<'a>>| #[trigger] wraps(*r, body) && where_layout(body) && where_condition(body, *self, b.config),
        decreases self,
    {
        let e = self.boolean_exp.build_with_parent(b, cm, st, None);
        let g = keyword_condition(b, "WHERE", e);
        let mut body: Vec<DocRef<'a>> = Vec::new();
        body.push(g);
        let ghost body_v = body@;
        assert(where_layout(body_v));
        assert(where_condition(body_v, *self, b.config));
        let r = with_comments_and_punc(b, cm, st, &self.node_context, body);
        assert(wraps(*r, body_v));
        r
    }
}

/// `HAVING` and the condition after a soft line break, grouped and indented.
pub open spec fn having_layout<'a>(body: Seq<DocRef<'a>>) -> bool {
    body.len() == 1 && is_keyword_condition(*body[0], "HAVING"@)
}

/// `HAVING condition`
pub struct HavingClause {
    pub boolean_exp: BooleanExpression,
    pub node_context: NodeContext,
}

impl HavingClause {
    pub fn new(t: &SyntaxTree, n: usize) -> (r: Result<Self, String>)
        requires
            t.wf(),
            t.valid(n as int),
        ensures
            r matches Ok(v) ==> v.node_context.id == n && t.nodes@[n as int].kind@ == "having_clause"@,
        decreases t.nodes@.len() - n, 1int,
    {
        assert_check(t, n, "having_clause")?;
        let c = first_c(t, n)?;
        let boolean_exp = BooleanExpression::new(t, c)?;
        Ok(HavingClause { boolean_exp, node_context: NodeContext::with_punctuation(t, n) })
    }

    pub fn build<'a>(&self, b: &'a DocBuilder<'a>, cm: &CommentMap, st: &mut BuildState) -> (r: DocRef<'a>)
        ensures
            final(st).printed@.len() == old(st).printed@.len(),
            exists|body: Seq<DocRef<'a>>| #[trigger] wraps(*r, body) && having_layout(body),
        decreases self,
    {
        let e = self.boolean_exp.build_with_parent(b, cm, st, None);
        let g = keyword_condition(b, "HAVING", e);
        let mut body: Vec<DocRef<'a>> = Vec::new();
        body.push(g);
        let ghost body_v = body@;
        assert(having_layout(body_v));
        let r = with_comments_and_punc(b, cm, st, &self.node_context, body);
        assert(wraps(*r, body_v));
        r
    }
}

// ---------------------------------------------------------------------------
// GROUP BY, ORDER BY and the other SOQL clauses.
// ---------------------------------------------------------------------------
/// What a query groups by.
pub enum GroupByExpression {
    Field(FieldIdentifier),
    Func(FunctionExpression),
}

/// `GROUP BY ` and the groupings, then the `HAVING` clause after a soft line
/// break where there is one.
pub open spec fn group_by_layout<'a>(body: Seq<DocRef<'a>>, s: GroupByClause) -> bool {
    &&& body.len() == if s.have_clause is Some { 4int } else { 2int }
    &&& is_text(*body[0], "GROUP BY"@ + seq![' '])
    &&& s.have_clause is Some ==> *body[2] == Doc::Softline
}

/// The kinds of node that a `GROUP BY` clause holds.
pub open spec fn is_group_by_part_kind(k: Seq<char>) -> bool {
    k == "field_identifier"@ || k == "function_expression"@ || k == "having_clause"@
}

/// `GROUP BY a, b HAVING condition`
pub struct GroupByClause {
    pub exps: Vec<GroupByExpression>,
    pub have_clause: Option<HavingClause>,
    pub node_context: NodeContext,
}

impl GroupByClause {
    pub fn new(t: &SyntaxTree, n: usize) -> (r: Result<Self, String>)
        requires
            t.wf(),
            t.valid(n as int),
        ensures
            r matches Ok(v) ==> v.node_context.id == n && t.nodes@[n as int].kind@ == "group_by_clause"@,
            r is Ok ==> forall|j: int| 0 <= j < crate::accessor::code_children(t, n as int).len() ==> is_group_by_part_kind(
                t.nodes@[#[trigger] crate::accessor::code_children(t, n as int)[j] as int].kind@,
            ),
            (forall|j: int| 0 <= j < crate::accessor::code_children(t, n as int).len()
                ==> t.nodes@[#[trigger] crate::accessor::code_children(t, n as int)[j] as int].kind@ == "field_identifier"@)
                ==> (r is Ok <==> t.nodes@[n as int].kind@ == "group_by_clause"@
                    && forall|j: int| 0 <= j < crate::accessor::code_children(t, n as int).len()
                        ==> name_child_ok(t, #[trigger] crate::accessor::code_children(t, n as int)[j] as int)),
        decreases t.nodes@.len() - n, 1int,
    {
        assert_check(t, n, "group_by_clause")?;
        let cs = children_vec(t, n);
        let mut exps: Vec<GroupByExpression> = Vec::new();
        let mut have_clause: Option<HavingClause> = None;
        let mut i: usize = 0;
        while i < cs.len()
            invariant
                t.wf(),
                t.valid(n as int),
                i <= cs@.len(),
                t.nodes@[n as int].kind@ == "group_by_clause"@,
                cs@ == crate::accessor::code_children(t, n as int),
                forall|j: int| 0 <= j < cs@.len() ==> n < #[trigger] cs@[j] < t.nodes@.len(),
                forall|j: int| 0 <= j < i ==> is_group_by_part_kind(t.nodes@[#[trigger] cs@[j] as int].kind@),
                forall|j: int| 0 <= j < i ==> t.nodes@[#[trigger] cs@[j] as int].kind@ == "field_identifier"@
                    ==> name_child_ok(t, cs@[j] as int),
            decreases cs@.len() - i,
        {
            let c = cs[i];
            if kind_is(t, c, "field_identifier") {
                let f = match FieldIdentifier::new(t, c) {
                    Ok(f) => f,
                    Err(e) => {
                        assert(!name_child_ok(t, cs@[i as int] as int));
                        return Err(e);
                    },
                };
                exps.push(GroupByExpression::Field(f));
            } else if kind_is(t, c, "function_expression") {
                exps.push(GroupByExpression::Func(FunctionExpression::new(t, c)?));
            } else if kind_is(t, c, "having_clause") {
                have_clause = Some(HavingClause::new(t, c)?);
            } else {
                let k = crate::message_helper::red(t.nodes[c].kind.as_str());
                return Err(concat3("## unknown node: ", k.as_str(), " in GroupByClause"));
            }
            i = i + 1;
        }
        Ok(GroupByClause { exps, have_clause, node_context: NodeContext::with_punctuation(t, n) })
    }

    pub fn build<'a>(&self, b: &'a DocBuilder<'a>, cm: &CommentMap, st: &mut BuildState) -> (r: DocRef<'a>)
        ensures
            final(st).printed@.len() == old(st).printed@.len(),
            exists|body: Seq<DocRef<'a>>| #[trigger] wraps(*r, body) && group_by_layout(body, *self),
        decreases self,
    {
        let mut body: Vec<DocRef<'a>> = Vec::new();
        let w = b.txt_("GROUP BY");
        body.push(w);
        let ghost len0 = st.printed@.len();
        let mut docs: Vec<DocRef<'a>> = Vec::new();
        let mut i: usize = 0;
        while i < self.exps.len()
            invariant
                st.printed@.len() == len0,
            decreases self.exps@.len() - i,
        {
            let d = match &self.exps[i] {
                GroupByExpression::Field(f) => f.build(b, cm, st),
                GroupByExpression::Func(f) => f.build(b, cm, st),
            };
            docs.push(d);
            i = i + 1;
        }
        let j = join(b, docs.as_slice(), " ");
        body.push(j);
        match &self.have_clause {
            Some(h) => {
                let sl = b.softline();
                body.push(sl);
                let d = h.build(b, cm, st);
                body.push(d);
            },
            None => {},
        }
        let ghost body_v = body@;
        assert(group_by_layout(body_v, *self));
        let r = with_comments_and_punc(b, cm, st, &self.node_context, body);
        assert(wraps(*r, body_v));
        r
    }
}

/// The value, then a space and the direction, then a space and the place of
/// nulls, where they are given.
pub open spec fn order_expression_layout<'a>(body: Seq<DocRef<'a>>, s: OrderExpression) -> bool {
    let k: int = if s.direction is Some { 3 } else { 1 };
    &&& body.len() == k + if s.null_direction is Some { 2int } else { 0int }
    &&& s.direction is Some ==> is_text(*body[1], seq![' '])
    &&& s.null_direction is Some ==> is_text(*body[k], seq![' '])
}

/// An ordering by a field: the field's name, and the directions where
/// given, can be read.
pub open spec fn order_by_field_ok(t: &SyntaxTree, n: int) -> bool {
    let cs = crate::accessor::code_children(t, n);
    let d = crate::accessor::kind_children(t, n, "order_direction"@);
    let nd = crate::accessor::kind_children(t, n, "order_null_direction"@);
    &&& t.nodes@[n].kind@ == "order_expression"@
    &&& d.len() > 0 ==> crate::accessor::readable(t, d[0] as int)
    &&& nd.len() > 0 ==> crate::accessor::readable(t, nd[0] as int)
    &&& cs.len() > 0
    &&& t.nodes@[cs[0] as int].kind@ == "field_identifier"@
    &&& name_child_ok(t, cs[0] as int)
}

/// The first code child of `n` names a field.
pub open spec fn starts_with_field(t: &SyntaxTree, n: int) -> bool {
    let cs = crate::accessor::code_children(t, n);
    cs.len() > 0 && t.nodes@[cs[0] as int].kind@ == "field_identifier"@
}

/// `value ASC NULLS LAST`
pub struct OrderExpression {
    pub value_expression: ValueExpression,
    pub direction: Option<ValueNode>,
    pub null_direction: Option<ValueNode>,
    pub node_context: NodeContext,
}

impl OrderExpression {
    pub fn new(t: &SyntaxTree, n: usize) -> (r: Result<Self, String>)
        requires
            t.wf(),
            t.valid(n as int),
        ensures
            r matches Ok(v) ==> v.node_context.id == n && t.nodes@[n as int].kind@ == "order_expression"@,
            crate::accessor::code_children(t, n as int).len() == 0 ==> r is Err,
            starts_with_field(t, n as int) ==> (r is Ok <==> order_by_field_ok(t, n as int)),
            r matches Ok(v) ==> (v.direction is Some <==> crate::accessor::kind_children(t, n as int, "order_direction"@).len() > 0),
            r matches Ok(v) ==> (v.null_direction is Some <==> crate::accessor::kind_children(t, n as int, "order_null_direction"@).len() > 0),
        decreases t.nodes@.len() - n, 1int,
    {
        assert_check(t, n, "order_expression")?;
        let direction = match try_c_by_k(t, n, "order_direction") {
            Some(c) => Some(ValueNode::new(t, c)?),
            None => None,
        };
        let null_direction = match try_c_by_k(t, n, "order_null_direction") {
            Some(c) => Some(ValueNode::new(t, c)?),
            None => None,
        };
        let c = first_c(t, n)?;
        let value_expression = ValueExpression::new(t, c)?;
        Ok(OrderExpression { value_expression, direction, null_direction, node_context: NodeContext::with_punctuation(t, n) })
    }

    pub fn build<'a>(&self, b: &'a DocBuilder<'a>, cm: &CommentMap, st: &mut BuildState) -> (r: DocRef<'a>)
        ensures
            final(st).printed@.len() == old(st).printed@.len(),
            exists|body: Seq<DocRef<'a>>| #[trigger] wraps(*r, body) && order_expression_layout(body, *self),
        decreases self,
    {
        proof {
            reveal_strlit(" ");
            assert(" "@ =~= seq![' ']);
        }
        let mut body: Vec<DocRef<'a>> = Vec::new();
        let v = self.value_expression.build(b, cm, st);
        body.push(v);
        match &self.direction {
            Some(d) => {
                let s = b.txt(" ");
                body.push(s);
                let x = d.build(b, cm, st);
                body.push(x);
            },
            None => {},
        }
        match &self.null_direction {
            Some(d) => {
                let s = b.txt(" ");
                body.push(s);
                let x = d.build(b, cm, st);
                body.push(x);
            },
            None => {},
        }
        let ghost body_v = body@;
        assert(order_expression_layout(body_v, *self));
        let r = with_comments_and_punc(b, cm, st, &self.node_context, body);
        assert(wraps(*r, body_v));
        r
    }
}

/// `ORDER BY ` and the orderings.
pub open spec fn order_by_layout<'a>(body: Seq<DocRef<'a>>) -> bool {
    body.len() == 2 && is_text(*body[0], "ORDER BY"@ + seq![' '])
}

/// `ORDER BY a, b DESC`
pub struct OrderByClause {
    pub exps: Vec<OrderExpression>,
    pub node_context: NodeContext,
}

impl OrderByClause {
    pub fn new(t: &SyntaxTree, n: usize) -> (r: Result<Self, String>)
        requires
            t.wf(),
            t.valid(n as int),
        ensures
            r matches Ok(v) ==> v.node_context.id == n && t.nodes@[n as int].kind@ == "order_by_clause"@,
            crate::accessor::kind_children(t, n as int, "order_expression"@).len() == 0 ==> r is Err,
            (forall|j: int| 0 <= j < crate::accessor::kind_children(t, n as int, "order_expression"@).len()
                ==> starts_with_field(t, #[trigger] crate::accessor::kind_children(t, n as int, "order_expression"@)[j] as int))
                ==> (r is Ok <==> t.nodes@[n as int].kind@ == "order_by_clause"@
                    && crate::accessor::kind_children(t, n as int, "order_expression"@).len() > 0
                    && forall|j: int| 0 <= j < crate::accessor::kind_children(t, n as int, "order_expression"@).len()
                        ==> order_by_field_ok(t, #[trigger] crate::accessor::kind_children(t, n as int, "order_expression"@)[j] as int)),
            r matches Ok(v) ==> v.exps@.len() == crate::accessor::kind_children(t, n as int, "order_expression"@).len(),
        decreases t.nodes@.len() - n, 1int,
    {
        assert_check(t, n, "order_by_clause")?;
        let cs = cs_by_k(t, n, "order_expression")?;
        let mut exps: Vec<OrderExpression> = Vec::new();
        let mut i: usize = 0;
        while i < cs.len()
            invariant
                t.wf(),
                t.valid(n as int),
                i <= cs@.len(),
                exps@.len() == i,
                t.nodes@[n as int].kind@ == "order_by_clause"@,
                cs@ == crate::accessor::kind_children(t, n as int, "order_expression"@),
                forall|j: int| 0 <= j < cs@.len() ==> n < #[trigger] cs@[j] < t.nodes@.len(),
                forall|j: int| 0 <= j < i ==> starts_with_field(t, #[trigger] cs@[j] as int) ==> order_by_field_ok(t, cs@[j] as int),
            decreases cs@.len() - i,
        {
            let e = match OrderExpression::new(t, cs[i]) {
                Ok(e) => e,
                Err(e) => {
                    assert(starts_with_field(t, cs@[i as int] as int) ==> !order_by_field_ok(t, cs@[i as int] as int));
                    return Err(e);
                },
            };
            exps.push(e);
            i = i + 1;
        }
        Ok(OrderByClause { exps, node_context: NodeContext::with_punctuation(t, n) })
    }

    pub fn build<'a>(&self, b: &'a DocBuilder<'a>, cm: &CommentMap, st: &mut BuildState) -> (r: DocRef<'a>)
        ensures
            final(st).printed@.len() == old(st).printed@.len(),
            exists|body: Seq<DocRef<'a>>| #[trigger] wraps(*r, body) && order_by_layout(body),
        decreases self,
    {
        let w = b.txt_("ORDER BY");
        let ghost len0 = st.printed@.len();
        let mut docs: Vec<DocRef<'a>> = Vec::new();
        let mut i: usize = 0;
        while i < self.exps.len()
            invariant
                st.printed@.len() == len0,
            decreases self.exps@.len() - i,
        {
            let d = self.exps[i].build(b, cm, st);
            docs.push(d);
            i = i + 1;
        }
        let j = join(b, docs.as_slice(), " ");
        let mut body: Vec<DocRef<'a>> = Vec::new();
        body.push(w);
        body.push(j);
        let ghost body_v = body@;
        assert(order_by_layout(body_v));
        let r = with_comments_and_punc(b, cm, st, &self.node_context, body);
        assert(wraps(*r, body_v));
        r
    }
}

/// The number of named children of a node, comments included.
fn named_child_count(t: &SyntaxTree, n: usize) -> (r: usize)
    requires
        t.wf(),
        t.valid(n as int),
    ensures
        r == crate::accessor::named_count_from(t, n as int, 0),
{
    let node = &t.nodes[n];
    let mut count: usize = 0;
    let mut i: usize = 0;
    while i < node.children.len()
        invariant
            t.wf(),
            t.valid(n as int),
            node == &t.nodes@[n as int],
            count <= i,
            i <= node.children@.len(),
            count + crate::accessor::named_count_from(t, n as int, i as int) == crate::accessor::named_count_from(t, n as int, 0),
        decreases node.children@.len() - i,
    {
        let c = node.children[i];
        assert(t.nodes@[n as int].children@[i as int] == c);
        if t.nodes[c].is_named {
            count = count + 1;
        }
        i = i + 1;
    }
    count
}

/// A type name as written, or `UserId = ` and the value.
pub open spec fn soql_with_type_doc<'a>(d: Doc<'a>, v: SoqlWithTypeVariant) -> bool {
    match v {
        SoqlWithTypeVariant::SimpleType(x) => wraps_text(d, x.value@),
        SoqlWithTypeVariant::UserId(x) => d is Concat && concat_parts(d).len() == 2 && is_text(
            *concat_parts(d)[0],
            "UserId ="@ + seq![' '],
        ) && wraps_text(*concat_parts(d)[1], x.value@),
    }
}

/// `WITH SECURITY_ENFORCED` and the like, or `WITH UserId = '...'`.
pub enum SoqlWithTypeVariant {
    SimpleType(ValueNode),
    UserId(ValueNode),
}

/// What a `with_type` node needs to be read: its own text where it has no
/// named child, else a `with_user_id_type` child whose string can be read.
pub open spec fn with_type_ok(t: &SyntaxTree, n: int) -> bool {
    if crate::accessor::named_count_from(t, n, 0) == 0 {
        crate::accessor::readable(t, n)
    } else {
        let cs = crate::accessor::code_children(t, n);
        &&& cs.len() > 0
        &&& t.nodes@[cs[0] as int].kind@ == "with_user_id_type"@
        &&& crate::data_model::readable_first(t, crate::accessor::kind_children(t, cs[0] as int, "string_literal"@))
    }
}

/// The filter holds the text of the node it was read from: the `with_type`
/// node itself, or the string of its user id.
pub open spec fn with_type_read(t: &SyntaxTree, n: int, v: SoqlWithTypeVariant) -> bool {
    match v {
        SoqlWithTypeVariant::SimpleType(x) => crate::data_model::read_from(t, n, x.node_context.id, x.value),
        SoqlWithTypeVariant::UserId(x) => crate::data_model::read_from(
            t,
            crate::accessor::kind_children(t, crate::accessor::code_children(t, n)[0] as int, "string_literal"@)[0] as int,
            x.node_context.id,
            x.value,
        ),
    }
}

impl SoqlWithTypeVariant {
    pub fn new(t: &SyntaxTree, n: usize) -> (r: Result<Self, String>)
        requires
            t.wf(),
            t.valid(n as int),
        ensures
            r is Ok <==> with_type_ok(t, n as int),
            r matches Ok(v) ==> with_type_read(t, n as int, v),
            crate::accessor::named_count_from(t, n as int, 0) == 0 ==> (r is Ok <==> crate::accessor::readable(t, n as int)) && (r matches Ok(v) ==> v is SimpleType),
            r matches Ok(v) ==> (v is SimpleType <==> crate::accessor::named_count_from(t, n as int, 0) == 0),
            r matches Ok(SoqlWithTypeVariant::UserId(_)) ==> crate::accessor::code_children(t, n as int).len() > 0 && t.nodes@[crate::accessor::code_children(t, n as int)[0] as int].kind@ == "with_user_id_type"@,
    {
        if named_child_count(t, n) == 0 {
            return Ok(SoqlWithTypeVariant::SimpleType(ValueNode::new(t, n)?));
        }
        let c = first_c(t, n)?;
        if kind_is(t, c, "with_user_id_type") {
            let s = c_by_k(t, c, "string_literal")?;
            Ok(SoqlWithTypeVariant::UserId(ValueNode::new(t, s)?))
        } else {
            Err(panic_unknown_node(t, n, "WithType"))
        }
    }

    pub fn build<'a>(&self, b: &'a DocBuilder<'a>, cm: &CommentMap, st: &mut BuildState) -> (r: DocRef<'a>)
        ensures
            final(st).printed@.len() == old(st).printed@.len(),
            soql_with_type_doc(*r, *self),
    {
        match self {
            SoqlWithTypeVariant::SimpleType(v) => v.build(b, cm, st),
            SoqlWithTypeVariant::UserId(v) => {
                let w = b.txt_("UserId =");
                let d = v.build(b, cm, st);
                pair(b, w, d)
            },
        }
    }
}

pub struct SoqlWithType {
    pub variant: SoqlWithTypeVariant,
    pub node_context: NodeContext,
}

impl SoqlWithType {
    pub fn new(t: &SyntaxTree, n: usize) -> (r: Result<Self, String>)
        requires
            t.wf(),
            t.valid(n as int),
        ensures
            r matches Ok(v) ==> v.node_context.id == n && t.nodes@[n as int].kind@ == "with_type"@,
            r is Ok <==> t.nodes@[n as int].kind@ == "with_type"@ && with_type_ok(t, n as int),
            r matches Ok(v) ==> with_type_read(t, n as int, v.variant),
    {
        assert_check(t, n, "with_type")?;
        let variant = SoqlWithTypeVariant::new(t, n)?;
        Ok(SoqlWithType { variant, node_context: NodeContext::with_punctuation(t, n) })
    }

    pub fn build<'a>(&self, b: &'a DocBuilder<'a>, cm: &CommentMap, st: &mut BuildState) -> (r: DocRef<'a>)
        ensures
            final(st).printed@.len() == old(st).printed@.len(),
            exists|body: Seq<DocRef<'a>>| #[trigger] wraps(*r, body) && body.len() == 1 && soql_with_type_doc(*body[0], self.variant),
    {
        let v = self.variant.build(b, cm, st);
        let mut body: Vec<DocRef<'a>> = Vec::new();
        body.push(v);
        let ghost body_v = body@;
        assert(body_v[0] == v);
        let r = with_comments_and_punc(b, cm, st, &self.node_context, body);
        assert(wraps(*r, body_v));
        r
    }
}

/// `WITH ` and the filter.
pub open spec fn soql_with_layout<'a>(body: Seq<DocRef<'a>>) -> bool {
    body.len() == 2 && is_text(*body[0], "WITH"@ + seq![' '])
}

/// `WITH type` of a SOQL query.
pub struct SoqlWithClause {
    pub with_type: SoqlWithType,
    pub node_context: NodeContext,
}

impl SoqlWithClause {
    pub fn new(t: &SyntaxTree, n: usize) -> (r: Result<Self, String>)
        requires
            t.wf(),
            t.valid(n as int),
        ensures
            r matches Ok(v) ==> v.node_context.id == n && t.nodes@[n as int].kind@ == "with_clause"@,
            r is Ok <==> ({
                let w = crate::accessor::kind_children(t, n as int, "with_type"@);
                &&& t.nodes@[n as int].kind@ == "with_clause"@
                &&& w.len() > 0
                &&& t.nodes@[w[0] as int].kind@ == "with_type"@
                &&& with_type_ok(t, w[0] as int)
            }),
            r matches Ok(v) ==> ({
                let w = crate::accessor::kind_children(t, n as int, "with_type"@);
                v.with_type.node_context.id == w[0] && with_type_read(t, w[0] as int, v.with_type.variant)
            }),
    {
        assert_check(t, n, "with_clause")?;
        let c = c_by_k(t, n, "with_type")?;
        let with_type = SoqlWithType::new(t, c)?;
        Ok(SoqlWithClause { with_type, node_context: NodeContext::with_punctuation(t, n) })
    }

    pub fn build<'a>(&self, b: &'a DocBuilder<'a>, cm: &CommentMap, st: &mut BuildState) -> (r: DocRef<'a>)
        ensures
            final(st).printed@.len() == old(st).printed@.len(),
            exists|body: Seq<DocRef<'a>>| #[trigger] wraps(*r, body) && soql_with_layout(body),
    {
        let w = b.txt_("WITH");
        let d = self.with_type.build(b, cm, st);
        let mut body: Vec<DocRef<'a>> = Vec::new();
        body.push(w);
        body.push(d);
        let ghost body_v = body@;
        assert(soql_with_layout(body_v));
        let r = with_comments_and_punc(b, cm, st, &self.node_context, body);
        assert(wraps(*r, body_v));
        r
    }
}

/// `VIEW`, `REFERENCE` or `UPDATE` after `FOR`.
pub struct ForClause {
    pub for_type: ValueNode,
    pub node_context: NodeContext,
}

impl ForClause {
    pub fn new(t: &SyntaxTree, n: usize) -> (r: Result<Self, String>)
        requires
            t.wf(),
            t.valid(n as int),
        ensures
            r matches Ok(v) ==> v.node_context.id == n && t.nodes@[n as int].kind@ == "for_clause"@,
            r is Ok <==> t.nodes@[n as int].kind@ == "for_clause"@ && crate::data_model::readable_first(
                t,
                crate::accessor::kind_children(t, n as int, "for_type"@),
            ),
            r matches Ok(v) ==> crate::data_model::read_from(
                t,
                crate::accessor::kind_children(t, n as int, "for_type"@)[0] as int,
                v.for_type.node_context.id,
                v.for_type.value,
            ),
    {
        assert_check(t, n, "for_clause")?;
        let c = c_by_k(t, n, "for_type")?;
        let for_type = ValueNode::new(t, c)?;
        Ok(ForClause { for_type, node_context: NodeContext::with_punctuation(t, n) })
    }

    pub fn build<'a>(&self, b: &'a DocBuilder<'a>, cm: &CommentMap, st: &mut BuildState) -> (r: DocRef<'a>)
        ensures
            final(st).printed@.len() == old(st).printed@.len(),
            exists|body: Seq<DocRef<'a>>| #[trigger] wraps(*r, body) && body.len() == 1 && wraps_text(*body[0], self.for_type.value@),
    {
        let d = self.for_type.build(b, cm, st);
        let mut body: Vec<DocRef<'a>> = Vec::new();
        body.push(d);
        let ghost body_v = body@;
        assert(body_v[0] == d);
        let r = with_comments_and_punc(b, cm, st, &self.node_context, body);
        assert(wraps(*r, body_v));
        r
    }
}

/// `ALL ROWS`.
pub open spec fn all_rows_layout<'a>(body: Seq<DocRef<'a>>) -> bool {
    body.len() == 1 && is_text(*body[0], "ALL ROWS"@)
}

/// `ALL ROWS`
pub struct AllRowsClause {
    pub node_context: NodeContext,
}

impl AllRowsClause {
    pub fn new(t: &SyntaxTree, n: usize) -> (r: Result<Self, String>)
        requires
            t.wf(),
            t.valid(n as int),
        ensures
            r is Ok <==> t.nodes@[n as int].kind@ == "all_rows_clause"@,
            r matches Ok(v) ==> v.node_context.id == n,
    {
        assert_check(t, n, "all_rows_clause")?;
        Ok(AllRowsClause { node_context: NodeContext::with_punctuation(t, n) })
    }

    pub fn build<'a>(&self, b: &'a DocBuilder<'a>, cm: &CommentMap, st: &mut BuildState) -> (r: DocRef<'a>)
        ensures
            final(st).printed@.len() == old(st).printed@.len(),
            exists|body: Seq<DocRef<'a>>| #[trigger] wraps(*r, body) && all_rows_layout(body),
    {
        let d = b.txt("ALL ROWS");
        let mut body: Vec<DocRef<'a>> = Vec::new();
        body.push(d);
        let ghost body_v = body@;
        assert(all_rows_layout(body_v));
        let r = with_comments_and_punc(b, cm, st, &self.node_context, body);
        assert(wraps(*r, body_v));
        r
    }
}

/// `UPDATE ` and the update types.
pub open spec fn update_layout<'a>(body: Seq<DocRef<'a>>) -> bool {
    body.len() == 2 && is_text(*body[0], "UPDATE"@ + seq![' '])
}

/// `UPDATE TRACKING, VIEWSTAT` of a SOSL query.
pub struct UpdateClause {
    pub update_types: Vec<ValueNode>,
    pub node_context: NodeContext,
}

impl UpdateClause {
    pub fn new(t: &SyntaxTree, n: usize) -> (r: Result<Self, String>)
        requires
            t.wf(),
            t.valid(n as int),
        ensures
            r matches Ok(v) ==> v.node_context.id == n,
            r is Ok <==> ({
                let u = crate::accessor::kind_children(t, n as int, "update_type"@);
                u.len() > 0 && forall|j: int| 0 <= j < u.len() ==> crate::accessor::readable(t, #[trigger] u[j] as int)
            }),
            r matches Ok(v) ==> v.update_types@.len() == crate::accessor::kind_children(t, n as int, "update_type"@).len(),
            r matches Ok(v) ==> forall|j: int|
                0 <= j < v.update_types@.len() ==> crate::data_model::read_from(
                    t,
                    crate::accessor::kind_children(t, n as int, "update_type"@)[j] as int,
                    (#[trigger] v.update_types@[j]).node_context.id,
                    v.update_types@[j].value,
                ),
    {
        let cs = cs_by_k(t, n, "update_type")?;
        let update_types = values_of(t, n, &cs)?;
        Ok(UpdateClause { update_types, node_context: NodeContext::with_punctuation(t, n) })
    }

    pub fn build<'a>(&self, b: &'a DocBuilder<'a>, cm: &CommentMap, st: &mut BuildState) -> (r: DocRef<'a>)
        ensures
            final(st).printed@.len() == old(st).printed@.len(),
            exists|body: Seq<DocRef<'a>>| #[trigger] wraps(*r, body) && update_layout(body),
    {
        let w = b.txt_("UPDATE");
        let docs = build_values(&self.update_types, b, cm, st);
        let j = join(b, docs.as_slice(), " ");
        let mut body: Vec<DocRef<'a>> = Vec::new();
        body.push(w);
        body.push(j);
        let ghost body_v = body@;
        assert(update_layout(body_v));
        let r = with_comments_and_punc(b, cm, st, &self.node_context, body);
        assert(wraps(*r, body_v));
        r
    }
}

/// The clauses of a SOQL query, by position in the written query: `SELECT`,
/// `FROM`, `WHERE`, `WITH`, `GROUP BY`, `ORDER BY`, `LIMIT`, `OFFSET`,
/// `ALL ROWS`, `FOR`.
pub open spec fn soql_clause_ok<'a>(d: Doc<'a>, tag: int) -> bool {
    if tag == 0 {
        exists|body: Seq<DocRef<'a>>| #[trigger] wraps(d, body) && select_layout(body)
    } else if tag == 1 {
        exists|body: Seq<DocRef<'a>>| #[trigger] wraps(d, body) && from_layout(body)
    } else if tag == 2 {
        exists|body: Seq<DocRef<'a>>| #[trigger] wraps(d, body) && where_layout(body)
    } else if tag == 3 {
        exists|body: Seq<DocRef<'a>>| #[trigger] wraps(d, body) && soql_with_layout(body)
    } else if tag == 4 {
        exists|body: Seq<DocRef<'a>>|
            #[trigger] wraps(d, body) && body.len() >= 2 && is_text(*body[0], "GROUP BY"@ + seq![' '])
    } else if tag == 5 {
        exists|body: Seq<DocRef<'a>>| #[trigger] wraps(d, body) && order_by_layout(body)
    } else if tag == 6 {
        exists|body: Seq<DocRef<'a>>| #[trigger] wraps(d, body) && limit_layout(body)
    } else if tag == 7 {
        d is Concat && concat_parts(d).len() == 2 && is_text(*concat_parts(d)[0], "OFFSET"@ + seq![' '])
    } else if tag == 8 {
        exists|body: Seq<DocRef<'a>>| #[trigger] wraps(d, body) && all_rows_layout(body)
    } else {
        d is Concat && concat_parts(d).len() == 2 && is_text(*concat_parts(d)[0], "FOR"@ + seq![' '])
    }
}

pub open spec fn push_if(t: Seq<int>, present: bool, tag: int) -> Seq<int> {
    if present {
        t.push(tag)
    } else {
        t
    }
}

/// The clauses a query has, in the order they are written.
pub open spec fn soql_tags(s: SoqlQueryBody) -> Seq<int> {
    let t1 = seq![0int, 1int];
    let t2 = push_if(t1, s.where_clause is Some, 2);
    let t3 = push_if(t2, s.with_clause is Some, 3);
    let t4 = push_if(t3, s.group_by_clause is Some, 4);
    let t5 = push_if(t4, s.order_by_clause is Some, 5);
    let t6 = push_if(t5, s.limit_clause is Some, 6);
    let t7 = push_if(t6, s.offset_clause is Some, 7);
    let t8 = push_if(t7, s.all_rows_clause is Some, 8);
    push_if(t8, s.for_clause@.len() > 0, 9)
}

/// The query body: its clauses in order, a soft line break between each two.
pub open spec fn soql_body_layout<'a>(body: Seq<DocRef<'a>>, s: SoqlQueryBody) -> bool {
    let tags = soql_tags(s);
    let p = concat_parts(*body[0]);
    &&& body.len() == 1
    &&& *body[0] is Concat
    &&& p.len() == 2 * tags.len() - 1
    &&& forall|k: int| 0 <= k < tags.len() ==> soql_clause_ok(*p[2 * k], #[trigger] tags[k])
    &&& forall|k: int| 0 <= k < tags.len() - 1 ==> *#[trigger] sep_after(p, k) == Doc::Softline
}

/// A query of fields from an object, with no other clause.
pub open spec fn bare_soql(t: &SyntaxTree, n: int) -> bool {
    &&& crate::accessor::field_children(t, n, "where_clause"@).len() == 0
    &&& crate::accessor::field_children(t, n, "with_clause"@).len() == 0
    &&& crate::accessor::field_children(t, n, "group_by_clause"@).len() == 0
    &&& crate::accessor::field_children(t, n, "order_by_clause"@).len() == 0
    &&& crate::accessor::field_children(t, n, "limit_clause"@).len() == 0
    &&& crate::accessor::field_children(t, n, "offset_clause"@).len() == 0
    &&& crate::accessor::field_children(t, n, "all_rows_clause"@).len() == 0
    &&& crate::accessor::kind_children(t, n, "for_clause"@).len() == 0
    &&& crate::data_model::first_field_if(t, n, "select_clause"@, |c: int| selects_fields(t, c))
    &&& crate::data_model::first_field_if(t, n, "from_clause"@, |c: int| from_object(t, c))
}

/// Such a query that can be read.
pub open spec fn bare_soql_ok(t: &SyntaxTree, n: int) -> bool {
    &&& t.nodes@[n].kind@ == "soql_query_body"@
    &&& crate::data_model::first_field_is(t, n, "select_clause"@, |c: int| selects_fields_ok(t, c))
    &&& crate::data_model::first_field_is(t, n, "from_clause"@, |c: int| from_object_ok(t, c))
}

/// A SOQL query: `SELECT ... FROM ...` and its optional clauses.
pub struct SoqlQueryBody {
    pub select_clause: SelectClause,
    pub from_clause: FromClause,
    pub where_clause: Option<WhereClause>,
    pub with_clause: Option<SoqlWithClause>,
    pub group_by_clause: Option<GroupByClause>,
    pub order_by_clause: Option<OrderByClause>,
    pub limit_clause: Option<LimitClause>,
    pub offset_clause: Option<OffsetClause>,
    pub for_clause: Vec<ForClause>,
    pub all_rows_clause: Option<AllRowsClause>,
    pub node_context: NodeContext,
}

impl SoqlQueryBody {
    pub fn new(t: &SyntaxTree, n: usize) -> (r: Result<Self, String>)
        requires
            t.wf(),
            t.valid(n as int),
        ensures
            r matches Ok(v) ==> v.node_context.id == n && t.nodes@[n as int].kind@ == "soql_query_body"@
                && (v.where_clause is Some <==> crate::accessor::field_children(t, n as int, "where_clause"@).len() > 0)
                && (v.limit_clause is Some <==> crate::accessor::field_children(t, n as int, "limit_clause"@).len() > 0)
                && v.for_clause@.len() == crate::accessor::kind_children(t, n as int, "for_clause"@).len(),
            bare_soql(t, n as int) ==> (r is Ok <==> bare_soql_ok(t, n as int)),
        decreases t.nodes@.len() - n, 1int,
    {
        assert_check(t, n, "soql_query_body")?;
        let where_clause = match try_c_by_n(t, n, "where_clause") {
            Some(c) => Some(WhereClause::new(t, c)?),
            None => None,
        };
        let with_clause = match try_c_by_n(t, n, "with_clause") {
            Some(c) => Some(SoqlWithClause::new(t, c)?),
            None => None,
        };
        let group_by_clause = match try_c_by_n(t, n, "group_by_clause") {
            Some(c) => Some(GroupByClause::new(t, c)?),
            None => None,
        };
        let order_by_clause = match try_c_by_n(t, n, "order_by_clause") {
            Some(c) => Some(OrderByClause::new(t, c)?),
            None => None,
        };
        let limit_clause = match try_c_by_n(t, n, "limit_clause") {
            Some(c) => Some(LimitClause::new(t, c)?),
            None => None,
        };
        let offset_clause = match try_c_by_n(t, n, "offset_clause") {
            Some(c) => Some(OffsetClause::new(t, c)?),
            None => None,
        };
        let all_rows_clause = match try_c_by_n(t, n, "all_rows_clause") {
            Some(c) => Some(AllRowsClause::new(t, c)?),
            None => None,
        };
        let fcs = try_cs_by_k(t, n, "for_clause");
        let mut for_clause: Vec<ForClause> = Vec::new();
        let mut i: usize = 0;
        while i < fcs.len()
            invariant
                t.wf(),
                t.valid(n as int),
                i <= fcs@.len(),
                for_clause@.len() == i,
                fcs@ == crate::accessor::kind_children(t, n as int, "for_clause"@),
                forall|j: int| 0 <= j < fcs@.len() ==> n < #[trigger] fcs@[j] < t.nodes@.len(),
            decreases fcs@.len() - i,
        {
            let f = ForClause::new(t, fcs[i])?;
            for_clause.push(f);
            i = i + 1;
        }
        let s = c_by_n(t, n, "select_clause")?;
        let select_clause = SelectClause::new(t, s)?;
        let f = c_by_n(t, n, "from_clause")?;
        let from_clause = FromClause::new(t, f)?;
        Ok(SoqlQueryBody {
            select_clause,
            from_clause,
            where_clause,
            with_clause,
            group_by_clause,
            order_by_clause,
            limit_clause,
            offset_clause,
            for_clause,
            all_rows_clause,
            node_context: NodeContext::with_punctuation(t, n),
        })
    }

    /// The clauses in order, separated by lines that break when the query
    /// does not fit; the `FOR` types after `FOR`, separated by spaces.
    pub fn build<'a>(&self, b: &'a DocBuilder<'a>, cm: &CommentMap, st: &mut BuildState) -> (r: DocRef<'a>)
        ensures
            final(st).printed@.len() == old(st).printed@.len(),
            exists|body: Seq<DocRef<'a>>| #[trigger] wraps(*r, body) && soql_body_layout(body, *self),
        decreases self,
    {
        let mut docs: Vec<DocRef<'a>> = Vec::new();
        let ghost mut tags: Seq<int> = Seq::empty();
        proof {
            reveal(clauses_ok);
        }
        let s = self.select_clause.build(b, cm, st);
        push_clause(&mut docs, s, Ghost(tags), Ghost(0));
        proof {
            tags = tags.push(0);
        }
        let f = self.from_clause.build(b, cm, st);
        push_clause(&mut docs, f, Ghost(tags), Ghost(1));
        proof {
            tags = tags.push(1);
        }
        assert(tags =~= seq![0int, 1int]);
        let ghost t1 = tags;
        match &self.where_clause {
            Some(c) => {
                let d = c.build(b, cm, st);
                push_clause(&mut docs, d, Ghost(tags), Ghost(2));
                proof {
                    tags = tags.push(2);
                }
            },
            None => {},
        }
        let ghost t2 = tags;
        match &self.with_clause {
            Some(c) => {
                let d = c.build(b, cm, st);
                push_clause(&mut docs, d, Ghost(tags), Ghost(3));
                proof {
                    tags = tags.push(3);
                }
            },
            None => {},
        }
        let ghost t3 = tags;
        match &self.group_by_clause {
            Some(c) => {
                let d = c.build(b, cm, st);
                push_clause(&mut docs, d, Ghost(tags), Ghost(4));
                proof {
                    tags = tags.push(4);
                }
            },
            None => {},
        }
        let ghost t4 = tags;
        match &self.order_by_clause {
            Some(c) => {
                let d = c.build(b, cm, st);
                push_clause(&mut docs, d, Ghost(tags), Ghost(5));
                proof {
                    tags = tags.push(5);
                }
            },
            None => {},
        }
        let ghost t5 = tags;
        match &self.limit_clause {
            Some(c) => {
                let d = c.build(b, cm, st);
                push_clause(&mut docs, d, Ghost(tags), Ghost(6));
                proof {
                    tags = tags.push(6);
                }
            },
            None => {},
        }
        let ghost t6 = tags;
        match &self.offset_clause {
            Some(c) => {
                let d = c.build(b, cm, st);
                push_clause(&mut docs, d, Ghost(tags), Ghost(7));
                proof {
                    tags = tags.push(7);
                }
            },
            None => {},
        }
        let ghost t7 = tags;
        match &self.all_rows_clause {
            Some(c) => {
                let d = c.build(b, cm, st);
                push_clause(&mut docs, d, Ghost(tags), Ghost(8));
                proof {
                    tags = tags.push(8);
                }
            },
            None => {},
        }
        let ghost t8 = tags;
        if self.for_clause.len() > 0 {
            let ghost len0 = st.printed@.len();
            let mut fs: Vec<DocRef<'a>> = Vec::new();
            let mut i: usize = 0;
            while i < self.for_clause.len()
                invariant
                    st.printed@.len() == len0,
                decreases self.for_clause@.len() - i,
            {
                let d = self.for_clause[i].build(b, cm, st);
                fs.push(d);
                i = i + 1;
            }
            let j = join(b, fs.as_slice(), " ");
            let w = b.txt_("FOR");
            let d = pair(b, w, j);
            push_clause(&mut docs, d, Ghost(tags), Ghost(9));
            proof {
                tags = tags.push(9);
            }
        }
        assert(t2 == push_if(t1, self.where_clause is Some, 2));
        assert(t3 == push_if(t2, self.with_clause is Some, 3));
        assert(t4 == push_if(t3, self.group_by_clause is Some, 4));
        assert(t5 == push_if(t4, self.order_by_clause is Some, 5));
        assert(t6 == push_if(t5, self.limit_clause is Some, 6));
        assert(t7 == push_if(t6, self.offset_clause is Some, 7));
        assert(t8 == push_if(t7, self.all_rows_clause is Some, 8));
        assert(tags == push_if(t8, self.for_clause@.len() > 0, 9));
        assert(tags == soql_tags(*self));
        let body_doc = soft_join(b, docs.as_slice());
        let mut body: Vec<DocRef<'a>> = Vec::new();
        body.push(body_doc);
        let ghost body_v = body@;
        proof {
            lemma_soql_body(body_v, docs@, *self);
        }
        let r = with_comments_and_punc(b, cm, st, &self.node_context, body);
        assert(wraps(*r, body_v));
        r
    }
}

/// The clause documents match the clauses named by `tags`.
#[verifier::opaque]
pub open spec fn clauses_ok<'a>(docs: Seq<DocRef<'a>>, tags: Seq<int>) -> bool {
    docs.len() == tags.len() && forall|k: int| 0 <= k < tags.len() ==> soql_clause_ok(*docs[k], #[trigger] tags[k])
}

/// Appends the document of one clause.
fn push_clause<'a>(docs: &mut Vec<DocRef<'a>>, d: DocRef<'a>, Ghost(tags): Ghost<Seq<int>>, Ghost(tag): Ghost<int>)
    requires
        clauses_ok(old(docs)@, tags),
        soql_clause_ok(*d, tag),
    ensures
        clauses_ok(final(docs)@, tags.push(tag)),
{
    proof {
        reveal(clauses_ok);
    }
    let ghost d0 = docs@;
    docs.push(d);
    proof {
        assert forall|k: int| 0 <= k < tags.push(tag).len() implies soql_clause_ok(*docs@[k], #[trigger] tags.push(tag)[k]) by {
            if k < tags.len() {
                assert(docs@[k] == d0[k]);
                assert(tags.push(tag)[k] == tags[k]);
            }
        }
    }
}

proof fn lemma_soql_body<'a>(body: Seq<DocRef<'a>>, docs: Seq<DocRef<'a>>, s: SoqlQueryBody)
    requires
        clauses_ok(docs, soql_tags(s)),
        body.len() == 1,
        *body[0] is Concat,
        soft_joined(concat_parts(*body[0]), docs),
    ensures
        soql_body_layout(body, s),
{
    reveal(clauses_ok);
    let tags = soql_tags(s);
    let p = concat_parts(*body[0]);
    assert(tags.len() >= 2);
    assert forall|k: int| 0 <= k < tags.len() implies soql_clause_ok(*p[2 * k], #[trigger] tags[k]) by {
        assert(p[2 * k] == docs[k]);
    }
}

// ---------------------------------------------------------------------------
// SOSL.
// ---------------------------------------------------------------------------
/// `FIND :term` or `FIND 'term'`.
pub enum FindClause {
    Bound(BoundApexExpression),
    Term(String),
}

impl FindClause {
    pub fn new(t: &SyntaxTree, n: usize) -> (r: Result<Self, String>)
        requires
            t.wf(),
            t.valid(n as int),
        ensures
            r is Ok ==> t.nodes@[n as int].kind@ == "find_clause"@,
            crate::accessor::kind_children(t, n as int, "bound_apex_expression"@).len() == 0 ==> (r is Ok
                <==> t.nodes@[n as int].kind@ == "find_clause"@ && crate::data_model::readable_first(
                t,
                crate::accessor::kind_children(t, n as int, "term"@),
            )),
        decreases t.nodes@.len() - n, 1int,
    {
        assert_check(t, n, "find_clause")?;
        match try_c_by_k(t, n, "bound_apex_expression") {
            Some(c) => Ok(FindClause::Bound(BoundApexExpression::new(t, c)?)),
            None => Ok(FindClause::Term(crate::accessor::cvalue_by_k(t, n, "term")?)),
        }
    }

    pub fn build<'a>(&self, b: &'a DocBuilder<'a>, cm: &CommentMap, st: &mut BuildState) -> (r: DocRef<'a>)
        ensures
            final(st).printed@.len() == old(st).printed@.len(),
            *r is Concat && concat_parts(*r).len() == 2,
            is_text(*concat_parts(*r)[0], "FIND"@ + seq![' ']),
        decreases self,
    {
        let w = b.txt_("FIND");
        let d = match self {
            FindClause::Bound(x) => x.build(b, cm, st),
            FindClause::Term(s) => {
                let q = concat3("'", s.as_str(), "'");
                b.txt_string(q)
            },
        };
        pair(b, w, d)
    }
}

/// `IN `, the kind of fields, a space, `FIELDS`.
pub open spec fn in_layout<'a>(body: Seq<DocRef<'a>>) -> bool {
    &&& body.len() == 4
    &&& is_text(*body[0], "IN"@ + seq![' '])
    &&& is_text(*body[3], "FIELDS"@)
}

/// `IN ALL FIELDS`
pub struct InClause {
    pub in_type: ValueNode,
    pub node_context: NodeContext,
}

impl InClause {
    pub fn new(t: &SyntaxTree, n: usize) -> (r: Result<Self, String>)
        requires
            t.wf(),
            t.valid(n as int),
        ensures
            r matches Ok(v) ==> v.node_context.id == n && t.nodes@[n as int].kind@ == "in_clause"@,
            r is Ok <==> t.nodes@[n as int].kind@ == "in_clause"@ && crate::data_model::readable_first(
                t,
                crate::accessor::kind_children(t, n as int, "in_type"@),
            ),
            r matches Ok(v) ==> crate::data_model::read_from(
                t,
                crate::accessor::kind_children(t, n as int, "in_type"@)[0] as int,
                v.in_type.node_context.id,
                v.in_type.value,
            ),
    {
        assert_check(t, n, "in_clause")?;
        let c = c_by_k(t, n, "in_type")?;
        let in_type = ValueNode::new(t, c)?;
        Ok(InClause { in_type, node_context: NodeContext::with_punctuation(t, n) })
    }

    pub fn build<'a>(&self, b: &'a DocBuilder<'a>, cm: &CommentMap, st: &mut BuildState) -> (r: DocRef<'a>)
        ensures
            final(st).printed@.len() == old(st).printed@.len(),
            exists|body: Seq<DocRef<'a>>| #[trigger] wraps(*r, body) && in_layout(body),
    {
        let w = b.txt_("IN");
        let d = self.in_type.build(b, cm, st);
        let s = b.txt(" ");
        let f = b.txt("FIELDS");
        let mut body: Vec<DocRef<'a>> = Vec::new();
        body.push(w);
        body.push(d);
        body.push(s);
        body.push(f);
        let ghost body_v = body@;
        assert(in_layout(body_v));
        let r = with_comments_and_punc(b, cm, st, &self.node_context, body);
        assert(wraps(*r, body_v));
        r
    }
}

/// `PHRASE SEARCH` or `ADVANCED SEARCH`.
pub enum UsingSearch {
    Phrase,
    Advanced,
}

impl UsingSearch {
    pub fn new(t: &SyntaxTree, n: usize) -> (r: Result<Self, String>)
        requires
            t.valid(n as int),
        ensures
            r is Ok <==> t.nodes@[n as int].kind@ == "using_phrase_search"@ || t.nodes@[n as int].kind@ == "using_advanced_search"@,
            r matches Ok(s) ==> (s is Phrase <==> t.nodes@[n as int].kind@ == "using_phrase_search"@),
            r matches Ok(s) ==> (s is Advanced ==> t.nodes@[n as int].kind@ == "using_advanced_search"@),
    {
        if kind_is(t, n, "using_phrase_search") {
            Ok(UsingSearch::Phrase)
        } else if kind_is(t, n, "using_advanced_search") {
            Ok(UsingSearch::Advanced)
        } else {
            Err(panic_unknown_node(t, n, "UsingSearch"))
        }
    }

    pub fn build<'a>(&self, b: &'a DocBuilder<'a>) -> (r: DocRef<'a>)
        ensures
            self is Phrase ==> is_text(*r, "PHRASE SEARCH"@),
            self is Advanced ==> is_text(*r, "ADVANCED SEARCH"@),
    {
        match self {
            UsingSearch::Phrase => b.txt("PHRASE SEARCH"),
            UsingSearch::Advanced => b.txt("ADVANCED SEARCH"),
        }
    }
}

/// `USING ` and what follows.
pub open spec fn sosl_using_layout<'a>(body: Seq<DocRef<'a>>) -> bool {
    body.len() == 2 && is_text(*body[0], "USING"@ + seq![' '])
}

/// `USING PHRASE SEARCH` of a SOSL query.
pub struct SoslUsingClause {
    pub search: UsingSearch,
    pub node_context: NodeContext,
}

impl SoslUsingClause {
    pub fn new(t: &SyntaxTree, n: usize) -> (r: Result<Self, String>)
        requires
            t.wf(),
            t.valid(n as int),
        ensures
            r matches Ok(v) ==> v.node_context.id == n && t.nodes@[n as int].kind@ == "sosl_using_clause"@,
            r is Ok <==> ({
                let cs = crate::accessor::code_children(t, n as int);
                &&& t.nodes@[n as int].kind@ == "sosl_using_clause"@
                &&& cs.len() > 0
                &&& (t.nodes@[cs[0] as int].kind@ == "using_phrase_search"@ || t.nodes@[cs[0] as int].kind@
                    == "using_advanced_search"@)
            }),
            r matches Ok(v) ==> (v.search is Phrase <==> t.nodes@[crate::accessor::code_children(t, n as int)[0] as int].kind@
                == "using_phrase_search"@),
    {
        assert_check(t, n, "sosl_using_clause")?;
        let c = first_c(t, n)?;
        let search = UsingSearch::new(t, c)?;
        Ok(SoslUsingClause { search, node_context: NodeContext::with_punctuation(t, n) })
    }

    pub fn build<'a>(&self, b: &'a DocBuilder<'a>, cm: &CommentMap, st: &mut BuildState) -> (r: DocRef<'a>)
        ensures
            final(st).printed@.len() == old(st).printed@.len(),
            exists|body: Seq<DocRef<'a>>| #[trigger] wraps(*r, body) && sosl_using_layout(body),
    {
        let w = b.txt_("USING");
        let d = self.search.build(b);
        let mut body: Vec<DocRef<'a>> = Vec::new();
        body.push(w);
        body.push(d);
        let ghost body_v = body@;
        assert(sosl_using_layout(body_v));
        let r = with_comments_and_punc(b, cm, st, &self.node_context, body);
        assert(wraps(*r, body_v));
        r
    }
}

/// `SCOPE ` and what follows.
pub open spec fn scope_layout<'a>(body: Seq<DocRef<'a>>) -> bool {
    body.len() == 2 && is_text(*body[0], "SCOPE"@ + seq![' '])
}

/// `SCOPE type`
pub struct UsingScopeClause {
    pub type_: ValueNode,
    pub node_context: NodeContext,
}

impl UsingScopeClause {
    pub fn new(t: &SyntaxTree, n: usize) -> (r: Result<Self, String>)
        requires
            t.wf(),
            t.valid(n as int),
        ensures
            r matches Ok(v) ==> v.node_context.id == n && t.nodes@[n as int].kind@ == "using_scope_clause"@,
            r is Ok <==> t.nodes@[n as int].kind@ == "using_scope_clause"@ && crate::data_model::readable_first(
                t,
                crate::accessor::kind_children(t, n as int, "using_scope_type"@),
            ),
            r matches Ok(v) ==> crate::data_model::read_from(
                t,
                crate::accessor::kind_children(t, n as int, "using_scope_type"@)[0] as int,
                v.type_.node_context.id,
                v.type_.value,
            ),
    {
        assert_check(t, n, "using_scope_clause")?;
        let c = c_by_k(t, n, "using_scope_type")?;
        let type_ = ValueNode::new(t, c)?;
        Ok(UsingScopeClause { type_, node_context: NodeContext::with_punctuation(t, n) })
    }

    pub fn build<'a>(&self, b: &'a DocBuilder<'a>, cm: &CommentMap, st: &mut BuildState) -> (r: DocRef<'a>)
        ensures
            final(st).printed@.len() == old(st).printed@.len(),
            exists|body: Seq<DocRef<'a>>| #[trigger] wraps(*r, body) && scope_layout(body),
    {
        let w = b.txt_("SCOPE");
        let d = self.type_.build(b, cm, st);
        let mut body: Vec<DocRef<'a>> = Vec::new();
        body.push(w);
        body.push(d);
        let ghost body_v = body@;
        assert(scope_layout(body_v));
        let r = with_comments_and_punc(b, cm, st, &self.node_context, body);
        assert(wraps(*r, body_v));
        r
    }
}

/// The field, ` = `, the value.
pub open spec fn lookup_bind_layout<'a>(body: Seq<DocRef<'a>>) -> bool {
    body.len() == 3 && is_text(*body[1], seq![' '] + "="@ + seq![' '])
}

/// A lookup bind whose value is a literal read as its text alone.
pub open spec fn plain_bind(t: &SyntaxTree, n: int) -> bool {
    let v = crate::accessor::field_children(t, n, "bound_value"@);
    v.len() > 0 ==> is_plain_literal_kind(t.nodes@[v[0] as int].kind@)
}

/// Such a bind that can be read: its field and value.
pub open spec fn plain_bind_ok(t: &SyntaxTree, n: int) -> bool {
    &&& t.nodes@[n].kind@ == "using_lookup_bind_expression"@
    &&& crate::data_model::readable_first(t, crate::accessor::kind_children(t, n, "field"@))
    &&& crate::data_model::readable_first(t, crate::accessor::field_children(t, n, "bound_value"@))
}

/// `field = literal` in a lookup bind.
pub struct UsingLookupBindExpression {
    pub field: ValueNode,
    pub bound_value: SoqlLiteral,
    pub node_context: NodeContext,
}

impl UsingLookupBindExpression {
    pub fn new(t: &SyntaxTree, n: usize) -> (r: Result<Self, String>)
        requires
            t.wf(),
            t.valid(n as int),
        ensures
            r matches Ok(v) ==> v.node_context.id == n && t.nodes@[n as int].kind@ == "using_lookup_bind_expression"@,
            plain_bind(t, n as int) ==> (r is Ok <==> plain_bind_ok(t, n as int)),
    {
        assert_check(t, n, "using_lookup_bind_expression")?;
        let f = c_by_k(t, n, "field")?;
        let field = ValueNode::new(t, f)?;
        let v = c_by_n(t, n, "bound_value")?;
        let bound_value = SoqlLiteral::new(t, v)?;
        Ok(UsingLookupBindExpression { field, bound_value, node_context: NodeContext::with_punctuation(t, n) })
    }

    pub fn build<'a>(&self, b: &'a DocBuilder<'a>, cm: &CommentMap, st: &mut BuildState) -> (r: DocRef<'a>)
        ensures
            final(st).printed@.len() == old(st).printed@.len(),
            exists|body: Seq<DocRef<'a>>| #[trigger] wraps(*r, body) && lookup_bind_layout(body),
    {
        let f = self.field.build(b, cm, st);
        let e = b._txt_("=");
        let v = self.bound_value.build(b, cm, st);
        let mut body: Vec<DocRef<'a>> = Vec::new();
        body.push(f);
        body.push(e);
        body.push(v);
        let ghost body_v = body@;
        assert(lookup_bind_layout(body_v));
        let r = with_comments_and_punc(b, cm, st, &self.node_context, body);
        assert(wraps(*r, body_v));
        r
    }
}

/// `BIND ` and what follows.
pub open spec fn bind_layout<'a>(body: Seq<DocRef<'a>>) -> bool {
    body.len() == 2 && is_text(*body[0], "BIND"@ + seq![' '])
}

/// A `BIND` clause whose binds are all plain.
pub open spec fn plain_binds(t: &SyntaxTree, n: int) -> bool {
    let bs = crate::accessor::kind_children(t, n, "using_lookup_bind_expression"@);
    forall|j: int| 0 <= j < bs.len() ==> plain_bind(t, #[trigger] bs[j] as int)
}

/// Such a clause that can be read.
pub open spec fn plain_binds_ok(t: &SyntaxTree, n: int) -> bool {
    let bs = crate::accessor::kind_children(t, n, "using_lookup_bind_expression"@);
    &&& t.nodes@[n].kind@ == "using_lookup_bind_clause"@
    &&& forall|j: int| 0 <= j < bs.len() ==> plain_bind_ok(t, #[trigger] bs[j] as int)
}

/// `BIND a = 1, b = 2`
pub struct UsingLookupBindClause {
    pub bind_exps: Vec<UsingLookupBindExpression>,
    pub node_context: NodeContext,
}

impl UsingLookupBindClause {
    pub fn new(t: &SyntaxTree, n: usize) -> (r: Result<Self, String>)
        requires
            t.wf(),
            t.valid(n as int),
        ensures
            r matches Ok(v) ==> v.node_context.id == n && t.nodes@[n as int].kind@ == "using_lookup_bind_clause"@,
            plain_binds(t, n as int) ==> (r is Ok <==> plain_binds_ok(t, n as int)),
            r matches Ok(v) ==> v.bind_exps@.len() == crate::accessor::kind_children(t, n as int, "using_lookup_bind_expression"@).len(),
    {
        assert_check(t, n, "using_lookup_bind_clause")?;
        let cs = try_cs_by_k(t, n, "using_lookup_bind_expression");
        let mut bind_exps: Vec<UsingLookupBindExpression> = Vec::new();
        let mut i: usize = 0;
        while i < cs.len()
            invariant
                t.wf(),
                t.valid(n as int),
                i <= cs@.len(),
                bind_exps@.len() == i,
                t.nodes@[n as int].kind@ == "using_lookup_bind_clause"@,
                cs@ == crate::accessor::kind_children(t, n as int, "using_lookup_bind_expression"@),
                forall|j: int| 0 <= j < cs@.len() ==> n < #[trigger] cs@[j] < t.nodes@.len(),
                forall|j: int| 0 <= j < i ==> plain_bind(t, #[trigger] cs@[j] as int) ==> plain_bind_ok(t, cs@[j] as int),
            decreases cs@.len() - i,
        {
            let e = match UsingLookupBindExpression::new(t, cs[i]) {
                Ok(e) => e,
                Err(e) => {
                    assert(plain_bind(t, cs@[i as int] as int) ==> !plain_bind_ok(t, cs@[i as int] as int));
                    return Err(e);
                },
            };
            bind_exps.push(e);
            i = i + 1;
        }
        Ok(UsingLookupBindClause { bind_exps, node_context: NodeContext::with_punctuation(t, n) })
    }

    pub fn build<'a>(&self, b: &'a DocBuilder<'a>, cm: &CommentMap, st: &mut BuildState) -> (r: DocRef<'a>)
        ensures
            final(st).printed@.len() == old(st).printed@.len(),
            exists|body: Seq<DocRef<'a>>| #[trigger] wraps(*r, body) && bind_layout(body),
    {
        let w = b.txt_("BIND");
        let ghost len0 = st.printed@.len();
        let mut docs: Vec<DocRef<'a>> = Vec::new();
        let mut i: usize = 0;
        while i < self.bind_exps.len()
            invariant
                st.printed@.len() == len0,
            decreases self.bind_exps@.len() - i,
        {
            let d = self.bind_exps[i].build(b, cm, st);
            docs.push(d);
            i = i + 1;
        }
        let j = join(b, docs.as_slice(), " ");
        let mut body: Vec<DocRef<'a>> = Vec::new();
        body.push(w);
        body.push(j);
        let ghost body_v = body@;
        assert(bind_layout(body_v));
        let r = with_comments_and_punc(b, cm, st, &self.node_context, body);
        assert(wraps(*r, body_v));
        r
    }
}

/// `LOOKUP `, the field, a space, the binding where there is one.
pub open spec fn lookup_layout<'a>(body: Seq<DocRef<'a>>, s: UsingLookupClause) -> bool {
    &&& body.len() == if s.bind_clause is Some { 4int } else { 3int }
    &&& is_text(*body[0], "LOOKUP"@ + seq![' '])
    &&& is_text(*body[2], seq![' '])
}

/// `LOOKUP field BIND ...`
pub struct UsingLookupClause {
    pub lookup_field: DottedIdentifier,
    pub bind_clause: Option<UsingLookupBindClause>,
    pub node_context: NodeContext,
}

/// The binds of a lookup clause, where it has any, are plain literals.
pub open spec fn lookup_binds_plain(t: &SyntaxTree, n: int) -> bool {
    let b = crate::accessor::kind_children(t, n, "using_lookup_bind_clause"@);
    b.len() > 0 ==> plain_binds(t, b[0] as int)
}

/// What a lookup clause needs to be read: its dotted field, and its binds
/// where it has any.
pub open spec fn lookup_clause_ok(t: &SyntaxTree, n: int) -> bool {
    let l = crate::accessor::field_children(t, n, "using_lookup_clause"@);
    let b = crate::accessor::kind_children(t, n, "using_lookup_bind_clause"@);
    &&& t.nodes@[n].kind@ == "using_lookup_clause"@
    &&& l.len() > 0
    &&& t.nodes@[l[0] as int].kind@ == "dotted_identifier"@
    &&& identifiers_readable(t, l[0] as int)
    &&& b.len() > 0 ==> plain_binds_ok(t, b[0] as int)
}

impl UsingLookupClause {
    pub fn new(t: &SyntaxTree, n: usize) -> (r: Result<Self, String>)
        requires
            t.wf(),
            t.valid(n as int),
        ensures
            r matches Ok(v) ==> v.node_context.id == n && t.nodes@[n as int].kind@ == "using_lookup_clause"@,
            lookup_binds_plain(t, n as int) ==> (r is Ok <==> lookup_clause_ok(t, n as int)),
            r matches Ok(v) ==> (v.bind_clause is Some <==> crate::accessor::kind_children(t, n as int, "using_lookup_bind_clause"@).len() > 0),
    {
        assert_check(t, n, "using_lookup_clause")?;
        let l = c_by_n(t, n, "using_lookup_clause")?;
        let lookup_field = DottedIdentifier::new(t, l)?;
        let bind_clause = match try_c_by_k(t, n, "using_lookup_bind_clause") {
            Some(c) => Some(UsingLookupBindClause::new(t, c)?),
            None => None,
        };
        Ok(UsingLookupClause { lookup_field, bind_clause, node_context: NodeContext::with_punctuation(t, n) })
    }

    pub fn build<'a>(&self, b: &'a DocBuilder<'a>, cm: &CommentMap, st: &mut BuildState) -> (r: DocRef<'a>)
        ensures
            final(st).printed@.len() == old(st).printed@.len(),
            exists|body: Seq<DocRef<'a>>| #[trigger] wraps(*r, body) && lookup_layout(body, *self),
    {
        proof {
            reveal_strlit(" ");
            assert(" "@ =~= seq![' ']);
        }
        let mut body: Vec<DocRef<'a>> = Vec::new();
        let w = b.txt_("LOOKUP");
        body.push(w);
        let f = self.lookup_field.build(b, cm, st);
        body.push(f);
        let s = b.txt(" ");
        body.push(s);
        match &self.bind_clause {
            Some(c) => {
                let d = c.build(b, cm, st);
                body.push(d);
            },
            None => {},
        }
        let ghost body_v = body@;
        assert(lookup_layout(body_v, *self));
        let r = with_comments_and_punc(b, cm, st, &self.node_context, body);
        assert(wraps(*r, body_v));
        r
    }
}

/// `ListView = ` and what follows.
pub open spec fn listview_layout<'a>(body: Seq<DocRef<'a>>) -> bool {
    body.len() == 2 && is_text(*body[0], "ListView ="@ + seq![' '])
}

/// `ListView = name`
pub struct UsingListviewClause {
    pub identifier: ValueNode,
    pub node_context: NodeContext,
}

impl UsingListviewClause {
    pub fn new(t: &SyntaxTree, n: usize) -> (r: Result<Self, String>)
        requires
            t.wf(),
            t.valid(n as int),
        ensures
            r matches Ok(v) ==> v.node_context.id == n && t.nodes@[n as int].kind@ == "using_listview_clause"@,
            r is Ok <==> t.nodes@[n as int].kind@ == "using_listview_clause"@ && crate::data_model::readable_first(
                t,
                crate::accessor::kind_children(t, n as int, "identifier"@),
            ),
            r matches Ok(v) ==> crate::data_model::read_from(
                t,
                crate::accessor::kind_children(t, n as int, "identifier"@)[0] as int,
                v.identifier.node_context.id,
                v.identifier.value,
            ),
    {
        assert_check(t, n, "using_listview_clause")?;
        let c = c_by_k(t, n, "identifier")?;
        let identifier = ValueNode::new(t, c)?;
        Ok(UsingListviewClause { identifier, node_context: NodeContext::with_punctuation(t, n) })
    }

    pub fn build<'a>(&self, b: &'a DocBuilder<'a>, cm: &CommentMap, st: &mut BuildState) -> (r: DocRef<'a>)
        ensures
            final(st).printed@.len() == old(st).printed@.len(),
            exists|body: Seq<DocRef<'a>>| #[trigger] wraps(*r, body) && listview_layout(body),
    {
        let w = b.txt_("ListView =");
        let d = self.identifier.build(b, cm, st);
        let mut body: Vec<DocRef<'a>> = Vec::new();
        body.push(w);
        body.push(d);
        let ghost body_v = body@;
        assert(listview_layout(body_v));
        let r = with_comments_and_punc(b, cm, st, &self.node_context, body);
        assert(wraps(*r, body_v));
        r
    }
}

/// What a node after `USING` needs to be read, by its kind.
pub open spec fn using_option_ok(t: &SyntaxTree, n: int) -> bool {
    ||| t.nodes@[n].kind@ == "using_scope_clause"@ && crate::data_model::readable_first(
        t,
        crate::accessor::kind_children(t, n, "using_scope_type"@),
    )
    ||| t.nodes@[n].kind@ == "using_listview_clause"@ && crate::data_model::readable_first(
        t,
        crate::accessor::kind_children(t, n, "identifier"@),
    )
    ||| t.nodes@[n].kind@ == "using_lookup_clause"@ && lookup_clause_ok(t, n)
}

/// A lookup clause after `USING` has plain binds.
pub open spec fn using_option_plain(t: &SyntaxTree, n: int) -> bool {
    t.nodes@[n].kind@ == "using_lookup_clause"@ ==> lookup_binds_plain(t, n)
}

/// The node an option after `USING` was read from.
pub open spec fn using_option_id(o: UsingClauseOption) -> usize {
    match o {
        UsingClauseOption::Scope(x) => x.node_context.id,
        UsingClauseOption::Lookup(x) => x.node_context.id,
        UsingClauseOption::Listview(x) => x.node_context.id,
    }
}

/// What follows `USING` in a returned object.
pub enum UsingClauseOption {
    Scope(UsingScopeClause),
    Lookup(UsingLookupClause),
    Listview(UsingListviewClause),
}

impl UsingClauseOption {
    pub fn new(t: &SyntaxTree, n: usize) -> (r: Result<Self, String>)
        requires
            t.wf(),
            t.valid(n as int),
        ensures
            (t.nodes@[n as int].kind@ != "using_scope_clause"@ && t.nodes@[n as int].kind@ != "using_lookup_clause"@ && t.nodes@[n as int].kind@ != "using_listview_clause"@) ==> r is Err,
            r matches Ok(v) ==> (v is Scope ==> t.nodes@[n as int].kind@ == "using_scope_clause"@),
            r matches Ok(v) ==> (v is Lookup ==> t.nodes@[n as int].kind@ == "using_lookup_clause"@),
            r matches Ok(v) ==> (v is Listview ==> t.nodes@[n as int].kind@ == "using_listview_clause"@),
            using_option_plain(t, n as int) ==> (r is Ok <==> using_option_ok(t, n as int)),
            r matches Ok(v) ==> using_option_id(v) == n,
    {
        proof {
            reveal_strlit("using_scope_clause");
            reveal_strlit("using_lookup_clause");
            reveal_strlit("using_listview_clause");
            assert("using_scope_clause"@.len() == 18);
            assert("using_lookup_clause"@.len() == 19);
            assert("using_listview_clause"@.len() == 21);
        }
        if kind_is(t, n, "using_scope_clause") {
            Ok(UsingClauseOption::Scope(UsingScopeClause::new(t, n)?))
        } else if kind_is(t, n, "using_lookup_clause") {
            Ok(UsingClauseOption::Lookup(UsingLookupClause::new(t, n)?))
        } else if kind_is(t, n, "using_listview_clause") {
            Ok(UsingClauseOption::Listview(UsingListviewClause::new(t, n)?))
        } else {
            Err(panic_unknown_node(t, n, "UsingClauseOption"))
        }
    }

    pub fn build<'a>(&self, b: &'a DocBuilder<'a>, cm: &CommentMap, st: &mut BuildState) -> (r: DocRef<'a>)
        ensures
            final(st).printed@.len() == old(st).printed@.len(),
            self is Scope ==> exists|body: Seq<DocRef<'a>>| #[trigger] wraps(*r, body) && scope_layout(body),
            *self matches UsingClauseOption::Lookup(x) ==> exists|body: Seq<DocRef<'a>>| #[trigger] wraps(*r, body) && lookup_layout(body, x),
            self is Listview ==> exists|body: Seq<DocRef<'a>>| #[trigger] wraps(*r, body) && listview_layout(body),
    {
        match self {
            UsingClauseOption::Scope(x) => x.build(b, cm, st),
            UsingClauseOption::Lookup(x) => x.build(b, cm, st),
            UsingClauseOption::Listview(x) => x.build(b, cm, st),
        }
    }
}

/// `USING ` and what follows.
pub open spec fn using_layout<'a>(body: Seq<DocRef<'a>>) -> bool {
    body.len() == 2 && is_text(*body[0], "USING"@ + seq![' '])
}

/// `USING option` in a returned object.
pub struct UsingClause {
    pub option: UsingClauseOption,
    pub node_context: NodeContext,
}

impl UsingClause {
    pub fn new(t: &SyntaxTree, n: usize) -> (r: Result<Self, String>)
        requires
            t.wf(),
            t.valid(n as int),
        ensures
            r matches Ok(v) ==> v.node_context.id == n && t.nodes@[n as int].kind@ == "using_clause"@,
            ({
                let cs = crate::accessor::code_children(t, n as int);
                cs.len() > 0 ==> using_option_plain(t, cs[0] as int)
            }) ==> (r is Ok <==> ({
                let cs = crate::accessor::code_children(t, n as int);
                t.nodes@[n as int].kind@ == "using_clause"@ && cs.len() > 0 && using_option_ok(t, cs[0] as int)
            })),
            r matches Ok(v) ==> using_option_id(v.option) == crate::accessor::code_children(t, n as int)[0],
    {
        assert_check(t, n, "using_clause")?;
        let c = first_c(t, n)?;
        let option = UsingClauseOption::new(t, c)?;
        Ok(UsingClause { option, node_context: NodeContext::with_punctuation(t, n) })
    }

    pub fn build<'a>(&self, b: &'a DocBuilder<'a>, cm: &CommentMap, st: &mut BuildState) -> (r: DocRef<'a>)
        ensures
            final(st).printed@.len() == old(st).printed@.len(),
            exists|body: Seq<DocRef<'a>>| #[trigger] wraps(*r, body) && using_layout(body),
    {
        let w = b.txt_("USING");
        let d = self.option.build(b, cm, st);
        let mut body: Vec<DocRef<'a>> = Vec::new();
        body.push(w);
        body.push(d);
        let ghost body_v = body@;
        assert(using_layout(body_v));
        let r = with_comments_and_punc(b, cm, st, &self.node_context, body);
        assert(wraps(*r, body_v));
        r
    }
}

/// The parts of a returned object's query: the fields, then each clause
/// that is there.
pub open spec fn sobject_part_count(s: SObjectReturnQuery) -> nat {
    1 + (if s.using_clause is Some { 1nat } else { 0nat }) + (if s.where_clause is Some { 1nat } else { 0nat })
        + (if s.order_by_clause is Some { 1nat } else { 0nat }) + (if s.limit_clause is Some { 1nat } else { 0nat })
        + (if s.offset_clause is Some { 1nat } else { 0nat })
}

/// `(`, then, indented, a break that vanishes when flat and the parts each
/// two apart by a soft line break, then `)`, as one group.
pub open spec fn sobject_query_layout<'a>(body: Seq<DocRef<'a>>, s: SObjectReturnQuery, indent: u32) -> bool {
    &&& body.len() == 1
    &&& *body[0] is Choice
    &&& *body[0]->Choice_0 == Doc::Flat(body[0]->Choice_1)
    &&& *body[0]->Choice_1 is Concat
    &&& ({
        let p = concat_parts(*body[0]->Choice_1);
        &&& p.len() == 3
        &&& is_text(*p[0], "("@)
        &&& is_text(*p[2], ")"@)
        &&& *p[1] is Indent
        &&& p[1]->Indent_0 == indent
        &&& *p[1]->Indent_1 is Concat
        &&& concat_parts(*p[1]->Indent_1).len() == 2
        &&& *concat_parts(*p[1]->Indent_1)[0] == Doc::Maybeline
        &&& is_softline_list(*concat_parts(*p[1]->Indent_1)[1], sobject_part_count(s))
    })
}

/// The fields and clauses in parentheses after a returned object.
pub struct SObjectReturnQuery {
    pub selected_fields: Vec<SelectableExpression>,
    pub using_clause: Option<UsingClause>,
    pub where_clause: Option<WhereClause>,
    pub order_by_clause: Option<OrderByClause>,
    pub limit_clause: Option<LimitClause>,
    pub offset_clause: Option<OffsetClause>,
    pub node_context: NodeContext,
}

impl SObjectReturnQuery {
    /// `(fields clauses)` on one line when it fits, else broken at each
    /// field and clause, indented.
    pub fn build<'a>(&self, b: &'a DocBuilder<'a>, cm: &CommentMap, st: &mut BuildState) -> (r: DocRef<'a>)
        ensures
            final(st).printed@.len() == old(st).printed@.len(),
            exists|body: Seq<DocRef<'a>>| #[trigger] wraps(*r, body) && sobject_query_layout(body, *self, b.config.indent_size),
        decreases self,
    {
        let mut docs: Vec<DocRef<'a>> = Vec::new();
        let fs = build_selectables(&self.selected_fields, b, cm, st);
        let j = soft_join(b, fs.as_slice());
        docs.push(j);
        match &self.using_clause {
            Some(c) => {
                let d = c.build(b, cm, st);
                docs.push(d);
            },
            None => {},
        }
        match &self.where_clause {
            Some(c) => {
                let d = c.build(b, cm, st);
                docs.push(d);
            },
            None => {},
        }
        match &self.order_by_clause {
            Some(c) => {
                let d = c.build(b, cm, st);
                docs.push(d);
            },
            None => {},
        }
        match &self.limit_clause {
            Some(c) => {
                let d = c.build(b, cm, st);
                docs.push(d);
            },
            None => {},
        }
        match &self.offset_clause {
            Some(c) => {
                let d = c.build(b, cm, st);
                docs.push(d);
            },
            None => {},
        }
        assert(docs@.len() == sobject_part_count(*self));
        let sl = b.softline();
        let sep = b.insertable(None, None, Some(sl));
        let m = b.maybeline();
        let open = b.insertable(None, Some("("), Some(m));
        let close = b.insertable(None, Some(")"), None);
        let g = b.group_surround(docs.as_slice(), &sep, &open, &close);
        let mut body: Vec<DocRef<'a>> = Vec::new();
        body.push(g);
        let ghost body_v = body@;
        proof {
            let p = concat_parts(*g->Choice_1);
            assert(opt_seq(open.pre) + opt_seq(open.text) =~= seq![open.text->0]);
            assert(opt_seq(close.text) + opt_seq(close.suf) =~= seq![close.text->0]);
            assert(opt_seq(close.pre) =~= Seq::<DocRef<'a>>::empty());
            assert(opt_seq(open.suf) =~= seq![m]);
            assert(insertable_parts(sep) =~= seq![sl]);
            assert(p[0] == open.text->0 && p[2] == close.text->0);
            let x = p[1]->Indent_1;
            assert(concat_parts(*x)[0] == concat_parts(*x).subrange(0, 1)[0]);
            assert(concat_parts(*x).last() == concat_parts(*x)[1]);
            assert(interspersed(docs@, insertable_parts(sep)) == concat_parts(*concat_parts(*x)[1]));
            assert(is_softline_list(*concat_parts(*x)[1], sobject_part_count(*self)));
            assert(sobject_query_layout(body_v, *self, b.config.indent_size));
        }
        let r = with_comments_and_punc(b, cm, st, &self.node_context, body);
        assert(wraps(*r, body_v));
        r
    }
}

/// The object name, then its fields and filters where they are given.
pub open spec fn sobject_return_layout<'a>(body: Seq<DocRef<'a>>, s: SObjectReturn) -> bool {
    body.len() == if s.sobject_return_query is Some { 2int } else { 1int }
}

/// An object named after `RETURNING` with no field list, whose name can
/// be read.
pub open spec fn bare_sobject_return_ok(t: &SyntaxTree, n: int) -> bool {
    &&& t.nodes@[n].kind@ == "sobject_return"@
    &&& crate::accessor::kind_children(t, n, "selected_fields"@).len() == 0
    &&& crate::data_model::readable_first(t, crate::accessor::kind_children(t, n, "identifier"@))
}

/// `Account(Id, Name WHERE ...)` after `RETURNING`.
pub struct SObjectReturn {
    pub identifier: ValueNode,
    pub sobject_return_query: Option<SObjectReturnQuery>,
    pub node_context: NodeContext,
}

impl SObjectReturn {
    pub fn new(t: &SyntaxTree, n: usize) -> (r: Result<Self, String>)
        requires
            t.wf(),
            t.valid(n as int),
        ensures
            r matches Ok(v) ==> v.node_context.id == n && t.nodes@[n as int].kind@ == "sobject_return"@,
            crate::accessor::kind_children(t, n as int, "selected_fields"@).len() == 0 ==> (r is Ok
                <==> bare_sobject_return_ok(t, n as int)),
            r matches Ok(v) ==> (v.sobject_return_query is Some <==> crate::accessor::kind_children(t, n as int, "selected_fields"@).len() > 0),
            r matches Ok(v) ==> crate::strs::bytes_of(v.identifier.value@) == crate::accessor::node_bytes(
                t,
                crate::accessor::kind_children(t, n as int, "identifier"@)[0] as int,
            ),
        decreases t.nodes@.len() - n, 1int,
    {
        assert_check(t, n, "sobject_return")?;
        let sobject_return_query = match try_c_by_k(t, n, "selected_fields") {
            Some(s) => {
                let selected_fields = selectables_of(t, s)?;
                let using_clause = match try_c_by_k(t, n, "using_clause") {
                    Some(c) => Some(UsingClause::new(t, c)?),
                    None => None,
                };
                let where_clause = match try_c_by_k(t, n, "where_clause") {
                    Some(c) => Some(WhereClause::new(t, c)?),
                    None => None,
                };
                let order_by_clause = match try_c_by_k(t, n, "order_by_clause") {
                    Some(c) => Some(OrderByClause::new(t, c)?),
                    None => None,
                };
                let limit_clause = match try_c_by_k(t, n, "limit_clause") {
                    Some(c) => Some(LimitClause::new(t, c)?),
                    None => None,
                };
                let offset_clause = match try_c_by_k(t, n, "offset_clause") {
                    Some(c) => Some(OffsetClause::new(t, c)?),
                    None => None,
                };
                Some(SObjectReturnQuery {
                    selected_fields,
                    using_clause,
                    where_clause,
                    order_by_clause,
                    limit_clause,
                    offset_clause,
                    node_context: NodeContext::with_punctuation(t, s),
                })
            },
            None => None,
        };
        let i = c_by_k(t, n, "identifier")?;
        let identifier = ValueNode::new(t, i)?;
        Ok(SObjectReturn { identifier, sobject_return_query, node_context: NodeContext::with_punctuation(t, n) })
    }

    pub fn build<'a>(&self, b: &'a DocBuilder<'a>, cm: &CommentMap, st: &mut BuildState) -> (r: DocRef<'a>)
        ensures
            final(st).printed@.len() == old(st).printed@.len(),
            exists|body: Seq<DocRef<'a>>| #[trigger] wraps(*r, body) && sobject_return_layout(body, *self),
        decreases self,
    {
        let mut body: Vec<DocRef<'a>> = Vec::new();
        let i = self.identifier.build(b, cm, st);
        body.push(i);
        match &self.sobject_return_query {
            Some(q) => {
                let d = q.build(b, cm, st);
                body.push(d);
            },
            None => {},
        }
        let ghost body_v = body@;
        assert(sobject_return_layout(body_v, *self));
        let r = with_comments_and_punc(b, cm, st, &self.node_context, body);
        assert(wraps(*r, body_v));
        r
    }
}

/// `RETURNING` and, after a soft line break, the objects, grouped and
/// indented.
pub open spec fn returning_layout<'a>(body: Seq<DocRef<'a>>) -> bool {
    body.len() == 2 && is_text(*body[0], "RETURNING"@) && *body[1] is Choice
}

/// `RETURNING Account(...), Contact`
pub struct ReturningClause {
    pub sobject_returns: Vec<SObjectReturn>,
    pub node_context: NodeContext,
}

impl ReturningClause {
    pub fn new(t: &SyntaxTree, n: usize) -> (r: Result<Self, String>)
        requires
            t.wf(),
            t.valid(n as int),
        ensures
            r matches Ok(v) ==> v.node_context.id == n,
            crate::accessor::kind_children(t, n as int, "sobject_return"@).len() == 0 ==> r is Err,
            (forall|j: int| 0 <= j < crate::accessor::kind_children(t, n as int, "sobject_return"@).len()
                ==> crate::accessor::kind_children(t, #[trigger] crate::accessor::kind_children(t, n as int, "sobject_return"@)[j] as int, "selected_fields"@).len() == 0)
                ==> (r is Ok <==> crate::accessor::kind_children(t, n as int, "sobject_return"@).len() > 0
                    && forall|j: int| 0 <= j < crate::accessor::kind_children(t, n as int, "sobject_return"@).len()
                        ==> bare_sobject_return_ok(t, #[trigger] crate::accessor::kind_children(t, n as int, "sobject_return"@)[j] as int)),
            r matches Ok(v) ==> v.sobject_returns@.len() == crate::accessor::kind_children(t, n as int, "sobject_return"@).len(),
        decreases t.nodes@.len() - n, 1int,
    {
        let cs = cs_by_k(t, n, "sobject_return")?;
        let mut sobject_returns: Vec<SObjectReturn> = Vec::new();
        let mut i: usize = 0;
        while i < cs.len()
            invariant
                t.wf(),
                t.valid(n as int),
                i <= cs@.len(),
                sobject_returns@.len() == i,
                cs@ == crate::accessor::kind_children(t, n as int, "sobject_return"@),
                forall|j: int| 0 <= j < cs@.len() ==> n < #[trigger] cs@[j] < t.nodes@.len(),
                forall|j: int| 0 <= j < i ==> crate::accessor::kind_children(t, #[trigger] cs@[j] as int, "selected_fields"@).len() == 0
                    ==> bare_sobject_return_ok(t, cs@[j] as int),
            decreases cs@.len() - i,
        {
            let s = match SObjectReturn::new(t, cs[i]) {
                Ok(s) => s,
                Err(e) => {
                    assert(crate::accessor::kind_children(t, cs@[i as int] as int, "selected_fields"@).len() == 0
                        ==> !bare_sobject_return_ok(t, cs@[i as int] as int));
                    return Err(e);
                },
            };
            sobject_returns.push(s);
            i = i + 1;
        }
        Ok(ReturningClause { sobject_returns, node_context: NodeContext::with_punctuation(t, n) })
    }

    pub fn build<'a>(&self, b: &'a DocBuilder<'a>, cm: &CommentMap, st: &mut BuildState) -> (r: DocRef<'a>)
        ensures
            final(st).printed@.len() == old(st).printed@.len(),
            exists|body: Seq<DocRef<'a>>| #[trigger] wraps(*r, body) && returning_layout(body),
        decreases self,
    {
        let w = b.txt("RETURNING");
        let ghost len0 = st.printed@.len();
        let mut docs: Vec<DocRef<'a>> = Vec::new();
        let mut i: usize = 0;
        while i < self.sobject_returns.len()
            invariant
                st.printed@.len() == len0,
            decreases self.sobject_returns@.len() - i,
        {
            let d = self.sobject_returns[i].build(b, cm, st);
            docs.push(d);
            i = i + 1;
        }
        let sl = b.softline();
        let j = soft_join(b, docs.as_slice());
        let c = pair(b, sl, j);
        let ind = b.indent(c);
        let g = b.group(ind);
        let mut body: Vec<DocRef<'a>> = Vec::new();
        body.push(w);
        body.push(g);
        let ghost body_v = body@;
        assert(returning_layout(body_v));
        let r = with_comments_and_punc(b, cm, st, &self.node_context, body);
        assert(wraps(*r, body_v));
        r
    }
}

/// The category group, a space, the filter, a space, then the categories.
pub open spec fn data_cat_filter_layout<'a>(body: Seq<DocRef<'a>>) -> bool {
    body.len() == 5 && is_text(*body[1], seq![' ']) && is_text(*body[3], seq![' '])
}

/// A data category filter that can be read: at least two identifiers, each
/// readable, and a readable filter type.
pub open spec fn data_cat_filter_ok(t: &SyntaxTree, n: int) -> bool {
    let ids = crate::accessor::kind_children(t, n, "identifier"@);
    let ft = crate::accessor::kind_children(t, n, "with_data_cat_filter_type"@);
    &&& t.nodes@[n].kind@ == "with_data_cat_filter"@
    &&& ids.len() >= 2
    &&& forall|j: int| 0 <= j < ids.len() ==> crate::accessor::readable(t, #[trigger] ids[j] as int)
    &&& ft.len() > 0
    &&& crate::accessor::readable(t, ft[0] as int)
}

/// A data category expression that can be read: one or more filters, each
/// of which can be read.
pub open spec fn data_cat_expression_ok(t: &SyntaxTree, n: int) -> bool {
    let fs = crate::accessor::kind_children(t, n, "with_data_cat_filter"@);
    &&& t.nodes@[n].kind@ == "with_data_cat_expression"@
    &&& fs.len() > 0
    &&& forall|j: int| 0 <= j < fs.len() ==> data_cat_filter_ok(t, #[trigger] fs[j] as int)
}

/// `a AT b` in a data category filter.
pub struct WithDataCatFilter {
    pub identifier: ValueNode,
    pub filter_type: ValueNodeUpperCase,
    pub identifiers: Vec<ValueNode>,
    pub node_context: NodeContext,
}

impl WithDataCatFilter {
    pub fn new(t: &SyntaxTree, n: usize) -> (r: Result<Self, String>)
        requires
            t.wf(),
            t.valid(n as int),
        ensures
            r is Ok <==> t.nodes@[n as int].kind@ == "with_data_cat_filter"@ && crate::accessor::kind_children(t, n as int, "identifier"@).len() >= 2 && (forall|j: int| 0 <= j < crate::accessor::kind_children(t, n as int, "identifier"@).len() ==> crate::accessor::readable(t, #[trigger] crate::accessor::kind_children(t, n as int, "identifier"@)[j] as int)) && crate::accessor::kind_children(t, n as int, "with_data_cat_filter_type"@).len() > 0 && crate::accessor::readable(t, crate::accessor::kind_children(t, n as int, "with_data_cat_filter_type"@)[0] as int),
            r matches Ok(v) ==> v.identifiers@.len() == crate::accessor::kind_children(t, n as int, "identifier"@).len() - 1,
            r matches Ok(v) ==> v.node_context.id == n && t.nodes@[n as int].kind@ == "with_data_cat_filter"@
                && v.identifiers@.len() >= 1,
    {
        assert_check(t, n, "with_data_cat_filter")?;
        let all = cs_by_k(t, n, "identifier")?;
        if all.len() < 2 {
            return Err(owned("At least 2 identifier nodes should exist in WithDataCatFilter"));
        }
        let identifier = ValueNode::new(t, all[0])?;
        let mut identifiers: Vec<ValueNode> = Vec::new();
        let mut i: usize = 1;
        while i < all.len()
            invariant
                t.wf(),
                t.valid(n as int),
                1 <= i <= all@.len(),
                identifiers@.len() == i - 1,
                forall|j: int| 0 <= j < all@.len() ==> n < #[trigger] all@[j] < t.nodes@.len(),
                all@ == crate::accessor::kind_children(t, n as int, "identifier"@),
                t.nodes@[n as int].kind@ == "with_data_cat_filter"@,
                forall|j: int| 0 <= j < i ==> crate::accessor::readable(t, #[trigger] all@[j] as int),
            decreases all@.len() - i,
        {
            let v = match ValueNode::new(t, all[i]) {
                Ok(v) => v,
                Err(e) => {
                    assert(!crate::accessor::readable(t, all@[i as int] as int));
                    return Err(e);
                },
            };
            identifiers.push(v);
            i = i + 1;
        }
        let f = c_by_k(t, n, "with_data_cat_filter_type")?;
        let filter_type = ValueNodeUpperCase::new(t, f)?;
        Ok(WithDataCatFilter { identifier, filter_type, identifiers, node_context: NodeContext::with_punctuation(t, n) })
    }

    pub fn build<'a>(&self, b: &'a DocBuilder<'a>, cm: &CommentMap, st: &mut BuildState) -> (r: DocRef<'a>)
        ensures
            final(st).printed@.len() == old(st).printed@.len(),
            exists|body: Seq<DocRef<'a>>| #[trigger] wraps(*r, body) && data_cat_filter_layout(body),
    {
        proof {
            reveal_strlit(" ");
            assert(" "@ =~= seq![' ']);
        }
        let mut body: Vec<DocRef<'a>> = Vec::new();
        let i = self.identifier.build(b, cm, st);
        body.push(i);
        let s1 = b.txt(" ");
        body.push(s1);
        let f = self.filter_type.build(b, cm, st);
        body.push(f);
        let s2 = b.txt(" ");
        body.push(s2);
        let docs = build_values(&self.identifiers, b, cm, st);
        if docs.len() == 1 {
            body.push(docs[0]);
        } else {
            let g = surround_group(b, docs.as_slice(), "(", ")", false);
            body.push(g);
        }
        let ghost body_v = body@;
        assert(data_cat_filter_layout(body_v));
        let r = with_comments_and_punc(b, cm, st, &self.node_context, body);
        assert(wraps(*r, body_v));
        r
    }
}

/// `DATA CATEGORY`, an indented soft line break, then the filters,
/// indented, each two apart by a soft line break and `AND `.
pub open spec fn data_category_layout<'a>(body: Seq<DocRef<'a>>, n: nat, indent: u32) -> bool {
    &&& body.len() == 3
    &&& is_text(*body[0], "DATA CATEGORY"@)
    &&& *body[1] is Indent && body[1]->Indent_0 == indent && *body[1]->Indent_1 == Doc::Softline
    &&& *body[2] is Indent && body[2]->Indent_0 == indent && *body[2]->Indent_1 is Concat
    &&& exists|elems: Seq<DocRef<'a>>, sep: Seq<DocRef<'a>>|
        #![trigger interspersed(elems, sep)]
        elems.len() == n && sep.len() == 2 && *sep[0] == Doc::Softline && is_text(*sep[1], "AND "@)
            && concat_parts(*body[2]->Indent_1) == interspersed(elems, sep)
}

/// `DATA CATEGORY a AT b AND c ABOVE d`
pub struct WithDataCatExpression {
    pub filters: Vec<WithDataCatFilter>,
    pub node_context: NodeContext,
}

impl WithDataCatExpression {
    pub fn new(t: &SyntaxTree, n: usize) -> (r: Result<Self, String>)
        requires
            t.wf(),
            t.valid(n as int),
        ensures
            r is Ok <==> data_cat_expression_ok(t, n as int),
            r matches Ok(v) ==> v.node_context.id == n && t.nodes@[n as int].kind@ == "with_data_cat_expression"@,
            r matches Ok(v) ==> v.filters@.len() == crate::accessor::kind_children(t, n as int, "with_data_cat_filter"@).len(),
    {
        assert_check(t, n, "with_data_cat_expression")?;
        let cs = cs_by_k(t, n, "with_data_cat_filter")?;
        let mut filters: Vec<WithDataCatFilter> = Vec::new();
        let mut i: usize = 0;
        while i < cs.len()
            invariant
                t.wf(),
                t.valid(n as int),
                t.nodes@[n as int].kind@ == "with_data_cat_expression"@,
                i <= cs@.len(),
                filters@.len() == i,
                cs@ == crate::accessor::kind_children(t, n as int, "with_data_cat_filter"@),
                forall|j: int| 0 <= j < cs@.len() ==> n < #[trigger] cs@[j] < t.nodes@.len(),
                forall|j: int| 0 <= j < i ==> data_cat_filter_ok(t, #[trigger] cs@[j] as int),
            decreases cs@.len() - i,
        {
            let f = match WithDataCatFilter::new(t, cs[i]) {
                Ok(f) => f,
                Err(e) => {
                    assert(!data_cat_filter_ok(t, cs@[i as int] as int));
                    return Err(e);
                },
            };
            filters.push(f);
            i = i + 1;
        }
        Ok(WithDataCatExpression { filters, node_context: NodeContext::with_punctuation(t, n) })
    }

    pub fn build<'a>(&self, b: &'a DocBuilder<'a>, cm: &CommentMap, st: &mut BuildState) -> (r: DocRef<'a>)
        ensures
            final(st).printed@.len() == old(st).printed@.len(),
            exists|body: Seq<DocRef<'a>>| #[trigger] wraps(*r, body) && data_category_layout(body, self.filters@.len(), b.config.indent_size),
    {
        let mut body: Vec<DocRef<'a>> = Vec::new();
        let w = b.txt("DATA CATEGORY");
        body.push(w);
        let sl = b.softline();
        let isl = b.indent(sl);
        body.push(isl);
        let ghost len0 = st.printed@.len();
        let mut docs: Vec<DocRef<'a>> = Vec::new();
        let mut i: usize = 0;
        while i < self.filters.len()
            invariant
                st.printed@.len() == len0,
                i <= self.filters@.len(),
                docs@.len() == i,
                body@.len() == 2,
                body@[0] == w,
                body@[1] == isl,
            decreases self.filters@.len() - i,
        {
            let d = self.filters[i].build(b, cm, st);
            docs.push(d);
            i = i + 1;
        }
        let sl2 = b.softline();
        let sep = b.insertable(Some(sl2), Some("AND "), None);
        let j = b.intersperse(docs.as_slice(), &sep);
        let ij = b.indent(j);
        body.push(ij);
        let ghost body_v = body@;
        proof {
            assert(insertable_parts(sep) =~= seq![sl2, sep.text->0]);
            assert(interspersed(docs@, insertable_parts(sep)) == concat_parts(*j));
            assert(body_v[2] == ij);
            assert(data_category_layout(body_v, self.filters@.len(), b.config.indent_size));
        }
        let r = with_comments_and_punc(b, cm, st, &self.node_context, body);
        assert(wraps(*r, body_v));
        r
    }
}

/// `DIVISION = ...`
pub enum WithDivisionExpression {
    Bound(BoundApexExpression),
    StringLiteral(String),
}

impl WithDivisionExpression {
    pub fn new(t: &SyntaxTree, n: usize) -> (r: Result<Self, String>)
        requires
            t.wf(),
            t.valid(n as int),
        ensures
            r is Ok ==> t.nodes@[n as int].kind@ == "with_division_expression"@,
            crate::accessor::code_children(t, n as int).len() == 0 ==> r is Err,
            crate::accessor::code_children(t, n as int).len() > 0 && t.nodes@[crate::accessor::code_children(t, n as int)[0] as int].kind@ == "string_literal"@
                ==> (r is Ok <==> t.nodes@[n as int].kind@ == "with_division_expression"@ && crate::accessor::readable(t, crate::accessor::code_children(t, n as int)[0] as int)),
            crate::accessor::code_children(t, n as int).len() > 0 && t.nodes@[crate::accessor::code_children(t, n as int)[0] as int].kind@ != "string_literal"@
                && t.nodes@[crate::accessor::code_children(t, n as int)[0] as int].kind@ != "bound_apex_expression"@ ==> r is Err,
            r matches Ok(WithDivisionExpression::StringLiteral(v)) ==> v@ == crate::accessor::node_text(t, crate::accessor::code_children(t, n as int)[0] as int),
        decreases t.nodes@.len() - n, 1int,
    {
        proof {
            reveal_strlit("string_literal");
            reveal_strlit("bound_apex_expression");
            assert("string_literal"@.len() != "bound_apex_expression"@.len());
        }
        assert_check(t, n, "with_division_expression")?;
        let c = first_c(t, n)?;
        if kind_is(t, c, "bound_apex_expression") {
            Ok(WithDivisionExpression::Bound(BoundApexExpression::new(t, c)?))
        } else if kind_is(t, c, "string_literal") {
            Ok(WithDivisionExpression::StringLiteral(value(t, c)?))
        } else {
            Err(panic_unknown_node(t, n, "WithDivisionExpression"))
        }
    }

    pub fn build<'a>(&self, b: &'a DocBuilder<'a>, cm: &CommentMap, st: &mut BuildState) -> (r: DocRef<'a>)
        ensures
            final(st).printed@.len() == old(st).printed@.len(),
            *r is Concat && concat_parts(*r).len() == 2,
        decreases self,
    {
        let w = b.txt("DIVISION = ");
        let d = match self {
            WithDivisionExpression::Bound(x) => x.build(b, cm, st),
            WithDivisionExpression::StringLiteral(s) => b.txt(s.as_str()),
        };
        pair(b, w, d)
    }
}

/// `SNIPPET`, then `(TARGET_LENGTH = `, the length and `)` where a length is
/// given.
pub open spec fn snippet_layout<'a>(body: Seq<DocRef<'a>>, s: WithSnippetExpression) -> bool {
    &&& body.len() == if s.target_length is Some { 4int } else { 1int }
    &&& is_text(*body[0], "SNIPPET"@)
    &&& s.target_length is Some ==> is_text(*body[1], "(TARGET_LENGTH = "@) && is_text(*body[3], ")"@)
}

/// `SNIPPET (TARGET_LENGTH = n)`
pub struct WithSnippetExpression {
    pub target_length: Option<ValueNode>,
    pub node_context: NodeContext,
}

impl WithSnippetExpression {
    pub fn new(t: &SyntaxTree, n: usize) -> (r: Result<Self, String>)
        requires
            t.wf(),
            t.valid(n as int),
        ensures
            r matches Ok(v) ==> v.node_context.id == n && t.nodes@[n as int].kind@ == "with_snippet_expression"@,
            r is Ok <==> t.nodes@[n as int].kind@ == "with_snippet_expression"@ && crate::data_model::readable_if_any(
                t,
                crate::accessor::kind_children(t, n as int, "int"@),
            ),
            r matches Ok(v) ==> (v.target_length is Some <==> crate::accessor::kind_children(t, n as int, "int"@).len() > 0),
            r matches Ok(v) ==> (v.target_length matches Some(x) ==> crate::data_model::read_from(
                t,
                crate::accessor::kind_children(t, n as int, "int"@)[0] as int,
                x.node_context.id,
                x.value,
            )),
    {
        assert_check(t, n, "with_snippet_expression")?;
        let target_length = match try_c_by_k(t, n, "int") {
            Some(c) => Some(ValueNode::new(t, c)?),
            None => None,
        };
        Ok(WithSnippetExpression { target_length, node_context: NodeContext::with_punctuation(t, n) })
    }

    pub fn build<'a>(&self, b: &'a DocBuilder<'a>, cm: &CommentMap, st: &mut BuildState) -> (r: DocRef<'a>)
        ensures
            final(st).printed@.len() == old(st).printed@.len(),
            exists|body: Seq<DocRef<'a>>| #[trigger] wraps(*r, body) && snippet_layout(body, *self),
    {
        let mut body: Vec<DocRef<'a>> = Vec::new();
        let w = b.txt("SNIPPET");
        body.push(w);
        match &self.target_length {
            Some(i) => {
                let o = b.txt("(TARGET_LENGTH = ");
                body.push(o);
                let d = i.build(b, cm, st);
                body.push(d);
                let c = b.txt(")");
                body.push(c);
            },
            None => {},
        }
        let ghost body_v = body@;
        assert(snippet_layout(body_v, *self));
        let r = with_comments_and_punc(b, cm, st, &self.node_context, body);
        assert(wraps(*r, body_v));
        r
    }
}

/// `NETWORK` and the comparison.
pub open spec fn network_layout<'a>(body: Seq<DocRef<'a>>) -> bool {
    body.len() == 2 && is_text(*body[0], "NETWORK"@)
}

/// `NETWORK = ...` or `NETWORK IN (...)`
pub struct WithNetworkExpression {
    pub comparison: Comparison,
    pub node_context: NodeContext,
}

impl WithNetworkExpression {
    pub fn new(t: &SyntaxTree, n: usize) -> (r: Result<Self, String>)
        requires
            t.wf(),
            t.valid(n as int),
        ensures
            r matches Ok(v) ==> v.node_context.id == n && t.nodes@[n as int].kind@ == "with_network_expression"@,
        decreases t.nodes@.len() - n, 1int,
    {
        assert_check(t, n, "with_network_expression")?;
        let comparison = get_comparison(t, n)?;
        Ok(WithNetworkExpression { comparison, node_context: NodeContext::with_punctuation(t, n) })
    }

    pub fn build<'a>(&self, b: &'a DocBuilder<'a>, cm: &CommentMap, st: &mut BuildState) -> (r: DocRef<'a>)
        ensures
            final(st).printed@.len() == old(st).printed@.len(),
            exists|body: Seq<DocRef<'a>>| #[trigger] wraps(*r, body) && network_layout(body),
        decreases self,
    {
        let w = b.txt("NETWORK");
        let c = self.comparison.build(b, cm, st);
        let mut body: Vec<DocRef<'a>> = Vec::new();
        body.push(w);
        body.push(c);
        let ghost body_v = body@;
        assert(network_layout(body_v));
        let r = with_comments_and_punc(b, cm, st, &self.node_context, body);
        assert(wraps(*r, body_v));
        r
    }
}

/// The keyword text, then the value with its comments.
pub open spec fn keyword_value_layout<'a>(body: Seq<DocRef<'a>>, word: Seq<char>, value: Seq<char>) -> bool {
    body.len() == 2 && is_text(*body[0], word) && wraps_text(*body[1], value)
}

/// A keyword and a value node, as in `METADATA = 'LABELS'`.
fn keyword_value<'a>(b: &'a DocBuilder<'a>, cm: &CommentMap, st: &mut BuildState, word: &str, v: &ValueNode, ctx: &NodeContext) -> (r:
    DocRef<'a>)
    ensures
        final(st).printed@.len() == old(st).printed@.len(),
        exists|body: Seq<DocRef<'a>>| #[trigger] wraps(*r, body) && keyword_value_layout(body, word@, v.value@),
{
    let w = b.txt(word);
    let d = v.build(b, cm, st);
    let mut body: Vec<DocRef<'a>> = Vec::new();
    body.push(w);
    body.push(d);
    let ghost body_v = body@;
    assert(body_v[0] == w && body_v[1] == d);
    let r = with_comments_and_punc(b, cm, st, ctx, body);
    assert(wraps(*r, body_v));
    r
}

/// `METADATA = 'LABELS'`
pub struct WithMetadataExpression {
    pub string_literal: ValueNode,
    pub node_context: NodeContext,
}

impl WithMetadataExpression {
    pub fn new(t: &SyntaxTree, n: usize) -> (r: Result<Self, String>)
        requires
            t.wf(),
            t.valid(n as int),
        ensures
            r matches Ok(v) ==> v.node_context.id == n && t.nodes@[n as int].kind@ == "with_metadata_expression"@,
            r is Ok <==> t.nodes@[n as int].kind@ == "with_metadata_expression"@ && crate::data_model::readable_first(
                t,
                crate::accessor::kind_children(t, n as int, "string_literal"@),
            ),
            r matches Ok(v) ==> crate::data_model::read_from(
                t,
                crate::accessor::kind_children(t, n as int, "string_literal"@)[0] as int,
                v.string_literal.node_context.id,
                v.string_literal.value,
            ),
    {
        assert_check(t, n, "with_metadata_expression")?;
        let c = c_by_k(t, n, "string_literal")?;
        let string_literal = ValueNode::new(t, c)?;
        Ok(WithMetadataExpression { string_literal, node_context: NodeContext::with_punctuation(t, n) })
    }

    pub fn build<'a>(&self, b: &'a DocBuilder<'a>, cm: &CommentMap, st: &mut BuildState) -> (r: DocRef<'a>)
        ensures
            final(st).printed@.len() == old(st).printed@.len(),
            exists|body: Seq<DocRef<'a>>| #[trigger] wraps(*r, body) && keyword_value_layout(body, "METADATA = "@, self.string_literal.value@),
    {
        keyword_value(b, cm, st, "METADATA = ", &self.string_literal, &self.node_context)
    }
}

/// `SPELL_CORRECTION = true`
pub struct WithSpellCorrectionExpression {
    pub boolean: ValueNode,
    pub node_context: NodeContext,
}

impl WithSpellCorrectionExpression {
    pub fn new(t: &SyntaxTree, n: usize) -> (r: Result<Self, String>)
        requires
            t.wf(),
            t.valid(n as int),
        ensures
            r matches Ok(v) ==> v.node_context.id == n && t.nodes@[n as int].kind@ == "with_spell_correction_expression"@,
            r is Ok <==> t.nodes@[n as int].kind@ == "with_spell_correction_expression"@ && crate::data_model::readable_first(
                t,
                crate::accessor::kind_children(t, n as int, "boolean"@),
            ),
            r matches Ok(v) ==> crate::data_model::read_from(
                t,
                crate::accessor::kind_children(t, n as int, "boolean"@)[0] as int,
                v.boolean.node_context.id,
                v.boolean.value,
            ),
    {
        assert_check(t, n, "with_spell_correction_expression")?;
        let c = c_by_k(t, n, "boolean")?;
        let boolean = ValueNode::new(t, c)?;
        Ok(WithSpellCorrectionExpression { boolean, node_context: NodeContext::with_punctuation(t, n) })
    }

    pub fn build<'a>(&self, b: &'a DocBuilder<'a>, cm: &CommentMap, st: &mut BuildState) -> (r: DocRef<'a>)
        ensures
            final(st).printed@.len() == old(st).printed@.len(),
            exists|body: Seq<DocRef<'a>>| #[trigger] wraps(*r, body) && keyword_value_layout(body, "SPELL_CORRECTION = "@, self.boolean.value@),
    {
        keyword_value(b, cm, st, "SPELL_CORRECTION = ", &self.boolean, &self.node_context)
    }
}

/// `PriceBookId = '...'`
pub struct WithPriceBookExpression {
    pub string_literal: ValueNode,
    pub node_context: NodeContext,
}

impl WithPriceBookExpression {
    pub fn new(t: &SyntaxTree, n: usize) -> (r: Result<Self, String>)
        requires
            t.wf(),
            t.valid(n as int),
        ensures
            r matches Ok(v) ==> v.node_context.id == n && t.nodes@[n as int].kind@ == "with_pricebook_expression"@,
            r is Ok <==> t.nodes@[n as int].kind@ == "with_pricebook_expression"@ && crate::data_model::readable_first(
                t,
                crate::accessor::kind_children(t, n as int, "string_literal"@),
            ),
            r matches Ok(v) ==> crate::data_model::read_from(
                t,
                crate::accessor::kind_children(t, n as int, "string_literal"@)[0] as int,
                v.string_literal.node_context.id,
                v.string_literal.value,
            ),
    {
        assert_check(t, n, "with_pricebook_expression")?;
        let c = c_by_k(t, n, "string_literal")?;
        let string_literal = ValueNode::new(t, c)?;
        Ok(WithPriceBookExpression { string_literal, node_context: NodeContext::with_punctuation(t, n) })
    }

    pub fn build<'a>(&self, b: &'a DocBuilder<'a>, cm: &CommentMap, st: &mut BuildState) -> (r: DocRef<'a>)
        ensures
            final(st).printed@.len() == old(st).printed@.len(),
            exists|body: Seq<DocRef<'a>>| #[trigger] wraps(*r, body) && keyword_value_layout(body, "PriceBookId = "@, self.string_literal.value@),
    {
        keyword_value(b, cm, st, "PriceBookId = ", &self.string_literal, &self.node_context)
    }
}

/// What follows `WITH` in a SOSL query, laid out as its kind says.
pub open spec fn sosl_with_type_doc<'a>(d: Doc<'a>, t: SoslWithType, indent: u32) -> bool {
    match t {
        SoslWithType::DataCat(x) => exists|body: Seq<DocRef<'a>>| #[trigger] wraps(d, body) && data_category_layout(body, x.filters@.len(), indent),
        SoslWithType::Division(_) => d is Concat && concat_parts(d).len() == 2,
        SoslWithType::Snippet(x) => exists|body: Seq<DocRef<'a>>| #[trigger] wraps(d, body) && snippet_layout(body, x),
        SoslWithType::Network(_) => exists|body: Seq<DocRef<'a>>| #[trigger] wraps(d, body) && network_layout(body),
        SoslWithType::Metadata(x) => exists|body: Seq<DocRef<'a>>| #[trigger] wraps(d, body) && keyword_value_layout(body, "METADATA = "@, x.string_literal.value@),
        SoslWithType::Highlight => is_text(d, "HIGHLIGHT"@),
        SoslWithType::Spell(x) => exists|body: Seq<DocRef<'a>>| #[trigger] wraps(d, body) && keyword_value_layout(body, "SPELL_CORRECTION = "@, x.boolean.value@),
        SoslWithType::PriceBook(x) => exists|body: Seq<DocRef<'a>>| #[trigger] wraps(d, body) && keyword_value_layout(body, "PriceBookId = "@, x.string_literal.value@),
    }
}

/// The kinds of clause that a `WITH` of a search can hold.
pub open spec fn is_sosl_with_kind(k: Seq<char>) -> bool {
    ||| k == "with_data_cat_expression"@
    ||| k == "with_division_expression"@
    ||| k == "with_snippet_expression"@
    ||| k == "with_network_expression"@
    ||| k == "with_metadata_expression"@
    ||| k == "with_spell_correction_expression"@
    ||| k == "with_highlight"@
    ||| k == "with_pricebook_expression"@
}

/// What follows `WITH` in a SOSL query.
pub enum SoslWithType {
    DataCat(WithDataCatExpression),
    Division(WithDivisionExpression),
    Snippet(WithSnippetExpression),
    Network(WithNetworkExpression),
    Metadata(WithMetadataExpression),
    Highlight,
    Spell(WithSpellCorrectionExpression),
    PriceBook(WithPriceBookExpression),
}

impl SoslWithType {
    pub fn new(t: &SyntaxTree, n: usize) -> (r: Result<Self, String>)
        requires
            t.wf(),
            t.valid(n as int),
        ensures
            r is Ok ==> t.nodes@[n as int].kind@ == "with_type"@,
            crate::accessor::code_children(t, n as int).len() == 0 ==> r is Err,
            crate::accessor::code_children(t, n as int).len() > 0 ==> ({
                let k = t.nodes@[crate::accessor::code_children(t, n as int)[0] as int].kind@;
                let c = crate::accessor::code_children(t, n as int)[0] as int;
                &&& k == "with_highlight"@ ==> (r is Ok <==> t.nodes@[n as int].kind@ == "with_type"@)
                &&& k == "with_data_cat_expression"@ ==> (r is Ok <==> t.nodes@[n as int].kind@ == "with_type"@ && data_cat_expression_ok(t, c))
                &&& !is_sosl_with_kind(k) ==> r is Err
            }),
            r matches Ok(v) ==> (v is Highlight <==> t.nodes@[crate::accessor::code_children(t, n as int)[0] as int].kind@ == "with_highlight"@),
            r matches Ok(v) ==> (v is DataCat <==> t.nodes@[crate::accessor::code_children(t, n as int)[0] as int].kind@ == "with_data_cat_expression"@),
        decreases t.nodes@.len() - n, 1int,
    {
        proof {
            reveal_strlit("with_highlight");
            reveal_strlit("with_data_cat_expression");
            reveal_strlit("with_division_expression");
            reveal_strlit("with_snippet_expression");
            reveal_strlit("with_network_expression");
            reveal_strlit("with_metadata_expression");
            reveal_strlit("with_spell_correction_expression");
            reveal_strlit("with_pricebook_expression");
            assert("with_highlight"@.len() == 14);
            assert("with_data_cat_expression"@.len() == 24);
            assert("with_division_expression"@.len() == 24);
            assert("with_data_cat_expression"@[6] != "with_division_expression"@[6]);
            assert("with_snippet_expression"@.len() == 23);
            assert("with_network_expression"@.len() == 23);
            assert("with_metadata_expression"@.len() == 24);
            assert("with_data_cat_expression"@[5] != "with_metadata_expression"@[5]);
            assert("with_spell_correction_expression"@.len() == 32);
            assert("with_pricebook_expression"@.len() == 25);
        }
        assert_check(t, n, "with_type")?;
        let c = first_c(t, n)?;
        if kind_is(t, c, "with_data_cat_expression") {
            Ok(SoslWithType::DataCat(WithDataCatExpression::new(t, c)?))
        } else if kind_is(t, c, "with_division_expression") {
            Ok(SoslWithType::Division(WithDivisionExpression::new(t, c)?))
        } else if kind_is(t, c, "with_snippet_expression") {
            Ok(SoslWithType::Snippet(WithSnippetExpression::new(t, c)?))
        } else if kind_is(t, c, "with_network_expression") {
            Ok(SoslWithType::Network(WithNetworkExpression::new(t, c)?))
        } else if kind_is(t, c, "with_metadata_expression") {
            Ok(SoslWithType::Metadata(WithMetadataExpression::new(t, c)?))
        } else if kind_is(t, c, "with_spell_correction_expression") {
            Ok(SoslWithType::Spell(WithSpellCorrectionExpression::new(t, c)?))
        } else if kind_is(t, c, "with_highlight") {
            Ok(SoslWithType::Highlight)
        } else if kind_is(t, c, "with_pricebook_expression") {
            Ok(SoslWithType::PriceBook(WithPriceBookExpression::new(t, c)?))
        } else {
            Err(panic_unknown_node(t, c, "SoslWithType"))
        }
    }

    pub fn build<'a>(&self, b: &'a DocBuilder<'a>, cm: &CommentMap, st: &mut BuildState) -> (r: DocRef<'a>)
        ensures
            final(st).printed@.len() == old(st).printed@.len(),
            sosl_with_type_doc(*r, *self, b.config.indent_size),
        decreases self,
    {
        match self {
            SoslWithType::DataCat(x) => x.build(b, cm, st),
            SoslWithType::Division(x) => x.build(b, cm, st),
            SoslWithType::Snippet(x) => x.build(b, cm, st),
            SoslWithType::Network(x) => x.build(b, cm, st),
            SoslWithType::Metadata(x) => x.build(b, cm, st),
            SoslWithType::Highlight => b.txt("HIGHLIGHT"),
            SoslWithType::Spell(x) => x.build(b, cm, st),
            SoslWithType::PriceBook(x) => x.build(b, cm, st),
        }
    }
}

/// `WITH ` and the type, as one group.
pub open spec fn sosl_with_layout<'a>(body: Seq<DocRef<'a>>) -> bool {
    &&& body.len() == 1
    &&& *body[0] is Choice
    &&& *body[0]->Choice_0 == Doc::Flat(body[0]->Choice_1)
    &&& *body[0]->Choice_1 is Concat
    &&& concat_parts(*body[0]->Choice_1).len() == 2
    &&& is_text(*concat_parts(*body[0]->Choice_1)[0], "WITH"@ + seq![' '])
}

/// `WITH type` of a SOSL query.
pub struct SoslWithClause {
    pub with_type: SoslWithType,
    pub node_context: NodeContext,
}

impl SoslWithClause {
    pub fn new(t: &SyntaxTree, n: usize) -> (r: Result<Self, String>)
        requires
            t.wf(),
            t.valid(n as int),
        ensures
            r matches Ok(v) ==> v.node_context.id == n && t.nodes@[n as int].kind@ == "with_clause"@,
        decreases t.nodes@.len() - n, 1int,
    {
        assert_check(t, n, "with_clause")?;
        let c = c_by_k(t, n, "with_type")?;
        let with_type = SoslWithType::new(t, c)?;
        Ok(SoslWithClause { with_type, node_context: NodeContext::with_punctuation(t, n) })
    }

    pub fn build<'a>(&self, b: &'a DocBuilder<'a>, cm: &CommentMap, st: &mut BuildState) -> (r: DocRef<'a>)
        ensures
            final(st).printed@.len() == old(st).printed@.len(),
            exists|body: Seq<DocRef<'a>>| #[trigger] wraps(*r, body) && sosl_with_layout(body),
        decreases self,
    {
        let w = b.txt_("WITH");
        let d = self.with_type.build(b, cm, st);
        let mut docs: Vec<DocRef<'a>> = Vec::new();
        docs.push(w);
        docs.push(d);
        let g = b.group_concat(docs);
        let mut body: Vec<DocRef<'a>> = Vec::new();
        body.push(g);
        let ghost body_v = body@;
        assert(sosl_with_layout(body_v));
        let r = with_comments_and_punc(b, cm, st, &self.node_context, body);
        assert(wraps(*r, body_v));
        r
    }
}

/// The clauses of a SOSL query, by position in the written query: `FIND`,
/// `IN`, `RETURNING`, the `WITH` clauses, `USING`, `LIMIT`, `UPDATE`.
pub open spec fn sosl_clause_ok<'a>(d: Doc<'a>, tag: int) -> bool {
    if tag == 0 {
        d is Concat && concat_parts(d).len() == 2 && is_text(*concat_parts(d)[0], "FIND"@ + seq![' '])
    } else if tag == 1 {
        exists|body: Seq<DocRef<'a>>| #[trigger] wraps(d, body) && in_layout(body)
    } else if tag == 2 {
        exists|body: Seq<DocRef<'a>>| #[trigger] wraps(d, body) && returning_layout(body)
    } else if tag == 3 {
        d is Concat
    } else if tag == 5 {
        exists|body: Seq<DocRef<'a>>| #[trigger] wraps(d, body) && limit_layout(body)
    } else if tag == 6 {
        exists|body: Seq<DocRef<'a>>| #[trigger] wraps(d, body) && update_layout(body)
    } else {
        true
    }
}

/// The clauses a SOSL query has, in the order they are written.
pub open spec fn sosl_tags(s: SoslQueryBody) -> Seq<int> {
    let t1 = seq![0int];
    let t2 = push_if(t1, s.in_clause is Some, 1);
    let t3 = push_if(t2, s.returning_clause is Some, 2);
    let t4 = push_if(t3, s.with_clauses@.len() > 0, 3);
    let t5 = push_if(t4, s.using_clause is Some, 4);
    let t6 = push_if(t5, s.limit_clause is Some, 5);
    push_if(t6, s.update_clause is Some, 6)
}

/// The SOSL body: its clauses in order, a soft line break between each two.
pub open spec fn sosl_body_layout<'a>(body: Seq<DocRef<'a>>, s: SoslQueryBody) -> bool {
    let tags = sosl_tags(s);
    let p = concat_parts(*body[0]);
    &&& body.len() == 1
    &&& *body[0] is Concat
    &&& p.len() == 2 * tags.len() - 1
    &&& forall|k: int| 0 <= k < tags.len() ==> sosl_clause_ok(*p[2 * k], #[trigger] tags[k])
    &&& forall|k: int| 0 <= k < tags.len() - 1 ==> *#[trigger] sep_after(p, k) == Doc::Softline
}

/// The clause documents match the SOSL clauses named by `tags`.
#[verifier::opaque]
pub open spec fn sosl_clauses_ok<'a>(docs: Seq<DocRef<'a>>, tags: Seq<int>) -> bool {
    docs.len() == tags.len() && forall|k: int| 0 <= k < tags.len() ==> sosl_clause_ok(*docs[k], #[trigger] tags[k])
}

/// Appends the document of one SOSL clause.
fn push_sosl_clause<'a>(docs: &mut Vec<DocRef<'a>>, d: DocRef<'a>, Ghost(tags): Ghost<Seq<int>>, Ghost(tag): Ghost<int>)
    requires
        sosl_clauses_ok(old(docs)@, tags),
        sosl_clause_ok(*d, tag),
    ensures
        sosl_clauses_ok(final(docs)@, tags.push(tag)),
{
    proof {
        reveal(sosl_clauses_ok);
    }
    let ghost d0 = docs@;
    docs.push(d);
    proof {
        assert forall|k: int| 0 <= k < tags.push(tag).len() implies sosl_clause_ok(*docs@[k], #[trigger] tags.push(tag)[k]) by {
            if k < tags.len() {
                assert(docs@[k] == d0[k]);
                assert(tags.push(tag)[k] == tags[k]);
            }
        }
    }
}

proof fn lemma_sosl_body<'a>(body: Seq<DocRef<'a>>, docs: Seq<DocRef<'a>>, s: SoslQueryBody)
    requires
        sosl_clauses_ok(docs, sosl_tags(s)),
        body.len() == 1,
        *body[0] is Concat,
        soft_joined(concat_parts(*body[0]), docs),
    ensures
        sosl_body_layout(body, s),
{
    reveal(sosl_clauses_ok);
    let tags = sosl_tags(s);
    let p = concat_parts(*body[0]);
    assert(tags.len() >= 1);
    assert forall|k: int| 0 <= k < tags.len() implies sosl_clause_ok(*p[2 * k], #[trigger] tags[k]) by {
        assert(p[2 * k] == docs[k]);
    }
}

/// Every object after `RETURNING` is named without a field list.
pub open spec fn returns_bare_objects(t: &SyntaxTree, n: int) -> bool {
    let rs = crate::accessor::kind_children(t, n, "sobject_return"@);
    forall|j: int| 0 <= j < rs.len() ==> crate::accessor::kind_children(t, #[trigger] rs[j] as int, "selected_fields"@).len() == 0
}

/// A search for a term, returning bare objects where it says what it
/// returns, with no other clause.
pub open spec fn bare_sosl(t: &SyntaxTree, n: int) -> bool {
    let f = crate::accessor::kind_children(t, n, "find_clause"@);
    let rc = crate::accessor::kind_children(t, n, "returning_clause"@);
    &&& f.len() > 0 ==> crate::accessor::kind_children(t, f[0] as int, "bound_apex_expression"@).len() == 0
    &&& crate::accessor::kind_children(t, n, "in_clause"@).len() == 0
    &&& crate::accessor::kind_children(t, n, "with_clause"@).len() == 0
    &&& crate::accessor::kind_children(t, n, "sosl_using_clause"@).len() == 0
    &&& crate::accessor::kind_children(t, n, "limit_clause"@).len() == 0
    &&& crate::accessor::kind_children(t, n, "update_clause"@).len() == 0
    &&& rc.len() > 0 ==> returns_bare_objects(t, rc[0] as int)
}

/// Such a search that can be read.
pub open spec fn bare_sosl_ok(t: &SyntaxTree, n: int) -> bool {
    let f = crate::accessor::kind_children(t, n, "find_clause"@);
    let rc = crate::accessor::kind_children(t, n, "returning_clause"@);
    &&& t.nodes@[n].kind@ == "sosl_query_body"@
    &&& f.len() > 0
    &&& t.nodes@[f[0] as int].kind@ == "find_clause"@
    &&& crate::data_model::readable_first(t, crate::accessor::kind_children(t, f[0] as int, "term"@))
    &&& rc.len() > 0 ==> ({
        let rs = crate::accessor::kind_children(t, rc[0] as int, "sobject_return"@);
        rs.len() > 0 && forall|j: int| 0 <= j < rs.len() ==> bare_sobject_return_ok(t, #[trigger] rs[j] as int)
    })
}

/// A SOSL query: `FIND ... RETURNING ...` and its optional clauses.
pub struct SoslQueryBody {
    pub find_clause: FindClause,
    pub in_clause: Option<InClause>,
    pub returning_clause: Option<ReturningClause>,
    pub with_clauses: Vec<SoslWithClause>,
    pub using_clause: Option<SoslUsingClause>,
    pub limit_clause: Option<LimitClause>,
    pub update_clause: Option<UpdateClause>,
    pub node_context: NodeContext,
}

impl SoslQueryBody {
    pub fn new(t: &SyntaxTree, n: usize) -> (r: Result<Self, String>)
        requires
            t.wf(),
            t.valid(n as int),
        ensures
            r matches Ok(v) ==> v.node_context.id == n && t.nodes@[n as int].kind@ == "sosl_query_body"@,
            bare_sosl(t, n as int) ==> (r is Ok <==> bare_sosl_ok(t, n as int)),
        decreases t.nodes@.len() - n, 1int,
    {
        assert_check(t, n, "sosl_query_body")?;
        let f = c_by_k(t, n, "find_clause")?;
        let find_clause = FindClause::new(t, f)?;
        let in_clause = match try_c_by_k(t, n, "in_clause") {
            Some(c) => Some(InClause::new(t, c)?),
            None => None,
        };
        let returning_clause = match try_c_by_k(t, n, "returning_clause") {
            Some(c) => Some(ReturningClause::new(t, c)?),
            None => None,
        };
        let wcs = try_cs_by_k(t, n, "with_clause");
        let mut with_clauses: Vec<SoslWithClause> = Vec::new();
        let mut i: usize = 0;
        while i < wcs.len()
            invariant
                t.wf(),
                t.valid(n as int),
                wcs@ == crate::accessor::kind_children(t, n as int, "with_clause"@),
                forall|j: int| 0 <= j < wcs@.len() ==> n < #[trigger] wcs@[j] < t.nodes@.len(),
            decreases wcs@.len() - i,
        {
            let w = SoslWithClause::new(t, wcs[i])?;
            with_clauses.push(w);
            i = i + 1;
        }
        let using_clause = match try_c_by_k(t, n, "sosl_using_clause") {
            Some(c) => Some(SoslUsingClause::new(t, c)?),
            None => None,
        };
        let limit_clause = match try_c_by_k(t, n, "limit_clause") {
            Some(c) => Some(LimitClause::new(t, c)?),
            None => None,
        };
        let update_clause = match try_c_by_k(t, n, "update_clause") {
            Some(c) => Some(UpdateClause::new(t, c)?),
            None => None,
        };
        Ok(SoslQueryBody {
            find_clause,
            in_clause,
            returning_clause,
            with_clauses,
            using_clause,
            limit_clause,
            update_clause,
            node_context: NodeContext::with_punctuation(t, n),
        })
    }

    pub fn build<'a>(&self, b: &'a DocBuilder<'a>, cm: &CommentMap, st: &mut BuildState) -> (r: DocRef<'a>)
        ensures
            final(st).printed@.len() == old(st).printed@.len(),
            exists|body: Seq<DocRef<'a>>| #[trigger] wraps(*r, body) && sosl_body_layout(body, *self),
        decreases self,
    {
        let mut docs: Vec<DocRef<'a>> = Vec::new();
        let ghost mut tags: Seq<int> = Seq::empty();
        proof {
            reveal(sosl_clauses_ok);
        }
        let f = self.find_clause.build(b, cm, st);
        push_sosl_clause(&mut docs, f, Ghost(tags), Ghost(0));
        proof {
            tags = tags.push(0);
        }
        assert(tags =~= seq![0int]);
        let ghost t1 = tags;
        match &self.in_clause {
            Some(c) => {
                let d = c.build(b, cm, st);
                push_sosl_clause(&mut docs, d, Ghost(tags), Ghost(1));
                proof {
                    tags = tags.push(1);
                }
            },
            None => {},
        }
        let ghost t2 = tags;
        match &self.returning_clause {
            Some(c) => {
                let d = c.build(b, cm, st);
                push_sosl_clause(&mut docs, d, Ghost(tags), Ghost(2));
                proof {
                    tags = tags.push(2);
                }
            },
            None => {},
        }
        let ghost t3 = tags;
        if self.with_clauses.len() > 0 {
            let ghost len0 = st.printed@.len();
            let mut ws: Vec<DocRef<'a>> = Vec::new();
            let mut i: usize = 0;
            while i < self.with_clauses.len()
                invariant
                    st.printed@.len() == len0,
                decreases self.with_clauses@.len() - i,
            {
                let d = self.with_clauses[i].build(b, cm, st);
                ws.push(d);
                i = i + 1;
            }
            let j = soft_join(b, ws.as_slice());
            push_sosl_clause(&mut docs, j, Ghost(tags), Ghost(3));
            proof {
                tags = tags.push(3);
            }
        }
        let ghost t4 = tags;
        match &self.using_clause {
            Some(c) => {
                let d = c.build(b, cm, st);
                push_sosl_clause(&mut docs, d, Ghost(tags), Ghost(4));
                proof {
                    tags = tags.push(4);
                }
            },
            None => {},
        }
        let ghost t5 = tags;
        match &self.limit_clause {
            Some(c) => {
                let d = c.build(b, cm, st);
                push_sosl_clause(&mut docs, d, Ghost(tags), Ghost(5));
                proof {
                    tags = tags.push(5);
                }
            },
            None => {},
        }
        let ghost t6 = tags;
        match &self.update_clause {
            Some(c) => {
                let d = c.build(b, cm, st);
                push_sosl_clause(&mut docs, d, Ghost(tags), Ghost(6));
                proof {
                    tags = tags.push(6);
                }
            },
            None => {},
        }
        assert(t2 == push_if(t1, self.in_clause is Some, 1));
        assert(t3 == push_if(t2, self.returning_clause is Some, 2));
        assert(t4 == push_if(t3, self.with_clauses@.len() > 0, 3));
        assert(t5 == push_if(t4, self.using_clause is Some, 4));
        assert(t6 == push_if(t5, self.limit_clause is Some, 5));
        assert(tags == push_if(t6, self.update_clause is Some, 6));
        assert(tags == sosl_tags(*self));
        let j = soft_join(b, docs.as_slice());
        let mut body: Vec<DocRef<'a>> = Vec::new();
        body.push(j);
        let ghost body_v = body@;
        proof {
            lemma_sosl_body(body_v, docs@, *self);
        }
        let r = with_comments_and_punc(b, cm, st, &self.node_context, body);
        assert(wraps(*r, body_v));
        r
    }
}

// ---------------------------------------------------------------------------
// The query expression.
// ---------------------------------------------------------------------------
/// A SOQL or SOSL query.
pub enum QueryBody {
    Soql(SoqlQueryBody),
    Sosl(SoslQueryBody),
}

/// A query in brackets: inside an expression, `[`, a line break that is
/// taken only when the query does not fit, the query, the same break one
/// level out, `]`, on one line when that fits.
pub open spec fn query_layout<'a>(body: Seq<DocRef<'a>>, s: QueryExpression) -> bool {
    &&& body.len() == 1
    &&& *body[0] is Choice
    &&& s.context is Some ==> ({
        let d = *body[0];
        let p = concat_parts(*d->Choice_1);
        &&& *d->Choice_0 == Doc::Flat(d->Choice_1)
        &&& *d->Choice_1 is Concat
        &&& p.len() == 5
        &&& is_text(*p[0], "["@)
        &&& *p[1] == Doc::Maybeline
        &&& *p[3] matches Doc::Dedent(_, x) && *x == Doc::Maybeline
        &&& is_text(*p[4], "]"@)
    })
}

/// `[query]` in Apex.
pub struct QueryExpression {
    pub query_body: QueryBody,
    pub context: Option<ChainingContext>,
    pub node_context: NodeContext,
}

impl QueryExpression {
    pub fn new(t: &SyntaxTree, n: usize) -> (r: Result<Self, String>)
        requires
            t.wf(),
            t.valid(n as int),
        ensures
            r matches Ok(v) ==> v.node_context.id == n && t.nodes@[n as int].kind@ == "query_expression"@
                && (v.query_body is Soql <==> crate::accessor::kind_children(t, n as int, "soql_query_body"@).len() > 0),
            ({
                let q = crate::accessor::kind_children(t, n as int, "soql_query_body"@);
                q.len() > 0 && bare_soql(t, q[0] as int)
            }) ==> (r is Ok <==> t.nodes@[n as int].kind@ == "query_expression"@
                && bare_soql_ok(t, crate::accessor::kind_children(t, n as int, "soql_query_body"@)[0] as int)
                && t.nodes@[n as int].parent is Some),
        decreases t.nodes@.len() - n, 1int,
    {
        assert_check(t, n, "query_expression")?;
        let query_body = match try_c_by_k(t, n, "soql_query_body") {
            Some(c) => QueryBody::Soql(SoqlQueryBody::new(t, c)?),
            None => {
                let c = c_by_k(t, n, "sosl_query_body")?;
                QueryBody::Sosl(SoslQueryBody::new(t, c)?)
            },
        };
        let context = build_chaining_context(t, n)?;
        Ok(QueryExpression { query_body, context, node_context: NodeContext::with_punctuation(t, n) })
    }

    /// `[`, the query, `]`: in a chain the brackets close over a line that
    /// breaks back to the chain's indentation; else the query is indented
    /// between brackets on their own lines when it does not fit.
    pub fn build<'a>(&self, b: &'a DocBuilder<'a>, cm: &CommentMap, st: &mut BuildState) -> (r: DocRef<'a>)
        ensures
            final(st).printed@.len() == old(st).printed@.len(),
            exists|body: Seq<DocRef<'a>>| #[trigger] wraps(*r, body) && query_layout(body, *self),
        decreases self,
    {
        let q = match &self.query_body {
            QueryBody::Soql(x) => x.build(b, cm, st),
            QueryBody::Sosl(x) => x.build(b, cm, st),
        };
        let mut qs: Vec<DocRef<'a>> = Vec::new();
        qs.push(q);
        let d = if self.context.is_some() {
            let mut docs: Vec<DocRef<'a>> = Vec::new();
            let o = b.txt("[");
            docs.push(o);
            let m = b.maybeline();
            docs.push(m);
            let j = soft_join(b, qs.as_slice());
            docs.push(j);
            let m2 = b.maybeline();
            let dm = b.dedent(m2);
            docs.push(dm);
            let c = b.txt("]");
            docs.push(c);
            b.group_concat(docs)
        } else {
            surround_group(b, qs.as_slice(), "[", "]", false)
        };
        let mut body: Vec<DocRef<'a>> = Vec::new();
        body.push(d);
        let ghost body_v = body@;
        assert(query_layout(body_v, *self));
        let r = with_comments_and_punc(b, cm, st, &self.node_context, body);
        assert(wraps(*r, body_v));
        r
    }
}

} // verus!
