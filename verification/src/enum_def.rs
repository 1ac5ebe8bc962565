//! The kinds of node that are one of several others: each picks the type that
//! models its node by the node's kind, and fails with a message for a kind it
//! does not know.
use crate::accessor::kind_is;
use crate::context::{BuildState, CommentMap};
use crate::context::NodeContext;
use crate::data_model::{
    with_comments_and_punc, ArrayAccess, ArrayCreationExpression, ArrayInitializer, ArrayType,
    AssignmentExpression, BinaryExpression, BoolType, CastExpression, DmlExpression, FieldAccess,
    GenericType, InstanceOfExpression, JavaFieldAccess, JavaType, MapCreationExpression,
    MethodInvocation, ObjectCreationExpression, ParenthesizedExpression, ScopedTypeIdentifier,
    TernaryExpression, This, UnaryExpression, UpdateExpression, ValueNode, ValueNodeLowerCase,
    VersionExpression, IfStatement, ExpressionStatement, LocalVariableDeclaration, Block,
    ForStatement, EnhancedForStatement, RunAsStatement, DoStatement, WhileStatement,
    ReturnStatement, TryStatement, ThrowStatement, BreakStatement, ContinueStatement,
    SwitchExpression, FieldDeclaration, ClassDeclaration, MethodDeclaration, InterfaceDeclaration,
    EnumDeclaration, StaticInitializer, ConstructorDeclaration, TriggerDeclaration, wraps,
    if_layout, for_layout, enhanced_for_layout, while_layout, do_layout, return_layout,
    throw_layout, break_layout, continue_layout, local_variable_layout, run_as_layout, try_layout,
    switch_layout, field_declaration_layout, class_doc, method_layout, interface_layout,
    enum_layout, static_initializer_layout, constructor_layout, bucket_of, has_members_body,
    trailing_flags,
};
use crate::doc::{Doc, PrettyConfig};
use crate::doc_builder::is_text;
use crate::query::QueryExpression;
use crate::accessor::first_c;
use crate::utility::assert_check;
use crate::doc::DocRef;
use crate::doc_builder::DocBuilder;
use crate::syntax::SyntaxTree;
use crate::utility::panic_unknown_node;
use vstd::prelude::*;

verus! {

// ---------------------------------------------------------------------------
// Types.
// ---------------------------------------------------------------------------
/// The kinds of node that are a simple type.
pub open spec fn is_simple_type_kind(k: Seq<char>) -> bool {
    k == "type_identifier"@ || k == "void_type"@ || k == "boolean_type"@ || k == "generic_type"@
        || k == "java_type"@ || k == "scoped_type_identifier"@
}

/// The kinds of node that are a type.
pub open spec fn is_type_kind(k: Seq<char>) -> bool {
    is_simple_type_kind(k) || k == "array_type"@
}

/// A type without dimensions, laid out as its kind says: a name as
/// written, `boolean` in lower case.
pub open spec fn simple_type_doc<'a>(d: Doc<'a>, t: SimpleType) -> bool {
    match t {
        SimpleType::Identifier(x) => crate::data_model::wraps_text(d, x.value@),
        SimpleType::Void(x) => crate::data_model::wraps_text(d, x.value@),
        SimpleType::Bool(_) => crate::data_model::wraps_text(d, "boolean"@),
        SimpleType::Generic(x) => exists|body: Seq<DocRef<'a>>| #[trigger] wraps(d, body) && crate::data_model::generic_type_layout(body, x),
        SimpleType::Scoped(x) => exists|body: Seq<DocRef<'a>>| #[trigger] wraps(d, body) && crate::data_model::scoped_type_layout(body, x),
        SimpleType::Java(_) => exists|body: Seq<DocRef<'a>>| #[trigger] wraps(d, body) && crate::data_model::java_type_layout(body),
    }
}

/// A type, laid out as its kind says.
pub open spec fn unannotated_type_doc<'a>(d: Doc<'a>, t: UnannotatedType) -> bool {
    match t {
        UnannotatedType::Simple(x) => simple_type_doc(d, x),
        UnannotatedType::Array(_) => exists|body: Seq<DocRef<'a>>| #[trigger] wraps(d, body) && crate::data_model::array_type_layout(body),
    }
}

pub enum SimpleType {
    Identifier(ValueNode),
    Void(ValueNode),
    Bool(BoolType),
    Generic(GenericType),
    Scoped(ScopedTypeIdentifier),
    Java(JavaType),
}

impl SimpleType {
    pub fn new(t: &SyntaxTree, n: usize) -> (r: Result<Self, String>)
        requires
            t.wf(),
            t.valid(n as int),
        ensures
            r matches Ok(v) ==> type_tied(t, n as int, UnannotatedType::Simple(v)),
            r is Ok <==> crate::data_model::simple_type_ok(t, n as int),
            r is Ok ==> is_simple_type_kind(t.nodes@[n as int].kind@),
        decreases t.nodes@.len() - n, 2int,
    {
        if kind_is(t, n, "type_identifier") {
            Ok(SimpleType::Identifier(ValueNode::new(t, n)?))
        } else if kind_is(t, n, "void_type") {
            Ok(SimpleType::Void(ValueNode::new(t, n)?))
        } else if kind_is(t, n, "boolean_type") {
            Ok(SimpleType::Bool(BoolType::new(t, n)?))
        } else if kind_is(t, n, "java_type") {
            Ok(SimpleType::Java(JavaType::new(t, n)?))
        } else if kind_is(t, n, "generic_type") {
            Ok(SimpleType::Generic(GenericType::new(t, n)?))
        } else if kind_is(t, n, "scoped_type_identifier") {
            Ok(SimpleType::Scoped(ScopedTypeIdentifier::new(t, n)?))
        } else {
            Err(panic_unknown_node(t, n, "SimpleType"))
        }
    }

    pub fn build<'a>(&self, b: &'a DocBuilder<'a>, cm: &CommentMap, st: &mut BuildState) -> (r: DocRef<'a>)
        ensures
            final(st).printed@.len() == old(st).printed@.len(),
            simple_type_doc(*r, *self),
        decreases self,
    {
        match self {
            SimpleType::Identifier(v) => v.build(b, cm, st),
            SimpleType::Void(v) => v.build(b, cm, st),
            SimpleType::Bool(v) => v.build(b, cm, st),
            SimpleType::Generic(v) => v.build(b, cm, st),
            SimpleType::Scoped(v) => v.build(b, cm, st),
            SimpleType::Java(v) => v.build(b, cm, st),
        }
    }
}

pub enum UnannotatedType {
    Simple(SimpleType),
    Array(Box<ArrayType>),
}

impl UnannotatedType {
    pub fn new(t: &SyntaxTree, n: usize) -> (r: Result<Self, String>)
        requires
            t.wf(),
            t.valid(n as int),
        ensures
            r matches Ok(v) ==> type_tied(t, n as int, v),
            r is Ok <==> crate::data_model::unannotated_type_ok(t, n as int),
            r is Ok ==> is_type_kind(t.nodes@[n as int].kind@),
        decreases t.nodes@.len() - n, 3int,
    {
        if kind_is(t, n, "type_identifier") || kind_is(t, n, "void_type") || kind_is(t, n, "boolean_type")
            || kind_is(t, n, "generic_type") || kind_is(t, n, "java_type") || kind_is(
            t,
            n,
            "scoped_type_identifier",
        ) {
            Ok(UnannotatedType::Simple(SimpleType::new(t, n)?))
        } else if kind_is(t, n, "array_type") {
            Ok(UnannotatedType::Array(Box::new(ArrayType::new(t, n)?)))
        } else {
            Err(panic_unknown_node(t, n, "UnnanotatedType"))
        }
    }

    pub fn build<'a>(&self, b: &'a DocBuilder<'a>, cm: &CommentMap, st: &mut BuildState) -> (r: DocRef<'a>)
        ensures
            final(st).printed@.len() == old(st).printed@.len(),
            unannotated_type_doc(*r, *self),
        decreases self,
    {
        match self {
            UnannotatedType::Simple(s) => s.build(b, cm, st),
            UnannotatedType::Array(a) => a.build(b, cm, st),
        }
    }
}

pub enum Type {
    Unannotated(UnannotatedType),
}

impl Type {
    pub fn new(t: &SyntaxTree, n: usize) -> (r: Result<Self, String>)
        requires
            t.wf(),
            t.valid(n as int),
        ensures
            r matches Ok(v) ==> (v matches Type::Unannotated(u) && type_tied(t, n as int, u)),
            r is Ok <==> crate::data_model::type_ok(t, n as int),
            r is Ok ==> is_type_kind(t.nodes@[n as int].kind@),
        decreases t.nodes@.len() - n, 4int,
    {
        if kind_is(t, n, "type_identifier") || kind_is(t, n, "void_type") || kind_is(t, n, "boolean_type")
            || kind_is(t, n, "generic_type") || kind_is(t, n, "java_type") || kind_is(
            t,
            n,
            "scoped_type_identifier",
        ) {
            Ok(Type::Unannotated(UnannotatedType::Simple(SimpleType::new(t, n)?)))
        } else if kind_is(t, n, "array_type") {
            Ok(Type::Unannotated(UnannotatedType::Array(Box::new(ArrayType::new(t, n)?))))
        } else {
            Err(panic_unknown_node(t, n, "Type"))
        }
    }

    pub fn build<'a>(&self, b: &'a DocBuilder<'a>, cm: &CommentMap, st: &mut BuildState) -> (r: DocRef<'a>)
        ensures
            final(st).printed@.len() == old(st).printed@.len(),
            (*self matches Type::Unannotated(u) && unannotated_type_doc(*r, u)),
        decreases self,
    {
        match self {
            Type::Unannotated(u) => u.build(b, cm, st),
        }
    }
}


// ---------------------------------------------------------------------------
// Expressions.
// ---------------------------------------------------------------------------
/// The kinds of node that are a literal.
pub open spec fn is_literal_kind(k: Seq<char>) -> bool {
    k == "int"@ || k == "decimal_floating_point_literal"@ || k == "boolean"@ || k == "null_literal"@
        || k == "string_literal"@
}

/// The kinds of node that are a primary expression.
pub open spec fn is_primary_kind(k: Seq<char>) -> bool {
    is_literal_kind(k) || k == "identifier"@ || k == "class_literal"@ || k == "method_invocation"@
        || k == "parenthesized_expression"@ || k == "object_creation_expression"@ || k
        == "map_creation_expression"@ || k == "field_access"@ || k == "array_access"@ || k
        == "array_creation_expression"@ || k == "version_expression"@ || k == "query_expression"@ || k
        == "java_field_access"@ || k == "this"@
}

/// The kinds of node that are an expression.
pub open spec fn is_expression_kind(k: Seq<char>) -> bool {
    is_primary_kind(k) || k == "assignment_expression"@ || k == "binary_expression"@ || k
        == "update_expression"@ || k == "unary_expression"@ || k == "dml_expression"@ || k
        == "ternary_expression"@ || k == "cast_expression"@ || k == "instanceof_expression"@
}

/// Whether node `n` is of a literal kind.
fn is_literal_node(t: &SyntaxTree, n: usize) -> (r: bool)
    requires
        t.valid(n as int),
    ensures
        r == is_literal_kind(t.nodes@[n as int].kind@),
{
    kind_is(t, n, "int") || kind_is(t, n, "decimal_floating_point_literal") || kind_is(t, n, "boolean")
        || kind_is(t, n, "null_literal") || kind_is(t, n, "string_literal")
}

/// Whether node `n` is of a primary-expression kind.
pub fn is_primary_node(t: &SyntaxTree, n: usize) -> (r: bool)
    requires
        t.valid(n as int),
    ensures
        r == is_primary_kind(t.nodes@[n as int].kind@),
{
    is_literal_node(t, n) || kind_is(t, n, "identifier") || kind_is(t, n, "class_literal") || kind_is(
        t,
        n,
        "method_invocation",
    ) || kind_is(t, n, "parenthesized_expression") || kind_is(t, n, "object_creation_expression")
        || kind_is(t, n, "map_creation_expression") || kind_is(t, n, "field_access") || kind_is(
        t,
        n,
        "array_access",
    ) || kind_is(t, n, "array_creation_expression") || kind_is(t, n, "version_expression") || kind_is(
        t,
        n,
        "query_expression",
    ) || kind_is(t, n, "java_field_access") || kind_is(t, n, "this")
}

/// A literal as written, `true`, `false`, `null` and the suffix of a
/// decimal in lower case.
pub open spec fn literal_doc<'a>(d: Doc<'a>, l: Literal_) -> bool {
    match l {
        Literal_::Bool(v) => crate::data_model::wraps_text(d, crate::strs::lowercase(v.value@)),
        Literal_::Null(v) => crate::data_model::wraps_text(d, crate::strs::lowercase(v.value@)),
        Literal_::Int(v) => crate::data_model::wraps_text(d, v.value@),
        Literal_::Decimal(v) => crate::data_model::wraps_text(d, crate::strs::lowercase(v.value@)),
        Literal_::Str(v) => crate::data_model::wraps_text(d, v.value@),
    }
}

/// A literal: booleans, `null` and decimals are written in lower case.
pub enum Literal_ {
    Bool(ValueNodeLowerCase),
    Null(ValueNodeLowerCase),
    Int(ValueNode),
    Decimal(ValueNodeLowerCase),
    Str(ValueNode),
}

impl Literal_ {
    pub fn new(t: &SyntaxTree, n: usize) -> (r: Result<Self, String>)
        requires
            t.wf(),
            t.valid(n as int),
        ensures
            r matches Ok(v) ==> literal_read(t, n as int, v),
            r is Ok <==> is_literal_kind(t.nodes@[n as int].kind@) && crate::accessor::readable(t, n as int),
            r matches Ok(v) ==> (v is Bool ==> t.nodes@[n as int].kind@ == "boolean"@) && (v is Null ==> t.nodes@[n as int].kind@ == "null_literal"@) && (v is Int ==> t.nodes@[n as int].kind@ == "int"@) && (v is Str ==> t.nodes@[n as int].kind@ == "string_literal"@) && (v is Decimal ==> t.nodes@[n as int].kind@ == "decimal_floating_point_literal"@),
            r is Ok ==> is_literal_kind(t.nodes@[n as int].kind@),
    {
        if kind_is(t, n, "boolean") {
            Ok(Literal_::Bool(ValueNodeLowerCase::new(t, n)?))
        } else if kind_is(t, n, "null_literal") {
            Ok(Literal_::Null(ValueNodeLowerCase::new(t, n)?))
        } else if kind_is(t, n, "int") {
            Ok(Literal_::Int(ValueNode::new(t, n)?))
        } else if kind_is(t, n, "string_literal") {
            Ok(Literal_::Str(ValueNode::new(t, n)?))
        } else if kind_is(t, n, "decimal_floating_point_literal") {
            Ok(Literal_::Decimal(ValueNodeLowerCase::new(t, n)?))
        } else {
            Err(panic_unknown_node(t, n, "Literal_"))
        }
    }

    pub fn build<'a>(&self, b: &'a DocBuilder<'a>, cm: &CommentMap, st: &mut BuildState) -> (r: DocRef<'a>)
        ensures
            final(st).printed@.len() == old(st).printed@.len(),
            literal_doc(*r, *self),
    {
        match self {
            Literal_::Bool(v) => v.build(b, cm, st),
            Literal_::Null(v) => v.build(b, cm, st),
            Literal_::Int(v) => v.build(b, cm, st),
            Literal_::Decimal(v) => v.build(b, cm, st),
            Literal_::Str(v) => v.build(b, cm, st),
        }
    }
}

/// The type, then `class`.
pub open spec fn class_literal_layout<'a>(body: Seq<DocRef<'a>>, s: ClassLiteral) -> bool {
    body.len() == 2 && unannotated_type_doc(*body[0], s.type_) && is_text(*body[1], "class"@)
}

/// `String.class`
pub struct ClassLiteral {
    pub type_: UnannotatedType,
    pub node_context: NodeContext,
}

impl ClassLiteral {
    pub fn new(t: &SyntaxTree, n: usize) -> (r: Result<Self, String>)
        requires
            t.wf(),
            t.valid(n as int),
        ensures
            r matches Ok(v) ==> v.node_context.id == n && t.nodes@[n as int].kind@ == "class_literal"@,
        decreases t.nodes@.len() - n, 1int,
    {
        assert_check(t, n, "class_literal")?;
        let c = first_c(t, n)?;
        let type_ = UnannotatedType::new(t, c)?;
        Ok(ClassLiteral { type_, node_context: NodeContext::with_punctuation(t, n) })
    }

    pub fn build<'a>(&self, b: &'a DocBuilder<'a>, cm: &CommentMap, st: &mut BuildState) -> (r: DocRef<'a>)
        ensures
            final(st).printed@.len() == old(st).printed@.len(),
            exists|body: Seq<DocRef<'a>>| #[trigger] wraps(*r, body) && class_literal_layout(body, *self),
        decreases self,
    {
        let ty = self.type_.build(b, cm, st);
        let c = b.txt("class");
        let mut body: Vec<DocRef<'a>> = Vec::new();
        body.push(ty);
        body.push(c);
        let ghost body_v = body@;
        assert(body_v[1] == c);
        let r = with_comments_and_punc(b, cm, st, &self.node_context, body);
        assert(wraps(*r, body_v));
        r
    }
}

/// A primary expression, laid out as its kind says.
pub open spec fn primary_doc<'a>(d: Doc<'a>, e: PrimaryExpression, cfg: PrettyConfig) -> bool
    decreases e,
{
    match e {
        PrimaryExpression::Literal(x) => literal_doc(d, x),
        PrimaryExpression::Identifier(x) => crate::data_model::wraps_text(d, x.value@),
        PrimaryExpression::Class(x) => exists|body: Seq<DocRef<'a>>| #[trigger] wraps(d, body) && class_literal_layout(body, x),
        PrimaryExpression::Method(x) => exists|body: Seq<DocRef<'a>>| #[trigger] wraps(d, body) && crate::data_model::method_invocation_layout(body, x, cfg),
        PrimaryExpression::Parenth(x) => crate::data_model::parenthesized_doc(d, x, cfg),
        PrimaryExpression::Obj(x) => exists|body: Seq<DocRef<'a>>| #[trigger] wraps(d, body) && crate::data_model::object_creation_layout(body, x, cfg),
        PrimaryExpression::MapCreation(x) => exists|body: Seq<DocRef<'a>>| #[trigger] wraps(d, body) && crate::data_model::map_creation_layout(body, x, cfg),
        PrimaryExpression::Field(x) => crate::data_model::field_access_doc(d, x, cfg),
        PrimaryExpression::Array(x) => exists|body: Seq<DocRef<'a>>| #[trigger] wraps(d, body) && crate::data_model::array_access_layout(body, *x, cfg),
        PrimaryExpression::ArrayCreation(x) => exists|body: Seq<DocRef<'a>>| #[trigger] wraps(d, body) && crate::data_model::array_creation_layout(body, x),
        PrimaryExpression::Query(x) => exists|body: Seq<DocRef<'a>>| #[trigger] wraps(d, body) && crate::query::query_layout(body, x),
        PrimaryExpression::Version(x) => exists|body: Seq<DocRef<'a>>| #[trigger] wraps(d, body) && crate::data_model::version_layout(body, x),
        PrimaryExpression::This(_) => crate::data_model::wraps_text(d, "this"@),
        PrimaryExpression::Java(x) => exists|body: Seq<DocRef<'a>>| #[trigger] wraps(d, body) && crate::data_model::java_field_layout(body, x, cfg),
    }
}

pub enum PrimaryExpression {
    Literal(Literal_),
    Identifier(ValueNode),
    Class(ClassLiteral),
    Method(MethodInvocation),
    Parenth(ParenthesizedExpression),
    Obj(ObjectCreationExpression),
    MapCreation(MapCreationExpression),
    Field(FieldAccess),
    Array(Box<ArrayAccess>),
    ArrayCreation(ArrayCreationExpression),
    Query(QueryExpression),
    Version(VersionExpression),
    This(This),
    Java(JavaFieldAccess),
}

/// The names of the expression kinds that hold no other expression are
/// each unlike every kind tested before them.
proof fn lemma_leaf_expression_kinds(k: Seq<char>)
    ensures
        k == "int"@ ==> k != "assignment_expression"@ && k != "binary_expression"@,
        k == "decimal_floating_point_literal"@ ==> k != "assignment_expression"@ && k != "binary_expression"@,
        k == "boolean"@ ==> k != "assignment_expression"@ && k != "binary_expression"@,
        k == "null_literal"@ ==> k != "assignment_expression"@ && k != "binary_expression"@,
        k == "string_literal"@ ==> k != "assignment_expression"@ && k != "binary_expression"@,
        k == "identifier"@ ==> k != "int"@ && k != "decimal_floating_point_literal"@ && k != "boolean"@ && k != "null_literal"@ && k != "string_literal"@ && k != "class_literal"@ && k != "method_invocation"@ && k != "parenthesized_expression"@ && k != "object_creation_expression"@ && k != "map_creation_expression"@ && k != "field_access"@ && k != "array_access"@ && k != "array_creation_expression"@ && k != "version_expression"@ && k != "query_expression"@ && k != "java_field_access"@ && k != "this"@ && k != "assignment_expression"@ && k != "binary_expression"@,
        k == "this"@ ==> k != "int"@ && k != "decimal_floating_point_literal"@ && k != "boolean"@ && k != "null_literal"@ && k != "string_literal"@ && k != "identifier"@ && k != "class_literal"@ && k != "method_invocation"@ && k != "parenthesized_expression"@ && k != "object_creation_expression"@ && k != "map_creation_expression"@ && k != "field_access"@ && k != "array_access"@ && k != "array_creation_expression"@ && k != "version_expression"@ && k != "query_expression"@ && k != "java_field_access"@ && k != "assignment_expression"@ && k != "binary_expression"@,
{
    reveal_strlit("int");
    reveal_strlit("decimal_floating_point_literal");
    reveal_strlit("boolean");
    reveal_strlit("null_literal");
    reveal_strlit("string_literal");
    reveal_strlit("identifier");
    reveal_strlit("class_literal");
    reveal_strlit("method_invocation");
    reveal_strlit("parenthesized_expression");
    reveal_strlit("object_creation_expression");
    reveal_strlit("map_creation_expression");
    reveal_strlit("field_access");
    reveal_strlit("array_access");
    reveal_strlit("array_creation_expression");
    reveal_strlit("version_expression");
    reveal_strlit("query_expression");
    reveal_strlit("java_field_access");
    reveal_strlit("this");
    reveal_strlit("assignment_expression");
    reveal_strlit("binary_expression");
    assert("array_access"@.len() != "identifier"@.len());
    assert("array_access"@.len() != "this"@.len());
    assert("array_creation_expression"@.len() != "identifier"@.len());
    assert("array_creation_expression"@.len() != "this"@.len());
    assert("assignment_expression"@.len() != "boolean"@.len());
    assert("assignment_expression"@.len() != "decimal_floating_point_literal"@.len());
    assert("assignment_expression"@.len() != "identifier"@.len());
    assert("assignment_expression"@.len() != "int"@.len());
    assert("assignment_expression"@.len() != "null_literal"@.len());
    assert("assignment_expression"@.len() != "string_literal"@.len());
    assert("assignment_expression"@.len() != "this"@.len());
    assert("binary_expression"@.len() != "boolean"@.len());
    assert("binary_expression"@.len() != "decimal_floating_point_literal"@.len());
    assert("binary_expression"@.len() != "identifier"@.len());
    assert("binary_expression"@.len() != "int"@.len());
    assert("binary_expression"@.len() != "null_literal"@.len());
    assert("binary_expression"@.len() != "string_literal"@.len());
    assert("binary_expression"@.len() != "this"@.len());
    assert("boolean"@.len() != "identifier"@.len());
    assert("boolean"@.len() != "this"@.len());
    assert("class_literal"@.len() != "identifier"@.len());
    assert("class_literal"@.len() != "this"@.len());
    assert("decimal_floating_point_literal"@.len() != "identifier"@.len());
    assert("decimal_floating_point_literal"@.len() != "this"@.len());
    assert("field_access"@.len() != "identifier"@.len());
    assert("field_access"@.len() != "this"@.len());
    assert("identifier"@.len() != "int"@.len());
    assert("identifier"@.len() != "java_field_access"@.len());
    assert("identifier"@.len() != "map_creation_expression"@.len());
    assert("identifier"@.len() != "method_invocation"@.len());
    assert("identifier"@.len() != "null_literal"@.len());
    assert("identifier"@.len() != "object_creation_expression"@.len());
    assert("identifier"@.len() != "parenthesized_expression"@.len());
    assert("identifier"@.len() != "query_expression"@.len());
    assert("identifier"@.len() != "string_literal"@.len());
    assert("identifier"@.len() != "this"@.len());
    assert("identifier"@.len() != "version_expression"@.len());
    assert("int"@.len() != "this"@.len());
    assert("java_field_access"@.len() != "this"@.len());
    assert("map_creation_expression"@.len() != "this"@.len());
    assert("method_invocation"@.len() != "this"@.len());
    assert("null_literal"@.len() != "this"@.len());
    assert("object_creation_expression"@.len() != "this"@.len());
    assert("parenthesized_expression"@.len() != "this"@.len());
    assert("query_expression"@.len() != "this"@.len());
    assert("string_literal"@.len() != "this"@.len());
    assert("this"@.len() != "version_expression"@.len());
}

/// The kinds of expression that hold no other expression: literals, names
/// and `this`.
pub open spec fn is_leaf_expression_kind(k: Seq<char>) -> bool {
    is_literal_kind(k) || k == "identifier"@ || k == "this"@
}

/// An expression that holds no other expression and can be read: `this`,
/// or a literal or name whose text can be read.
pub open spec fn leaf_expression_ok(t: &SyntaxTree, n: int) -> bool {
    is_leaf_expression_kind(t.nodes@[n].kind@) && (t.nodes@[n].kind@ == "this"@ || crate::accessor::readable(t, n))
}

/// `c` is a node below `n`, an expression that the model reads in full.
pub open spec fn expr_below(t: &SyntaxTree, n: int, c: int) -> bool
    decreases t.nodes@.len() - n, 6int,
{
    n < c < t.nodes@.len() && expr_reads(t, c)
}

/// An expression that the model reads in full, at any depth: a name,
/// literal or `this`; a binary, unary or update expression; an assignment; a call
/// of a method, by its name or on an object, without type arguments; an
/// object creation without a class body; a field access; an expression in
/// parentheses; an array access; a DML operation
/// with a user security mode where it has one; each made of such
/// expressions.
pub open spec fn expr_reads(t: &SyntaxTree, n: int) -> bool
    decreases t.nodes@.len() - n, 7int,
{
    let k = t.nodes@[n].kind@;
    if is_leaf_expression_kind(k) {
        leaf_expression_ok(t, n)
    } else if k == "binary_expression"@ {
        let l = crate::accessor::field_children(t, n, "left"@);
        let r = crate::accessor::field_children(t, n, "right"@);
        &&& l.len() > 0 && expr_below(t, n, l[0] as int)
        &&& crate::accessor::field_children(t, n, "operator"@).len() > 0
        &&& r.len() > 0 && expr_below(t, n, r[0] as int)
        &&& crate::data_model::binary_context_ok(t, n)
    } else if k == "method_invocation"@ {
        let a = crate::accessor::field_children(t, n, "arguments"@);
        let o = crate::accessor::field_children(t, n, "object"@);
        &&& o.len() > 0 ==> is_primary_kind(t.nodes@[o[0] as int].kind@) && expr_below(t, n, o[0] as int)
            && crate::accessor::kind_children(t, n, "type_arguments"@).len() == 0 && t.nodes@[n].parent is Some
        &&& crate::data_model::readable_first(t, crate::accessor::field_children(t, n, "name"@))
        &&& a.len() > 0 && n < a[0] < t.nodes@.len()
        &&& forall|j: int|
            0 <= j < crate::accessor::code_children(t, a[0] as int).len() ==> expr_below(
                t,
                a[0] as int,
                #[trigger] crate::accessor::code_children(t, a[0] as int)[j] as int,
            )
    } else if k == "parenthesized_expression"@ {
        let cs = crate::accessor::code_children(t, n);
        cs.len() > 0 && expr_below(t, n, cs[0] as int)
    } else if k == "object_creation_expression"@ {
        let ta = crate::accessor::kind_children(t, n, "type_arguments"@);
        let a = crate::accessor::field_children(t, n, "arguments"@);
        &&& crate::accessor::kind_children(t, n, "class_body"@).len() == 0
        &&& ta.len() > 0 ==> crate::data_model::type_arguments_ok(t, ta[0] as int)
        &&& crate::data_model::declared_type_ok(t, n)
        &&& a.len() > 0 && n < a[0] < t.nodes@.len()
        &&& forall|j: int|
            0 <= j < crate::accessor::code_children(t, a[0] as int).len() ==> expr_below(
                t,
                a[0] as int,
                #[trigger] crate::accessor::code_children(t, a[0] as int)[j] as int,
            )
    } else if k == "update_expression"@ {
        let o = crate::accessor::field_children(t, n, "operand"@);
        &&& crate::data_model::readable_first(t, crate::accessor::field_children(t, n, "operator"@))
        &&& o.len() > 0 && expr_below(t, n, o[0] as int)
    } else if k == "unary_expression"@ {
        let o = crate::accessor::field_children(t, n, "operand"@);
        &&& crate::data_model::readable_first(t, crate::accessor::field_children(t, n, "operator"@))
        &&& o.len() > 0 && expr_below(t, n, o[0] as int)
    } else if k == "field_access"@ {
        let o = crate::accessor::field_children(t, n, "object"@);
        let f = crate::accessor::field_children(t, n, "field"@);
        &&& o.len() > 0 && is_primary_kind(t.nodes@[o[0] as int].kind@) && expr_below(t, n, o[0] as int)
        &&& f.len() > 0 && t.nodes@[f[0] as int].kind@ == "identifier"@ && crate::accessor::readable(t, f[0] as int)
        &&& t.nodes@[n].parent is Some
    } else if k == "assignment_expression"@ {
        let l = crate::accessor::field_children(t, n, "left"@);
        let r = crate::accessor::field_children(t, n, "right"@);
        let lk = t.nodes@[l[0] as int].kind@;
        &&& l.len() > 0
        &&& (lk == "identifier"@ && crate::accessor::readable(t, l[0] as int)) || ((lk == "field_access"@ || lk
            == "array_access"@) && expr_below(t, n, l[0] as int))
        &&& crate::data_model::readable_first(t, crate::accessor::field_children(t, n, "operator"@))
        &&& r.len() > 0 && expr_below(t, n, r[0] as int)
    } else if k == "array_access"@ {
        let a = crate::accessor::field_children(t, n, "array"@);
        let i = crate::accessor::field_children(t, n, "index"@);
        &&& a.len() > 0 && is_primary_kind(t.nodes@[a[0] as int].kind@) && expr_below(t, n, a[0] as int)
        &&& i.len() > 0 && expr_below(t, n, i[0] as int)
    } else if k == "dml_expression"@ {
        let sm = crate::accessor::kind_children(t, n, "dml_security_mode"@);
        let tg = crate::accessor::field_children(t, n, "target"@);
        let d = crate::accessor::kind_children(t, n, "dml_type"@);
        &&& sm.len() > 0 ==> ({
            let cs = crate::accessor::code_children(t, sm[0] as int);
            cs.len() > 0 && t.nodes@[cs[0] as int].kind@ == "user"@ && crate::accessor::readable(t, cs[0] as int)
        })
        &&& tg.len() > 0 && expr_below(t, n, tg[0] as int)
        &&& d.len() > 0 && crate::data_model::dml_type_ok(t, d[0] as int)
        &&& ({
            let op = t.nodes@[crate::accessor::code_children(t, d[0] as int)[0] as int].kind@;
            let w = crate::accessor::field_children(t, n, "merge_with"@);
            let u = crate::accessor::field_children(t, n, "upsert_key"@);
            &&& op == "merge"@ ==> w.len() > 0 && expr_below(t, n, w[0] as int)
            &&& op == "upsert"@ && u.len() > 0 ==> crate::data_model::unannotated_type_ok(t, u[0] as int)
        })
    } else {
        false
    }
}

/// The kinds of composite expression the model reads are no leaf kinds,
/// differ from one another, and the calls and parentheses are primary.
pub proof fn lemma_composite_expression_kinds(k: Seq<char>)
    ensures
        k == "binary_expression"@ ==> !is_leaf_expression_kind(k) && !is_primary_kind(k) && k != "assignment_expression"@,
        k == "method_invocation"@ ==> !is_leaf_expression_kind(k) && is_primary_kind(k) && k != "binary_expression"@
            && k != "assignment_expression"@ && k != "class_literal"@,
        k == "parenthesized_expression"@ ==> !is_leaf_expression_kind(k) && is_primary_kind(k) && k
            != "binary_expression"@ && k != "method_invocation"@ && k != "assignment_expression"@ && k != "class_literal"@,
        k == "field_access"@ ==> !is_leaf_expression_kind(k) && is_primary_kind(k) && k != "binary_expression"@ && k
            != "method_invocation"@ && k != "assignment_expression"@ && k != "class_literal"@ && k
            != "parenthesized_expression"@ && k != "object_creation_expression"@ && k != "map_creation_expression"@ && k
            != "identifier"@ && k != "this"@,
        k == "assignment_expression"@ ==> !is_leaf_expression_kind(k) && !is_primary_kind(k) && k != "binary_expression"@
            && k != "method_invocation"@ && k != "parenthesized_expression"@ && k != "array_access"@ && k != "field_access"@,
        is_primary_kind(k) ==> k != "super"@,
        k == "object_creation_expression"@ ==> !is_leaf_expression_kind(k) && is_primary_kind(k) && k
            != "class_literal"@ && k != "method_invocation"@ && k != "parenthesized_expression"@ && k
            != "binary_expression"@ && k != "assignment_expression"@,
        k == "unary_expression"@ ==> !is_leaf_expression_kind(k) && !is_primary_kind(k) && k != "binary_expression"@ && k
            != "assignment_expression"@ && k != "update_expression"@,
        k == "update_expression"@ ==> !is_leaf_expression_kind(k) && !is_primary_kind(k) && k != "binary_expression"@ && k
            != "assignment_expression"@,
        k == "array_access"@ ==> k != "identifier"@,
        k == "array_access"@ ==> !is_leaf_expression_kind(k) && is_primary_kind(k) && k != "binary_expression"@ && k
            != "method_invocation"@ && k != "assignment_expression"@ && k != "class_literal"@ && k
            != "parenthesized_expression"@ && k != "object_creation_expression"@ && k != "map_creation_expression"@ && k
            != "field_access"@ && k != "dml_expression"@,
        k == "dml_expression"@ ==> !is_leaf_expression_kind(k) && !is_primary_kind(k) && k != "binary_expression"@ && k
            != "assignment_expression"@ && k != "update_expression"@ && k != "unary_expression"@ && k
            != "method_invocation"@ && k != "parenthesized_expression"@,
        is_leaf_expression_kind(k) ==> is_primary_kind(k),
{
    reveal_strlit("int");
    reveal_strlit("decimal_floating_point_literal");
    reveal_strlit("boolean");
    reveal_strlit("null_literal");
    reveal_strlit("string_literal");
    reveal_strlit("identifier");
    reveal_strlit("this");
    reveal_strlit("binary_expression");
    reveal_strlit("method_invocation");
    reveal_strlit("parenthesized_expression");
    reveal_strlit("class_literal");
    reveal_strlit("object_creation_expression");
    reveal_strlit("map_creation_expression");
    reveal_strlit("field_access");
    reveal_strlit("array_access");
    reveal_strlit("array_creation_expression");
    reveal_strlit("version_expression");
    reveal_strlit("query_expression");
    reveal_strlit("java_field_access");
    reveal_strlit("assignment_expression");
    reveal_strlit("dml_expression");
    reveal_strlit("update_expression");
    reveal_strlit("unary_expression");
    reveal_strlit("super");
    if k == "field_access"@ {
        assert(k.len() == 12 && k[0] == 'f');
    }
    if k == "object_creation_expression"@ {
        assert(k.len() == 26 && k[0] == 'o');
    }
    if k == "unary_expression"@ {
        assert(k.len() == 16 && k[0] == 'u' && k[1] == 'n');
    }
    if k == "update_expression"@ {
        assert(k.len() == 17 && k[0] == 'u' && k[1] == 'p');
    }
    if k == "assignment_expression"@ {
        assert(k.len() == 21 && k[0] == 'a');
    }
    if k == "super"@ {
        assert(k.len() == 5 && k[0] == 's');
    }
    if k == "array_access"@ {
        assert(k.len() == 12 && k[0] == 'a' && k[1] == 'r');
    }
    if k == "dml_expression"@ {
        assert(k.len() == 14 && k[0] == 'd');
    }
    if k == "binary_expression"@ {
        assert(k.len() == 17 && k[0] == 'b');
    }
    if k == "method_invocation"@ {
        assert(k.len() == 17 && k[0] == 'm');
    }
    if k == "parenthesized_expression"@ {
        assert(k.len() == 24 && k[0] == 'p');
    }
}

impl PrimaryExpression {
    pub fn new(t: &SyntaxTree, n: usize) -> (r: Result<Self, String>)
        requires
            t.wf(),
            t.valid(n as int),
        ensures
            r matches Ok(v) ==> primary_tied(t, n as int, v),
            r is Ok ==> is_primary_kind(t.nodes@[n as int].kind@),
            r matches Ok(e) ==> primary_variant_kind(e, t.nodes@[n as int].kind@),
            is_leaf_expression_kind(t.nodes@[n as int].kind@) ==> (r is Ok <==> leaf_expression_ok(t, n as int)),
            is_primary_kind(t.nodes@[n as int].kind@) && expr_reads(t, n as int) ==> r is Ok,
        decreases t.nodes@.len() - n, 5int,
    {
        proof {
            lemma_leaf_expression_kinds(t.nodes@[n as int].kind@);
            lemma_composite_expression_kinds(t.nodes@[n as int].kind@);
        }
        if is_literal_node(t, n) {
            Ok(PrimaryExpression::Literal(Literal_::new(t, n)?))
        } else if kind_is(t, n, "identifier") {
            Ok(PrimaryExpression::Identifier(ValueNode::new(t, n)?))
        } else if kind_is(t, n, "class_literal") {
            Ok(PrimaryExpression::Class(ClassLiteral::new(t, n)?))
        } else if kind_is(t, n, "method_invocation") {
            Ok(PrimaryExpression::Method(MethodInvocation::new(t, n)?))
        } else if kind_is(t, n, "parenthesized_expression") {
            Ok(PrimaryExpression::Parenth(ParenthesizedExpression::new(t, n)?))
        } else if kind_is(t, n, "object_creation_expression") {
            Ok(PrimaryExpression::Obj(ObjectCreationExpression::new(t, n)?))
        } else if kind_is(t, n, "map_creation_expression") {
            Ok(PrimaryExpression::MapCreation(MapCreationExpression::new(t, n)?))
        } else if kind_is(t, n, "field_access") {
            Ok(PrimaryExpression::Field(FieldAccess::new(t, n)?))
        } else if kind_is(t, n, "array_access") {
            Ok(PrimaryExpression::Array(Box::new(ArrayAccess::new(t, n)?)))
        } else if kind_is(t, n, "array_creation_expression") {
            Ok(PrimaryExpression::ArrayCreation(ArrayCreationExpression::new(t, n)?))
        } else if kind_is(t, n, "version_expression") {
            Ok(PrimaryExpression::Version(VersionExpression::new(t, n)?))
        } else if kind_is(t, n, "query_expression") {
            Ok(PrimaryExpression::Query(QueryExpression::new(t, n)?))
        } else if kind_is(t, n, "java_field_access") {
            Ok(PrimaryExpression::Java(JavaFieldAccess::new(t, n)?))
        } else if kind_is(t, n, "this") {
            Ok(PrimaryExpression::This(This::new(t, n)?))
        } else {
            Err(panic_unknown_node(t, n, "PrimaryExpression"))
        }
    }

    pub fn build<'a>(&self, b: &'a DocBuilder<'a>, cm: &CommentMap, st: &mut BuildState) -> (r: DocRef<'a>)
        ensures
            final(st).printed@.len() == old(st).printed@.len(),
            primary_doc(*r, *self, b.config),
        decreases self,
    {
        match self {
            PrimaryExpression::Literal(v) => v.build(b, cm, st),
            PrimaryExpression::Identifier(v) => v.build(b, cm, st),
            PrimaryExpression::Class(v) => v.build(b, cm, st),
            PrimaryExpression::Method(v) => v.build(b, cm, st),
            PrimaryExpression::Parenth(v) => v.build(b, cm, st),
            PrimaryExpression::Obj(v) => v.build(b, cm, st),
            PrimaryExpression::MapCreation(v) => v.build(b, cm, st),
            PrimaryExpression::Field(v) => v.build(b, cm, st),
            PrimaryExpression::Array(v) => v.build(b, cm, st),
            PrimaryExpression::ArrayCreation(v) => v.build(b, cm, st),
            PrimaryExpression::Version(v) => v.build(b, cm, st),
            PrimaryExpression::This(v) => v.build(b, cm, st),
            PrimaryExpression::Java(v) => v.build(b, cm, st),
            PrimaryExpression::Query(v) => v.build(b, cm, st),
        }
    }
}

/// An expression, laid out as its kind says.
pub open spec fn expression_doc<'a>(d: Doc<'a>, e: Expression, cfg: PrettyConfig) -> bool
    decreases e,
{
    match e {
        Expression::Assignment(x) => exists|body: Seq<DocRef<'a>>| #[trigger] wraps(d, body) && crate::data_model::assignment_layout(body, *x, cfg),
        Expression::Binary(x) => exists|body: Seq<DocRef<'a>>| #[trigger] wraps(d, body) && crate::data_model::binary_layout(body, x.op@, x.context) && crate::data_model::binary_operands(body, *x, cfg),
        Expression::Primary(x) => primary_doc(d, *x, cfg),
        Expression::Update(x) => exists|body: Seq<DocRef<'a>>| #[trigger] wraps(d, body) && body.len() == 1 && crate::data_model::update_layout(*body[0], x.variant),
        Expression::Unary(x) => exists|body: Seq<DocRef<'a>>| #[trigger] wraps(d, body) && crate::data_model::unary_layout(body, x, cfg),
        Expression::Dml(x) => exists|body: Seq<DocRef<'a>>| #[trigger] wraps(d, body) && body.len() == 1 && *body[0] is Concat && crate::data_model::dml_layout(
            crate::doc_builder::concat_parts(*body[0]),
            x.variant,
            cfg,
        ),
        Expression::Te(x) => exists|body: Seq<DocRef<'a>>| #[trigger] wraps(d, body) && crate::data_model::ternary_layout(body)
            && crate::data_model::ternary_operands(body, *x, cfg),
        Expression::Cast(x) => exists|body: Seq<DocRef<'a>>| #[trigger] wraps(d, body) && crate::data_model::cast_layout(body)
            && crate::data_model::cast_operands(body, *x, cfg),
        Expression::Instance(x) => exists|body: Seq<DocRef<'a>>| #[trigger] wraps(d, body) && crate::data_model::instanceof_layout(body)
            && crate::data_model::instanceof_operands(body, *x, cfg),
    }
}

pub enum Expression {
    Assignment(Box<AssignmentExpression>),
    Binary(Box<BinaryExpression>),
    Primary(Box<PrimaryExpression>),
    Update(UpdateExpression),
    Unary(UnaryExpression),
    Dml(Box<DmlExpression>),
    Te(Box<TernaryExpression>),
    Cast(Box<CastExpression>),
    Instance(Box<InstanceOfExpression>),
}

impl Expression {
    pub fn new(t: &SyntaxTree, n: usize) -> (r: Result<Self, String>)
        requires
            t.wf(),
            t.valid(n as int),
        ensures
            r matches Ok(e) ==> expr_tied(t, n as int, e),
            r is Ok ==> is_expression_kind(t.nodes@[n as int].kind@),
            r matches Ok(e) ==> expression_variant_kind(e, t.nodes@[n as int].kind@),
            is_leaf_expression_kind(t.nodes@[n as int].kind@) ==> (r is Ok <==> leaf_expression_ok(t, n as int)),
            expr_reads(t, n as int) ==> r is Ok,
        decreases t.nodes@.len() - n, 6int,
    {
        proof {
            lemma_leaf_expression_kinds(t.nodes@[n as int].kind@);
            lemma_composite_expression_kinds(t.nodes@[n as int].kind@);
        }
        if kind_is(t, n, "assignment_expression") {
            Ok(Expression::Assignment(Box::new(AssignmentExpression::new(t, n)?)))
        } else if kind_is(t, n, "binary_expression") {
            Ok(Expression::Binary(Box::new(BinaryExpression::new(t, n)?)))
        } else if is_primary_node(t, n) {
            Ok(Expression::Primary(Box::new(PrimaryExpression::new(t, n)?)))
        } else if kind_is(t, n, "update_expression") {
            Ok(Expression::Update(UpdateExpression::new(t, n)?))
        } else if kind_is(t, n, "unary_expression") {
            Ok(Expression::Unary(UnaryExpression::new(t, n)?))
        } else if kind_is(t, n, "dml_expression") {
            Ok(Expression::Dml(Box::new(DmlExpression::new(t, n)?)))
        } else if kind_is(t, n, "ternary_expression") {
            Ok(Expression::Te(Box::new(TernaryExpression::new(t, n)?)))
        } else if kind_is(t, n, "cast_expression") {
            Ok(Expression::Cast(Box::new(CastExpression::new(t, n)?)))
        } else if kind_is(t, n, "instanceof_expression") {
            Ok(Expression::Instance(Box::new(InstanceOfExpression::new(t, n)?)))
        } else {
            Err(panic_unknown_node(t, n, "Expression"))
        }
    }

    pub fn build<'a>(&self, b: &'a DocBuilder<'a>, cm: &CommentMap, st: &mut BuildState) -> (r: DocRef<'a>)
        ensures
            final(st).printed@.len() == old(st).printed@.len(),
            expression_doc(*r, *self, b.config),
        decreases self,
    {
        match self {
            Expression::Assignment(v) => v.build(b, cm, st),
            Expression::Binary(v) => v.build(b, cm, st),
            Expression::Primary(v) => v.build(b, cm, st),
            Expression::Update(v) => v.build(b, cm, st),
            Expression::Unary(v) => v.build(b, cm, st),
            Expression::Dml(v) => v.build(b, cm, st),
            Expression::Te(v) => v.build(b, cm, st),
            Expression::Cast(v) => v.build(b, cm, st),
            Expression::Instance(v) => v.build(b, cm, st),
        }
    }
}

/// The documents of a list of expressions.
pub fn build_expressions<'a>(list: &Vec<Expression>, b: &'a DocBuilder<'a>, cm: &CommentMap, st: &mut BuildState) -> (r: Vec<DocRef<'a>>)
    ensures
        final(st).printed@.len() == old(st).printed@.len(),
        r@.len() == list@.len(),
        forall|j: int| 0 <= j < list@.len() ==> expression_doc(*r@[j], #[trigger] list@[j], b.config),
    decreases list,
{
    let ghost len0 = st.printed@.len();
    let mut docs: Vec<DocRef<'a>> = Vec::new();
    let mut i: usize = 0;
    while i < list.len()
        invariant
            st.printed@.len() == len0,
            i <= list@.len(),
            docs@.len() == i,
            forall|j: int| 0 <= j < i ==> expression_doc(*docs@[j], #[trigger] list@[j], b.config),
        decreases list@.len() - i,
    {
        let d = list[i].build(b, cm, st);
        docs.push(d);
        i = i + 1;
    }
    docs
}

/// Expressions read from a list of nodes, each after `n`.
pub fn expressions_of(t: &SyntaxTree, n: usize, cs: &Vec<usize>) -> (r: Result<Vec<Expression>, String>)
    requires
        t.wf(),
        t.valid(n as int),
        forall|j: int| 0 <= j < cs@.len() ==> n < #[trigger] cs@[j] < t.nodes@.len(),
    ensures
        r matches Ok(v) ==> v@.len() == cs@.len(),
        r matches Ok(v) ==> forall|j: int| 0 <= j < cs@.len() ==> expr_tied(t, cs@[j] as int, #[trigger] v@[j]),
        (forall|j: int| 0 <= j < cs@.len() ==> is_leaf_expression_kind(t.nodes@[#[trigger] cs@[j] as int].kind@))
            ==> (r is Ok <==> forall|j: int| 0 <= j < cs@.len() ==> leaf_expression_ok(t, #[trigger] cs@[j] as int)),
        (forall|j: int| 0 <= j < cs@.len() ==> expr_below(t, n as int, #[trigger] cs@[j] as int)) ==> r is Ok,
    decreases t.nodes@.len() - n, 0int,
{
    let mut v: Vec<Expression> = Vec::new();
    let mut i: usize = 0;
    while i < cs.len()
        invariant
            t.wf(),
            t.valid(n as int),
            i <= cs@.len(),
            v@.len() == i,
            forall|j: int| 0 <= j < cs@.len() ==> n < #[trigger] cs@[j] < t.nodes@.len(),
            forall|j: int| 0 <= j < i ==> is_leaf_expression_kind(t.nodes@[#[trigger] cs@[j] as int].kind@)
                ==> leaf_expression_ok(t, cs@[j] as int),
            forall|j: int| 0 <= j < i ==> expr_tied(t, cs@[j] as int, #[trigger] v@[j]),
        decreases cs@.len() - i,
    {
        let e = match Expression::new(t, cs[i]) {
            Ok(e) => e,
            Err(e) => {
                assert(!expr_below(t, n as int, cs@[i as int] as int));
                assert(is_leaf_expression_kind(t.nodes@[cs@[i as int] as int].kind@)
                    ==> !leaf_expression_ok(t, cs@[i as int] as int));
                return Err(e);
            },
        };
        v.push(e);
        i = i + 1;
    }
    Ok(v)
}

/// The value of a variable: an expression or an array initializer.
pub enum VariableInitializer {
    Exp(Expression),
    Array(Box<ArrayInitializer>),
}

impl VariableInitializer {
    pub fn new(t: &SyntaxTree, n: usize) -> (r: Result<Self, String>)
        requires
            t.wf(),
            t.valid(n as int),
        ensures
            r matches Ok(v) ==> (v is Array ==> t.nodes@[n as int].kind@ == "array_initializer"@),
        decreases t.nodes@.len() - n, 7int,
    {
        if kind_is(t, n, "array_initializer") {
            Ok(VariableInitializer::Array(Box::new(ArrayInitializer::new(t, n)?)))
        } else {
            Ok(VariableInitializer::Exp(Expression::new(t, n)?))
        }
    }

    pub fn build<'a>(&self, b: &'a DocBuilder<'a>, cm: &CommentMap, st: &mut BuildState) -> (r: DocRef<'a>)
        ensures
            final(st).printed@.len() == old(st).printed@.len(),
            *self matches VariableInitializer::Exp(e) ==> expression_doc(*r, e, b.config),
            *self matches VariableInitializer::Array(a) ==> exists|body: Seq<DocRef<'a>>| #[trigger] wraps(*r, body)
                && crate::data_model::array_initializer_layout(body, *a, b.config),
        decreases self,
    {
        match self {
            VariableInitializer::Exp(e) => e.build(b, cm, st),
            VariableInitializer::Array(a) => a.build(b, cm, st),
        }
    }
}


// ---------------------------------------------------------------------------
// Statements and members.
// ---------------------------------------------------------------------------
pub enum Statement {
    If(Box<IfStatement>),
    Exp(ExpressionStatement),
    Local(LocalVariableDeclaration),
    Block(Box<Block>),
    For(Box<ForStatement>),
    EnhancedFor(Box<EnhancedForStatement>),
    Run(RunAsStatement),
    Do(Box<DoStatement>),
    While(Box<WhileStatement>),
    Return(ReturnStatement),
    Try(Box<TryStatement>),
    Throw(ThrowStatement),
    Break(BreakStatement),
    Continue(ContinueStatement),
    Switch(Box<SwitchExpression>),
    SemiColumn,
}

/// The kinds of node that are a statement.
pub open spec fn is_statement_kind(k: Seq<char>) -> bool {
    k == "if_statement"@ || k == "expression_statement"@ || k == "local_variable_declaration"@ || k
        == "block"@ || k == "for_statement"@ || k == "enhanced_for_statement"@ || k == "run_as_statement"@
        || k == "do_statement"@ || k == "while_statement"@ || k == "return_statement"@ || k
        == "try_statement"@ || k == "throw_statement"@ || k == "break_statement"@ || k
        == "continue_statement"@ || k == "switch_expression"@ || k == ";"@
}

/// The names of the statement kinds that need no other statement to be
/// read are each unlike every other statement kind.
proof fn lemma_leaf_statement_kinds(k: Seq<char>)
    ensures
        k == "return_statement"@ ==> k != "if_statement"@ && k != "expression_statement"@ && k != "local_variable_declaration"@ && k != "block"@ && k != "for_statement"@ && k != "enhanced_for_statement"@ && k != "run_as_statement"@ && k != "do_statement"@ && k != "while_statement"@ && k != "try_statement"@ && k != "throw_statement"@ && k != "break_statement"@ && k != "continue_statement"@ && k != "switch_expression"@ && k != ";"@,
        k == "break_statement"@ ==> k != "if_statement"@ && k != "expression_statement"@ && k != "local_variable_declaration"@ && k != "block"@ && k != "for_statement"@ && k != "enhanced_for_statement"@ && k != "run_as_statement"@ && k != "do_statement"@ && k != "while_statement"@ && k != "return_statement"@ && k != "try_statement"@ && k != "throw_statement"@ && k != "continue_statement"@ && k != "switch_expression"@ && k != ";"@,
        k == "continue_statement"@ ==> k != "if_statement"@ && k != "expression_statement"@ && k != "local_variable_declaration"@ && k != "block"@ && k != "for_statement"@ && k != "enhanced_for_statement"@ && k != "run_as_statement"@ && k != "do_statement"@ && k != "while_statement"@ && k != "return_statement"@ && k != "try_statement"@ && k != "throw_statement"@ && k != "break_statement"@ && k != "switch_expression"@ && k != ";"@,
        k == ";"@ ==> k != "if_statement"@ && k != "expression_statement"@ && k != "local_variable_declaration"@ && k != "block"@ && k != "for_statement"@ && k != "enhanced_for_statement"@ && k != "run_as_statement"@ && k != "do_statement"@ && k != "while_statement"@ && k != "return_statement"@ && k != "try_statement"@ && k != "throw_statement"@ && k != "break_statement"@ && k != "continue_statement"@ && k != "switch_expression"@,
{
    reveal_strlit("if_statement");
    reveal_strlit("expression_statement");
    reveal_strlit("local_variable_declaration");
    reveal_strlit("block");
    reveal_strlit("for_statement");
    reveal_strlit("enhanced_for_statement");
    reveal_strlit("run_as_statement");
    reveal_strlit("do_statement");
    reveal_strlit("while_statement");
    reveal_strlit("return_statement");
    reveal_strlit("try_statement");
    reveal_strlit("throw_statement");
    reveal_strlit("break_statement");
    reveal_strlit("continue_statement");
    reveal_strlit("switch_expression");
    reveal_strlit(";");
    assert(";"@.len() != "block"@.len());
    assert(";"@.len() != "break_statement"@.len());
    assert(";"@.len() != "continue_statement"@.len());
    assert(";"@.len() != "do_statement"@.len());
    assert(";"@.len() != "enhanced_for_statement"@.len());
    assert(";"@.len() != "expression_statement"@.len());
    assert(";"@.len() != "for_statement"@.len());
    assert(";"@.len() != "if_statement"@.len());
    assert(";"@.len() != "local_variable_declaration"@.len());
    assert(";"@.len() != "return_statement"@.len());
    assert(";"@.len() != "run_as_statement"@.len());
    assert(";"@.len() != "switch_expression"@.len());
    assert(";"@.len() != "throw_statement"@.len());
    assert(";"@.len() != "try_statement"@.len());
    assert(";"@.len() != "while_statement"@.len());
    assert("block"@.len() != "break_statement"@.len());
    assert("block"@.len() != "continue_statement"@.len());
    assert("block"@.len() != "return_statement"@.len());
    assert("break_statement"@.len() != "continue_statement"@.len());
    assert("break_statement"@.len() != "do_statement"@.len());
    assert("break_statement"@.len() != "enhanced_for_statement"@.len());
    assert("break_statement"@.len() != "expression_statement"@.len());
    assert("break_statement"@.len() != "for_statement"@.len());
    assert("break_statement"@.len() != "if_statement"@.len());
    assert("break_statement"@.len() != "local_variable_declaration"@.len());
    assert("break_statement"@.len() != "return_statement"@.len());
    assert("break_statement"@.len() != "run_as_statement"@.len());
    assert("break_statement"@.len() != "switch_expression"@.len());
    assert("break_statement"@[0] != "throw_statement"@[0]);
    assert("break_statement"@.len() != "try_statement"@.len());
    assert("break_statement"@[0] != "while_statement"@[0]);
    assert("continue_statement"@.len() != "do_statement"@.len());
    assert("continue_statement"@.len() != "enhanced_for_statement"@.len());
    assert("continue_statement"@.len() != "expression_statement"@.len());
    assert("continue_statement"@.len() != "for_statement"@.len());
    assert("continue_statement"@.len() != "if_statement"@.len());
    assert("continue_statement"@.len() != "local_variable_declaration"@.len());
    assert("continue_statement"@.len() != "return_statement"@.len());
    assert("continue_statement"@.len() != "run_as_statement"@.len());
    assert("continue_statement"@.len() != "switch_expression"@.len());
    assert("continue_statement"@.len() != "throw_statement"@.len());
    assert("continue_statement"@.len() != "try_statement"@.len());
    assert("continue_statement"@.len() != "while_statement"@.len());
    assert("do_statement"@.len() != "return_statement"@.len());
    assert("enhanced_for_statement"@.len() != "return_statement"@.len());
    assert("expression_statement"@.len() != "return_statement"@.len());
    assert("for_statement"@.len() != "return_statement"@.len());
    assert("if_statement"@.len() != "return_statement"@.len());
    assert("local_variable_declaration"@.len() != "return_statement"@.len());
    assert("return_statement"@[1] != "run_as_statement"@[1]);
    assert("return_statement"@.len() != "switch_expression"@.len());
    assert("return_statement"@.len() != "throw_statement"@.len());
    assert("return_statement"@.len() != "try_statement"@.len());
    assert("return_statement"@.len() != "while_statement"@.len());
}

/// A statement that holds no other statement, whose parts can be read:
/// `;`, or `break` or `continue` with a readable label where they have one.
pub open spec fn leaf_statement_ok(t: &SyntaxTree, n: int) -> bool {
    let k = t.nodes@[n].kind@;
    let ids = crate::accessor::kind_children(t, n, "identifier"@);
    ||| k == ";"@
    ||| ((k == "break_statement"@ || k == "continue_statement"@) && (ids.len() > 0 ==> crate::accessor::readable(t, ids[0] as int)))
}

/// The kinds of statement that hold no other statement.
pub open spec fn is_leaf_statement_kind(k: Seq<char>) -> bool {
    k == ";"@ || k == "break_statement"@ || k == "continue_statement"@
}

/// The kind of node each variant of a statement is read from.
pub open spec fn statement_variant_kind(s: Statement, k: Seq<char>) -> bool {
    match s {
        Statement::If(_) => k == "if_statement"@,
        Statement::Exp(_) => k == "expression_statement"@,
        Statement::Local(_) => k == "local_variable_declaration"@,
        Statement::Block(_) => k == "block"@,
        Statement::For(_) => k == "for_statement"@,
        Statement::EnhancedFor(_) => k == "enhanced_for_statement"@,
        Statement::Run(_) => k == "run_as_statement"@,
        Statement::Do(_) => k == "do_statement"@,
        Statement::While(_) => k == "while_statement"@,
        Statement::Return(_) => k == "return_statement"@,
        Statement::Try(_) => k == "try_statement"@,
        Statement::Throw(_) => k == "throw_statement"@,
        Statement::Break(_) => k == "break_statement"@,
        Statement::Continue(_) => k == "continue_statement"@,
        Statement::Switch(_) => k == "switch_expression"@,
        Statement::SemiColumn => k == ";"@,
    }
}

/// The kind of node each variant of an expression is read from; a primary
/// expression from one of the primary kinds.
pub open spec fn expression_variant_kind(e: Expression, k: Seq<char>) -> bool {
    match e {
        Expression::Assignment(_) => k == "assignment_expression"@,
        Expression::Binary(_) => k == "binary_expression"@,
        Expression::Primary(_) => is_primary_kind(k),
        Expression::Update(_) => k == "update_expression"@,
        Expression::Unary(_) => k == "unary_expression"@,
        Expression::Dml(_) => k == "dml_expression"@,
        Expression::Te(_) => k == "ternary_expression"@,
        Expression::Cast(_) => k == "cast_expression"@,
        Expression::Instance(_) => k == "instanceof_expression"@,
    }
}

/// The kind of node each variant of a primary expression is read from.
pub open spec fn primary_variant_kind(e: PrimaryExpression, k: Seq<char>) -> bool {
    match e {
        PrimaryExpression::Literal(_) => is_literal_kind(k),
        PrimaryExpression::Identifier(_) => k == "identifier"@,
        PrimaryExpression::Class(_) => k == "class_literal"@,
        PrimaryExpression::Method(_) => k == "method_invocation"@,
        PrimaryExpression::Parenth(_) => k == "parenthesized_expression"@,
        PrimaryExpression::Obj(_) => k == "object_creation_expression"@,
        PrimaryExpression::MapCreation(_) => k == "map_creation_expression"@,
        PrimaryExpression::Field(_) => k == "field_access"@,
        PrimaryExpression::Array(_) => k == "array_access"@,
        PrimaryExpression::ArrayCreation(_) => k == "array_creation_expression"@,
        PrimaryExpression::Query(_) => k == "query_expression"@,
        PrimaryExpression::Version(_) => k == "version_expression"@,
        PrimaryExpression::Java(_) => k == "java_field_access"@,
        PrimaryExpression::This(_) => k == "this"@,
    }
}

/// `c` is a node below `n`, a statement that the model reads in full.
pub open spec fn stmt_below(t: &SyntaxTree, n: int, c: int) -> bool
    decreases t.nodes@.len() - n, 8int,
{
    n < c < t.nodes@.len() && stmt_reads(t, c)
}

/// A statement that the model reads in full, at any depth: `;`, `break`,
/// `continue`; an expression statement, `return` or `throw` of an expression
/// that `expr_reads`; a local variable declaration that
/// `local_declaration_reads`; a block of such statements; an `if` or `while`
/// whose condition is such an expression in parentheses and whose branches
/// or body are such statements; a `for` over a collection of such an
/// expression, or a `for` with a declaration that `local_declaration_reads`,
/// a condition and an optional update of such expressions, with such a body.
pub open spec fn stmt_reads(t: &SyntaxTree, n: int) -> bool
    decreases t.nodes@.len() - n, 9int,
{
    let k = t.nodes@[n].kind@;
    let cs = crate::accessor::code_children(t, n);
    if is_leaf_statement_kind(k) {
        leaf_statement_ok(t, n)
    } else if k == "expression_statement"@ {
        cs.len() > 0 && expr_below(t, n, cs[0] as int)
    } else if k == "return_statement"@ {
        cs.len() > 0 ==> expr_below(t, n, cs[0] as int)
    } else if k == "local_variable_declaration"@ {
        crate::data_model::local_declaration_reads(t, n)
    } else if k == "for_statement"@ {
        let i = crate::accessor::field_children(t, n, "init"@);
        let c = crate::accessor::field_children(t, n, "condition"@);
        let u = crate::accessor::field_children(t, n, "update"@);
        let b = crate::accessor::field_children(t, n, "body"@);
        &&& i.len() > 0 && n < i[0] < t.nodes@.len() && crate::data_model::local_declaration_reads(t, i[0] as int)
        &&& c.len() > 0 && expr_below(t, n, c[0] as int)
        &&& u.len() > 0 ==> expr_below(t, n, u[0] as int)
        &&& b.len() > 0 && stmt_below(t, n, b[0] as int)
    } else if k == "enhanced_for_statement"@ {
        let v = crate::accessor::field_children(t, n, "value"@);
        let b = crate::accessor::field_children(t, n, "body"@);
        &&& crate::data_model::declared_type_ok(t, n)
        &&& crate::data_model::readable_first(t, crate::accessor::field_children(t, n, "name"@))
        &&& v.len() > 0 && expr_below(t, n, v[0] as int)
        &&& b.len() > 0 && stmt_below(t, n, b[0] as int)
    } else if k == "throw_statement"@ {
        cs.len() > 0 && expr_below(t, n, cs[0] as int)
    } else if k == "while_statement"@ {
        let c = crate::accessor::field_children(t, n, "condition"@);
        let b = crate::accessor::field_children(t, n, "body"@);
        &&& c.len() > 0 && n < c[0] < t.nodes@.len()
        &&& crate::accessor::code_children(t, c[0] as int).len() > 0
        &&& expr_below(t, c[0] as int, crate::accessor::code_children(t, c[0] as int)[0] as int)
        &&& b.len() > 0 && stmt_below(t, n, b[0] as int)
    } else if k == "block"@ {
        forall|j: int| 0 <= j < cs.len() ==> stmt_below(t, n, #[trigger] cs[j] as int)
    } else if k == "if_statement"@ {
        let c = crate::accessor::field_children(t, n, "condition"@);
        let q = crate::accessor::field_children(t, n, "consequence"@);
        let a = crate::accessor::field_children(t, n, "alternative"@);
        &&& c.len() > 0 && n < c[0] < t.nodes@.len()
        &&& crate::accessor::code_children(t, c[0] as int).len() > 0
        &&& expr_below(t, c[0] as int, crate::accessor::code_children(t, c[0] as int)[0] as int)
        &&& q.len() > 0 && stmt_below(t, n, q[0] as int)
        &&& a.len() > 0 ==> (crate::accessor::kind_pos_from(t, n, 0, "else"@) matches Some(i)
            && crate::accessor::readable(t, t.nodes@[n].children@[i] as int) && stmt_below(t, n, a[0] as int))
    } else {
        false
    }
}

/// The kinds of composite statement the model reads are no leaf kinds and
/// differ from the kinds tried before them.
pub proof fn lemma_composite_statement_kinds(k: Seq<char>)
    ensures
        k == "if_statement"@ ==> !is_leaf_statement_kind(k),
        k == "expression_statement"@ ==> !is_leaf_statement_kind(k) && k != "if_statement"@,
        k == "local_variable_declaration"@ ==> !is_leaf_statement_kind(k) && k != "if_statement"@ && k
            != "expression_statement"@ && k != "return_statement"@,
        k == "for_statement"@ ==> !is_leaf_statement_kind(k) && k != "if_statement"@ && k != "expression_statement"@
            && k != "local_variable_declaration"@ && k != "block"@ && k != "return_statement"@ && k != "throw_statement"@
            && k != "while_statement"@,
        k == "enhanced_for_statement"@ ==> !is_leaf_statement_kind(k) && k != "if_statement"@ && k
            != "expression_statement"@ && k != "local_variable_declaration"@ && k != "block"@ && k != "for_statement"@ && k
            != "return_statement"@ && k != "throw_statement"@ && k != "while_statement"@,
        k == "while_statement"@ ==> !is_leaf_statement_kind(k) && k != "if_statement"@ && k != "expression_statement"@
            && k != "local_variable_declaration"@ && k != "block"@ && k != "for_statement"@ && k
            != "enhanced_for_statement"@ && k != "run_as_statement"@ && k != "do_statement"@ && k != "return_statement"@,
        k == "throw_statement"@ ==> !is_leaf_statement_kind(k) && k != "if_statement"@ && k != "expression_statement"@
            && k != "local_variable_declaration"@ && k != "block"@ && k != "for_statement"@ && k
            != "enhanced_for_statement"@ && k != "run_as_statement"@ && k != "do_statement"@ && k != "while_statement"@
            && k != "return_statement"@ && k != "try_statement"@,
        k == "block"@ ==> !is_leaf_statement_kind(k) && k != "if_statement"@ && k != "expression_statement"@
            && k != "local_variable_declaration"@,
        k == "return_statement"@ ==> !is_leaf_statement_kind(k) && k != "if_statement"@ && k
            != "expression_statement"@ && k != "block"@,
{
    reveal_strlit("if_statement");
    reveal_strlit("expression_statement");
    reveal_strlit("local_variable_declaration");
    reveal_strlit("block");
    reveal_strlit("return_statement");
    reveal_strlit("break_statement");
    reveal_strlit("continue_statement");
    reveal_strlit(";");
    if k == "if_statement"@ {
        assert(k.len() == 12 && k[0] == 'i');
    }
    if k == "expression_statement"@ {
        assert(k.len() == 20 && k[0] == 'e');
    }
    if k == "block"@ {
        assert(k.len() == 5 && k[0] == 'b');
    }
    if k == "local_variable_declaration"@ {
        assert(k.len() == 26 && k[0] == 'l');
    }
    reveal_strlit("for_statement");
    reveal_strlit("enhanced_for_statement");
    reveal_strlit("run_as_statement");
    reveal_strlit("do_statement");
    reveal_strlit("while_statement");
    reveal_strlit("try_statement");
    reveal_strlit("throw_statement");
    if k == "while_statement"@ {
        assert(k.len() == 15 && k[0] == 'w');
    }
    if k == "for_statement"@ {
        assert(k.len() == 13 && k[0] == 'f');
    }
    if k == "enhanced_for_statement"@ {
        assert(k.len() == 22 && k[0] == 'e' && k[1] == 'n');
    }
    if k == "throw_statement"@ {
        assert(k.len() == 15 && k[0] == 't');
    }
    if k == "return_statement"@ {
        assert(k.len() == 16 && k[0] == 'r');
    }
}

impl Statement {
    pub fn new(t: &SyntaxTree, n: usize) -> (r: Result<Self, String>)
        requires
            t.wf(),
            t.valid(n as int),
        ensures
            r matches Ok(s) ==> stmt_tied(t, n as int, s),
            r is Ok ==> is_statement_kind(t.nodes@[n as int].kind@),
            r matches Ok(s) ==> statement_variant_kind(s, t.nodes@[n as int].kind@),
            is_leaf_statement_kind(t.nodes@[n as int].kind@) ==> (r is Ok <==> leaf_statement_ok(t, n as int)),
            t.nodes@[n as int].kind@ == "return_statement"@ && crate::accessor::code_children(t, n as int).len() == 0 ==> r is Ok,
            stmt_reads(t, n as int) ==> r is Ok,
        decreases t.nodes@.len() - n, 3int,
    {
        proof {
            lemma_leaf_statement_kinds(t.nodes@[n as int].kind@);
            lemma_composite_statement_kinds(t.nodes@[n as int].kind@);
        }
        if kind_is(t, n, "if_statement") {
            Ok(Statement::If(Box::new(IfStatement::new(t, n)?)))
        } else if kind_is(t, n, "expression_statement") {
            Ok(Statement::Exp(ExpressionStatement::new(t, n)?))
        } else if kind_is(t, n, "local_variable_declaration") {
            Ok(Statement::Local(LocalVariableDeclaration::new(t, n)?))
        } else if kind_is(t, n, "block") {
            Ok(Statement::Block(Box::new(Block::new(t, n)?)))
        } else if kind_is(t, n, "for_statement") {
            Ok(Statement::For(Box::new(ForStatement::new(t, n)?)))
        } else if kind_is(t, n, "enhanced_for_statement") {
            Ok(Statement::EnhancedFor(Box::new(EnhancedForStatement::new(t, n)?)))
        } else if kind_is(t, n, "run_as_statement") {
            Ok(Statement::Run(RunAsStatement::new(t, n)?))
        } else if kind_is(t, n, "do_statement") {
            Ok(Statement::Do(Box::new(DoStatement::new(t, n)?)))
        } else if kind_is(t, n, "while_statement") {
            Ok(Statement::While(Box::new(WhileStatement::new(t, n)?)))
        } else if kind_is(t, n, "return_statement") {
            Ok(Statement::Return(ReturnStatement::new(t, n)?))
        } else if kind_is(t, n, "try_statement") {
            Ok(Statement::Try(Box::new(TryStatement::new(t, n)?)))
        } else if kind_is(t, n, "throw_statement") {
            Ok(Statement::Throw(ThrowStatement::new(t, n)?))
        } else if kind_is(t, n, "break_statement") {
            Ok(Statement::Break(BreakStatement::new(t, n)?))
        } else if kind_is(t, n, "continue_statement") {
            Ok(Statement::Continue(ContinueStatement::new(t, n)?))
        } else if kind_is(t, n, "switch_expression") {
            Ok(Statement::Switch(Box::new(SwitchExpression::new(t, n)?)))
        } else if kind_is(t, n, ";") {
            Ok(Statement::SemiColumn)
        } else {
            Err(panic_unknown_node(t, n, "Statement"))
        }
    }

    pub fn is_block(&self) -> (r: bool)
        ensures
            r == (self is Block),
    {
        match self {
            Statement::Block(_) => true,
            _ => false,
        }
    }

    pub fn is_if(&self) -> (r: bool)
        ensures
            r == (self is If),
    {
        match self {
            Statement::If(_) => true,
            _ => false,
        }
    }

    pub fn is_semicolon(&self) -> (r: bool)
        ensures
            r == (self is SemiColumn),
    {
        match self {
            Statement::SemiColumn => true,
            _ => false,
        }
    }

    pub fn build<'a>(&self, b: &'a DocBuilder<'a>, cm: &CommentMap, st: &mut BuildState) -> (r: DocRef<'a>)
        ensures
            final(st).printed@.len() == old(st).printed@.len(),
            self is SemiColumn ==> is_text(*r, seq![';']),
            statement_doc(*r, *self, cm, b.config),
        decreases self,
    {
        match self {
            Statement::If(x) => x.build(b, cm, st),
            Statement::Exp(x) => x.build(b, cm, st),
            Statement::Local(x) => x.build(b, cm, st),
            Statement::Block(x) => x.build(b, cm, st),
            Statement::For(x) => x.build(b, cm, st),
            Statement::EnhancedFor(x) => x.build(b, cm, st),
            Statement::Run(x) => x.build(b, cm, st),
            Statement::Do(x) => x.build(b, cm, st),
            Statement::While(x) => x.build(b, cm, st),
            Statement::Return(x) => x.build(b, cm, st),
            Statement::Try(x) => x.build(b, cm, st),
            Statement::Throw(x) => x.build(b, cm, st),
            Statement::Break(x) => x.build(b, cm, st),
            Statement::Continue(x) => x.build(b, cm, st),
            Statement::Switch(x) => x.build(b, cm, st),
            Statement::SemiColumn => {
                let r = b.txt(";");
                proof {
                    reveal_strlit(";");
                    assert(";"@ =~= seq![';']);
                }
                r
            },
        }
    }
}

/// The document of a statement, as its kind lays it out. A block whose braces
/// hold no comment of their own and that has statements is its statements'
/// documents between braces, one per statement and in their order, each laid
/// out as its own kind lays it out.
pub open spec fn statement_doc<'a>(d: Doc<'a>, s: Statement, cm: &CommentMap, cfg: PrettyConfig) -> bool
    decreases s,
{
    match s {
        Statement::If(x) => exists|body: Seq<DocRef<'a>>| #[trigger] wraps(d, body) && if_layout(body, *x, cm, cfg),
        Statement::Local(x) => exists|body: Seq<DocRef<'a>>| #[trigger] wraps(d, body) && local_variable_layout(body, x, cfg),
        Statement::For(x) => exists|body: Seq<DocRef<'a>>| #[trigger] wraps(d, body) && for_layout(body, *x, cm, cfg),
        Statement::EnhancedFor(x) => exists|body: Seq<DocRef<'a>>|
            #[trigger] wraps(d, body) && enhanced_for_layout(body, *x, cm, cfg),
        Statement::Run(x) => exists|body: Seq<DocRef<'a>>| #[trigger] wraps(d, body) && run_as_layout(body, x, cm, cfg),
        Statement::Do(x) => exists|body: Seq<DocRef<'a>>| #[trigger] wraps(d, body) && do_layout(body, *x, cm, cfg),
        Statement::While(x) => exists|body: Seq<DocRef<'a>>| #[trigger] wraps(d, body) && while_layout(body, *x, cm, cfg),
        Statement::Return(x) => exists|body: Seq<DocRef<'a>>| #[trigger] wraps(d, body) && return_layout(body, x, cfg),
        Statement::Try(x) => exists|body: Seq<DocRef<'a>>| #[trigger] wraps(d, body) && try_layout(body, *x, cm, cfg),
        Statement::Throw(x) => exists|body: Seq<DocRef<'a>>| #[trigger] wraps(d, body) && throw_layout(body, x, cfg),
        Statement::Break(x) => exists|body: Seq<DocRef<'a>>| #[trigger] wraps(d, body) && break_layout(body, x),
        Statement::Continue(x) => exists|body: Seq<DocRef<'a>>| #[trigger] wraps(d, body) && continue_layout(body, x),
        Statement::Switch(x) => exists|body: Seq<DocRef<'a>>| #[trigger] wraps(d, body) && switch_layout(body, *x, cfg),
        Statement::SemiColumn => is_text(d, seq![';']),
        Statement::Exp(x) => exists|body: Seq<DocRef<'a>>| #[trigger] wraps(d, body) && body.len() == 1 && expression_doc(
            *body[0],
            x.exp,
            cfg,
        ),
        Statement::Block(x) => block_doc(d, *x, cm, cfg),
    }
}

/// The document of a block: when its braces hold no comment of their own and
/// it has statements, its statements' documents between braces, one per
/// statement and in their order, each laid out as its own kind lays it out.
pub open spec fn block_doc<'a>(d: Doc<'a>, x: Block, cm: &CommentMap, cfg: PrettyConfig) -> bool
    decreases x,
{
    (bucket_of(cm, x.node_context.id).dangling_comments@.len() == 0 && x.statements@.len() > 0) ==> exists|
        docs: Seq<DocRef<'a>>,
    |
        #[trigger] has_members_body(d, docs, trailing_flags(x.statements@), cfg.indent_size) && docs.len()
            == x.statements@.len() && forall|i: int|
            0 <= i < docs.len() ==> statement_doc(*docs[i], x.statements@[i].member, cm, cfg)
}

/// The document of a class member, as its kind lays it out.
pub open spec fn class_member_doc<'a>(d: Doc<'a>, m: ClassMember, cm: &CommentMap, cfg: PrettyConfig) -> bool
    decreases m,
{
    match m {
        ClassMember::Field(x) => exists|body: Seq<DocRef<'a>>|
            #[trigger] wraps(d, body) && field_declaration_layout(body, *x, cfg),
        ClassMember::NestedClass(x) => exists|body: Seq<DocRef<'a>>| #[trigger] wraps(d, body) && class_doc(body, *x, cm, cfg),
        ClassMember::Method(x) => exists|body: Seq<DocRef<'a>>| #[trigger] wraps(d, body) && method_layout(body, *x, cm, cfg),
        ClassMember::Interface(x) => exists|body: Seq<DocRef<'a>>|
            #[trigger] wraps(d, body) && interface_layout(body, *x, cfg),
        ClassMember::Enum(x) => exists|body: Seq<DocRef<'a>>| #[trigger] wraps(d, body) && enum_layout(body, x, cfg),
        ClassMember::Static(x) => exists|body: Seq<DocRef<'a>>|
            #[trigger] wraps(d, body) && static_initializer_layout(body, x, cm, cfg),
        ClassMember::Constructor(x) => exists|body: Seq<DocRef<'a>>|
            #[trigger] wraps(d, body) && constructor_layout(body, cfg) && crate::data_model::constructor_name_at(body, x),
        ClassMember::Block(x) => statement_doc(d, Statement::Block(x), cm, cfg),
    }
}

/// A member of a class body.
pub enum ClassMember {
    Field(Box<FieldDeclaration>),
    NestedClass(Box<ClassDeclaration>),
    Method(Box<MethodDeclaration>),
    Block(Box<Block>),
    Interface(Box<InterfaceDeclaration>),
    Enum(EnumDeclaration),
    Static(StaticInitializer),
    Constructor(ConstructorDeclaration),
}

impl ClassMember {
    pub fn new(t: &SyntaxTree, n: usize) -> (r: Result<Self, String>)
        requires
            t.wf(),
            t.valid(n as int),
        ensures
            r matches Ok(v) ==> member_tied(t, n as int, v),
            (t.nodes@[n as int].kind@ != "field_declaration"@ && t.nodes@[n as int].kind@ != "class_declaration"@ && t.nodes@[n as int].kind@ != "method_declaration"@ && t.nodes@[n as int].kind@ != "interface_declaration"@ && t.nodes@[n as int].kind@ != "block"@ && t.nodes@[n as int].kind@ != "constructor_declaration"@ && t.nodes@[n as int].kind@ != "enum_declaration"@ && t.nodes@[n as int].kind@ != "static_initializer"@) ==> r is Err,
            r matches Ok(v) ==> (v is Field ==> t.nodes@[n as int].kind@ == "field_declaration"@),
            r matches Ok(v) ==> (v is NestedClass ==> t.nodes@[n as int].kind@ == "class_declaration"@),
            r matches Ok(v) ==> (v is Method ==> t.nodes@[n as int].kind@ == "method_declaration"@),
            r matches Ok(v) ==> (v is Interface ==> t.nodes@[n as int].kind@ == "interface_declaration"@),
            r matches Ok(v) ==> (v is Block ==> t.nodes@[n as int].kind@ == "block"@),
            r matches Ok(v) ==> (v is Constructor ==> t.nodes@[n as int].kind@ == "constructor_declaration"@),
            r matches Ok(v) ==> (v is Enum ==> t.nodes@[n as int].kind@ == "enum_declaration"@),
            r matches Ok(v) ==> (v is Static ==> t.nodes@[n as int].kind@ == "static_initializer"@),
            crate::data_model::member_reads(t, n as int) ==> r is Ok,
        decreases t.nodes@.len() - n, 3int,
    {
        proof {
            crate::data_model::lemma_member_kinds(t.nodes@[n as int].kind@);
        }
        if kind_is(t, n, "field_declaration") {
            Ok(ClassMember::Field(Box::new(FieldDeclaration::new(t, n)?)))
        } else if kind_is(t, n, "class_declaration") {
            Ok(ClassMember::NestedClass(Box::new(ClassDeclaration::new(t, n)?)))
        } else if kind_is(t, n, "method_declaration") {
            Ok(ClassMember::Method(Box::new(MethodDeclaration::new(t, n)?)))
        } else if kind_is(t, n, "interface_declaration") {
            Ok(ClassMember::Interface(Box::new(InterfaceDeclaration::new(t, n)?)))
        } else if kind_is(t, n, "block") {
            Ok(ClassMember::Block(Box::new(Block::new(t, n)?)))
        } else if kind_is(t, n, "constructor_declaration") {
            Ok(ClassMember::Constructor(ConstructorDeclaration::new(t, n)?))
        } else if kind_is(t, n, "enum_declaration") {
            Ok(ClassMember::Enum(EnumDeclaration::new(t, n)?))
        } else if kind_is(t, n, "static_initializer") {
            Ok(ClassMember::Static(StaticInitializer::new(t, n)?))
        } else {
            Err(panic_unknown_node(t, n, "ClassMember"))
        }
    }

    pub fn build<'a>(&self, b: &'a DocBuilder<'a>, cm: &CommentMap, st: &mut BuildState) -> (r: DocRef<'a>)
        ensures
            final(st).printed@.len() == old(st).printed@.len(),
            class_member_doc(*r, *self, cm, b.config),
        decreases self,
    {
        match self {
            ClassMember::Field(x) => x.build(b, cm, st),
            ClassMember::NestedClass(x) => x.build(b, cm, st),
            ClassMember::Method(x) => x.build(b, cm, st),
            ClassMember::Block(x) => x.build(b, cm, st),
            ClassMember::Interface(x) => x.build(b, cm, st),
            ClassMember::Enum(x) => x.build(b, cm, st),
            ClassMember::Static(x) => x.build(b, cm, st),
            ClassMember::Constructor(x) => x.build(b, cm, st),
        }
    }
}

/// A top-level declaration, laid out as its kind says.
pub open spec fn root_member_doc<'a>(d: Doc<'a>, m: RootMember, cm: &CommentMap, cfg: PrettyConfig) -> bool {
    match m {
        RootMember::Class(x) => exists|body: Seq<DocRef<'a>>| #[trigger] wraps(d, body) && class_doc(body, *x, cm, cfg),
        RootMember::Enum(x) => exists|body: Seq<DocRef<'a>>| #[trigger] wraps(d, body) && enum_layout(body, *x, cfg),
        RootMember::Interface(x) => exists|body: Seq<DocRef<'a>>| #[trigger] wraps(d, body) && interface_layout(body, *x, cfg),
        RootMember::Trigger(x) => exists|body: Seq<DocRef<'a>>| #[trigger] wraps(d, body) && crate::data_model::trigger_layout(body, cfg)
            && crate::data_model::trigger_names(body, *x),
    }
}

/// A top-level declaration.
pub enum RootMember {
    Class(Box<ClassDeclaration>),
    Enum(Box<EnumDeclaration>),
    Interface(Box<InterfaceDeclaration>),
    Trigger(Box<TriggerDeclaration>),
}

impl RootMember {
    /// The node the declaration was read from.
    pub open spec fn node_id(self) -> usize {
        match self {
            RootMember::Class(c) => c.node_context.id,
            RootMember::Enum(e) => e.node_context.id,
            RootMember::Interface(i) => i.node_context.id,
            RootMember::Trigger(t) => t.node_context.id,
        }
    }

    pub fn new(t: &SyntaxTree, n: usize) -> (r: Result<Self, String>)
        requires
            t.wf(),
            t.valid(n as int),
        ensures
            r matches Ok(m) ==> (m is Class <==> t.nodes@[n as int].kind@ == "class_declaration"@),
            r matches Ok(m) ==> m.node_id() == n,
            r matches Ok(m) ==> root_member_tied(t, n as int, m),
            crate::data_model::is_flat_root_member(t, n as int) ==> (r is Ok <==> crate::data_model::flat_root_member_ok(t, n as int)),
            t.nodes@[n as int].kind@ == "class_declaration"@ && crate::data_model::class_reads(t, n as int) ==> r is Ok,
            !(t.nodes@[n as int].kind@ == "class_declaration"@ || t.nodes@[n as int].kind@ == "enum_declaration"@
                || t.nodes@[n as int].kind@ == "trigger_declaration"@ || t.nodes@[n as int].kind@ == "interface_declaration"@) ==> r is Err,
        decreases t.nodes@.len() - n, 3int,
    {
        proof {
            reveal_strlit("class_declaration");
            reveal_strlit("enum_declaration");
            assert("class_declaration"@.len() != "enum_declaration"@.len());
        }
        if kind_is(t, n, "class_declaration") {
            Ok(RootMember::Class(Box::new(ClassDeclaration::new(t, n)?)))
        } else if kind_is(t, n, "enum_declaration") {
            Ok(RootMember::Enum(Box::new(EnumDeclaration::new(t, n)?)))
        } else if kind_is(t, n, "trigger_declaration") {
            Ok(RootMember::Trigger(Box::new(TriggerDeclaration::new(t, n)?)))
        } else if kind_is(t, n, "interface_declaration") {
            Ok(RootMember::Interface(Box::new(InterfaceDeclaration::new(t, n)?)))
        } else {
            Err(panic_unknown_node(t, n, "Root"))
        }
    }

    pub fn build<'a>(&self, b: &'a DocBuilder<'a>, cm: &CommentMap, st: &mut BuildState) -> (r: DocRef<'a>)
        ensures
            final(st).printed@.len() == old(st).printed@.len(),
            root_member_doc(*r, *self, cm, b.config),
    {
        match self {
            RootMember::Class(x) => x.build(b, cm, st),
            RootMember::Enum(x) => x.build(b, cm, st),
            RootMember::Interface(x) => x.build(b, cm, st),
            RootMember::Trigger(x) => x.build(b, cm, st),
        }
    }
}

// ---------------------------------------------------------------------------
// How a model is tied to the nodes it was read from.
// ---------------------------------------------------------------------------
/// The first child of `n` with a field name.
pub open spec fn field_child(t: &SyntaxTree, n: int, name: Seq<char>) -> int {
    crate::accessor::field_children(t, n, name)[0] as int
}

/// The first code child of `n`.
pub open spec fn first_code_child(t: &SyntaxTree, n: int) -> int {
    crate::accessor::code_children(t, n)[0] as int
}

/// A modifier read from node `n`: its kind is that of the node's first code
/// child.
pub open spec fn modifier_tied(t: &SyntaxTree, n: int, m: crate::data_model::Modifier) -> bool {
    m.node_context.id == n && m.kind.source_kind() == t.nodes@[first_code_child(t, n)].kind@
}

/// Modifiers read from node `n`: modifier `k` from its `modifier` child
/// `k`, and one annotation for each `annotation` child.
pub open spec fn modifiers_tied(t: &SyntaxTree, n: int, ms: crate::data_model::Modifiers) -> bool {
    let cs = crate::accessor::kind_children(t, n, "modifier"@);
    &&& ms.node_context.id == n
    &&& ms.annotations@.len() == crate::accessor::kind_children(t, n, "annotation"@).len()
    &&& ms.modifiers@.len() == cs.len()
    &&& forall|k: int| 0 <= k < cs.len() ==> modifier_tied(t, cs[k] as int, #[trigger] ms.modifiers@[k])
}

/// The modifiers of a declaration read from node `n`: there exactly when it
/// has a `modifiers` child, and read from it.
pub open spec fn optional_modifiers_tied(t: &SyntaxTree, n: int, m: Option<crate::data_model::Modifiers>) -> bool {
    let ks = crate::accessor::kind_children(t, n, "modifiers"@);
    &&& (m is Some <==> ks.len() > 0)
    &&& (m matches Some(x) ==> modifiers_tied(t, ks[0] as int, x))
}

/// A type read from node `n`: a name holds the node's text; any other type
/// carries the node's id.
pub open spec fn type_tied(t: &SyntaxTree, n: int, u: UnannotatedType) -> bool {
    match u {
        UnannotatedType::Simple(x) => match x {
            SimpleType::Identifier(v) => crate::data_model::read_from(t, n, v.node_context.id, v.value),
            SimpleType::Void(v) => crate::data_model::read_from(t, n, v.node_context.id, v.value),
            SimpleType::Bool(v) => v.node_context.id == n,
            SimpleType::Generic(v) => v.node_context.id == n,
            SimpleType::Scoped(v) => v.node_context.id == n,
            SimpleType::Java(v) => v.node_context.id == n,
        },
        UnannotatedType::Array(x) => x.node_context.id == n,
    }
}

/// An expression read from node `n`: it carries the node's id, and each
/// expression it holds is read from the child that the grammar names for it
/// (`left` and `right`, `operand`, `target` and `merge_with`, and so on).
pub open spec fn expr_tied(t: &SyntaxTree, n: int, e: Expression) -> bool
    decreases e,
{
    match e {
        Expression::Assignment(x) => {
            &&& x.node_context.id == n
            &&& assignment_left_tied(t, field_child(t, n, "left"@), x.left)
            &&& crate::data_model::read_from(t, field_child(t, n, "operator"@), x.op.node_context.id, x.op.value)
            &&& expr_tied(t, field_child(t, n, "right"@), x.right)
        },
        Expression::Binary(x) => {
            &&& x.node_context.id == n
            &&& expr_tied(t, field_child(t, n, "left"@), x.left)
            &&& x.op@ == t.nodes@[field_child(t, n, "operator"@)].kind@
            &&& expr_tied(t, field_child(t, n, "right"@), x.right)
        },
        Expression::Primary(x) => primary_tied(t, n, *x),
        Expression::Update(x) => x.node_context.id == n,
        Expression::Unary(x) => {
            &&& x.node_context.id == n
            &&& x.operator@ == crate::accessor::node_text(t, field_child(t, n, "operator"@))
            &&& expr_tied(t, field_child(t, n, "operand"@), *x.operand)
        },
        Expression::Dml(x) => x.node_context.id == n && dml_tied(t, n, x.variant),
        Expression::Te(x) => {
            &&& x.node_context.id == n
            &&& expr_tied(t, field_child(t, n, "condition"@), x.condition)
            &&& expr_tied(t, field_child(t, n, "consequence"@), x.consequence)
            &&& expr_tied(t, field_child(t, n, "alternative"@), x.alternative)
        },
        Expression::Cast(x) => {
            &&& x.node_context.id == n
            &&& (x.type_ matches Type::Unannotated(u) && type_tied(t, field_child(t, n, "type"@), u))
            &&& expr_tied(t, field_child(t, n, "value"@), x.value)
        },
        Expression::Instance(x) => {
            &&& x.node_context.id == n
            &&& expr_tied(t, field_child(t, n, "left"@), x.left)
            &&& (x.right matches Type::Unannotated(u) && type_tied(t, field_child(t, n, "right"@), u))
        },
    }
}

/// The records of a DML expression read from node `n`: the target from its
/// `target` child, and a merge's second record from its `merge_with` child.
pub open spec fn dml_tied(t: &SyntaxTree, n: int, v: crate::data_model::DmlExpressionVariant) -> bool
    decreases v,
{
    match v {
        crate::data_model::DmlExpressionVariant::Basic { target, .. } => expr_tied(t, field_child(t, n, "target"@), target),
        crate::data_model::DmlExpressionVariant::Upsert { target, .. } => expr_tied(t, field_child(t, n, "target"@), target),
        crate::data_model::DmlExpressionVariant::Merge { target, merge_with, .. } => {
            &&& expr_tied(t, field_child(t, n, "target"@), target)
            &&& expr_tied(t, field_child(t, n, "merge_with"@), merge_with)
        },
    }
}

/// A parenthesized expression read from node `n`, its expression from the
/// first code child.
pub open spec fn paren_tied(t: &SyntaxTree, n: int, p: ParenthesizedExpression) -> bool
    decreases p,
{
    p.node_context.id == n && expr_tied(t, first_code_child(t, n), p.exp)
}

/// An argument list read from node `n`: argument `k` is read from code
/// child `k`.
pub open spec fn args_tied(t: &SyntaxTree, n: int, a: crate::data_model::ArgumentList) -> bool
    decreases a,
{
    let cs = crate::accessor::code_children(t, n);
    &&& a.node_context.id == n
    &&& a.expressions@.len() == cs.len()
    &&& forall|k: int| 0 <= k < cs.len() ==> expr_tied(t, cs[k] as int, #[trigger] a.expressions@[k])
}

/// A method call read from node `n`: its name is the text of its `name`
/// child, and its arguments are read from its `arguments` child.
pub open spec fn invocation_tied(t: &SyntaxTree, n: int, k: crate::data_model::MethodInvocationKind) -> bool
    decreases k,
{
    match k {
        crate::data_model::MethodInvocationKind::Simple { name, arguments } => {
            &&& crate::data_model::read_from(t, field_child(t, n, "name"@), name.node_context.id, name.value)
            &&& args_tied(t, field_child(t, n, "arguments"@), arguments)
        },
        crate::data_model::MethodInvocationKind::Complex { name, arguments, .. } => {
            &&& crate::data_model::read_from(t, field_child(t, n, "name"@), name.node_context.id, name.value)
            &&& args_tied(t, field_child(t, n, "arguments"@), arguments)
        },
    }
}

/// The target of an assignment read from node `n`: a name holds the node's
/// text; a field or array access carries the node's id.
pub open spec fn assignment_left_tied(t: &SyntaxTree, n: int, l: crate::data_model::AssignmentLeft) -> bool {
    match l {
        crate::data_model::AssignmentLeft::Identifier(x) => crate::data_model::read_from(t, n, x.node_context.id, x.value),
        crate::data_model::AssignmentLeft::Field(x) => x.node_context.id == n,
        crate::data_model::AssignmentLeft::Array(x) => x.node_context.id == n,
    }
}

/// A field access read from node `n`: its object is read from its `object`
/// child and its field from its `field` child.
pub open spec fn field_access_tied(t: &SyntaxTree, n: int, f: crate::data_model::FieldAccess) -> bool
    decreases f,
{
    let o = field_child(t, n, "object"@);
    let fl = field_child(t, n, "field"@);
    &&& match f.object {
        crate::data_model::MethodObject::Super(x) => x.node_context.id == o,
        crate::data_model::MethodObject::Primary(x) => primary_tied(t, o, *x),
    }
    &&& match f.field {
        crate::data_model::FieldOption::This(x) => x.node_context.id == fl,
        crate::data_model::FieldOption::Identifier(x) => crate::data_model::read_from(t, fl, x.node_context.id, x.value),
    }
}

/// A literal holds the text of the node it was read from.
pub open spec fn literal_read(t: &SyntaxTree, n: int, l: Literal_) -> bool {
    match l {
        Literal_::Bool(x) => crate::data_model::read_from(t, n, x.node_context.id, x.value),
        Literal_::Null(x) => crate::data_model::read_from(t, n, x.node_context.id, x.value),
        Literal_::Int(x) => crate::data_model::read_from(t, n, x.node_context.id, x.value),
        Literal_::Decimal(x) => crate::data_model::read_from(t, n, x.node_context.id, x.value),
        Literal_::Str(x) => crate::data_model::read_from(t, n, x.node_context.id, x.value),
    }
}

/// A primary expression read from node `n`: it carries the node's id; a
/// literal or an identifier holds the node's text, and a parenthesized
/// expression its inner expression read from its first code child.
pub open spec fn primary_tied(t: &SyntaxTree, n: int, p: PrimaryExpression) -> bool
    decreases p,
{
    match p {
        PrimaryExpression::Literal(x) => literal_read(t, n, x),
        PrimaryExpression::Identifier(x) => crate::data_model::read_from(t, n, x.node_context.id, x.value),
        PrimaryExpression::Class(x) => x.node_context.id == n,
        PrimaryExpression::Method(x) => x.node_context.id == n && invocation_tied(t, n, x.kind),
        PrimaryExpression::Parenth(x) => paren_tied(t, n, x),
        PrimaryExpression::Obj(x) => x.node_context.id == n && args_tied(t, field_child(t, n, "arguments"@), x.arguments),
        PrimaryExpression::MapCreation(x) => x.node_context.id == n,
        PrimaryExpression::Field(x) => x.node_context.id == n && field_access_tied(t, n, x),
        PrimaryExpression::Array(x) => {
            &&& x.node_context.id == n
            &&& primary_tied(t, field_child(t, n, "array"@), x.array)
            &&& expr_tied(t, field_child(t, n, "index"@), x.index)
        },
        PrimaryExpression::ArrayCreation(x) => x.node_context.id == n,
        PrimaryExpression::Query(x) => x.node_context.id == n,
        PrimaryExpression::Version(x) => {
            &&& x.node_context.id == n
            &&& (x.version_number is Some <==> crate::accessor::field_children(t, n, "version_num"@).len() > 0)
            &&& (x.version_number matches Some(v) ==> crate::data_model::read_from(
                t,
                field_child(t, n, "version_num"@),
                v.node_context.id,
                v.value,
            ))
        },
        PrimaryExpression::This(x) => x.node_context.id == n,
        PrimaryExpression::Java(x) => x.node_context.id == n,
    }
}

/// A statement read from node `n`: it carries the node's id, and each
/// statement, block and expression it holds is read from the child that the
/// grammar names for it.
pub open spec fn stmt_tied(t: &SyntaxTree, n: int, s: Statement) -> bool
    decreases s,
{
    match s {
        Statement::If(x) => {
            &&& x.node_context.id == n
            &&& paren_tied(t, field_child(t, n, "condition"@), x.condition)
            &&& stmt_tied(t, field_child(t, n, "consequence"@), x.consequence)
            &&& (x.alternative is Some <==> crate::accessor::field_children(t, n, "alternative"@).len() > 0)
            &&& (x.alternative matches Some(a) ==> stmt_tied(t, field_child(t, n, "alternative"@), a.statement))
        },
        Statement::Exp(x) => x.node_context.id == n && expr_tied(t, first_code_child(t, n), x.exp),
        Statement::Local(x) => {
            &&& x.node_context.id == n
            &&& optional_modifiers_tied(t, n, x.modifiers)
            &&& type_tied(t, field_child(t, n, "type"@), x.type_)
            &&& declarators_tied(t, n, x.declarators@)
        },
        Statement::Block(x) => block_tied(t, n, *x),
        Statement::For(x) => {
            &&& x.node_context.id == n
            &&& (x.condition is Some <==> crate::accessor::field_children(t, n, "condition"@).len() > 0)
            &&& (x.condition matches Some(c) ==> expr_tied(t, field_child(t, n, "condition"@), c))
            &&& (x.update is Some <==> crate::accessor::field_children(t, n, "update"@).len() > 0)
            &&& (x.update matches Some(u) ==> expr_tied(t, field_child(t, n, "update"@), u))
            &&& stmt_tied(t, field_child(t, n, "body"@), x.body)
        },
        Statement::EnhancedFor(x) => {
            &&& x.node_context.id == n
            &&& type_tied(t, field_child(t, n, "type"@), x.type_)
            &&& crate::data_model::read_from(t, field_child(t, n, "name"@), x.name.node_context.id, x.name.value)
            &&& expr_tied(t, field_child(t, n, "value"@), x.value)
            &&& stmt_tied(t, field_child(t, n, "body"@), x.body)
        },
        Statement::Run(x) => {
            &&& x.node_context.id == n
            &&& paren_tied(t, field_child(t, n, "user"@), x.user)
            &&& block_tied(t, crate::accessor::kind_children(t, n, "block"@)[0] as int, x.block)
        },
        Statement::Do(x) => {
            &&& x.node_context.id == n
            &&& block_tied(t, field_child(t, n, "body"@), x.body)
            &&& paren_tied(t, field_child(t, n, "condition"@), x.condition)
        },
        Statement::While(x) => {
            &&& x.node_context.id == n
            &&& paren_tied(t, field_child(t, n, "condition"@), x.condition)
            &&& stmt_tied(t, field_child(t, n, "body"@), x.body)
        },
        Statement::Return(x) => {
            &&& x.node_context.id == n
            &&& (x.exp is Some <==> crate::accessor::code_children(t, n).len() > 0)
            &&& (x.exp matches Some(e) ==> expr_tied(t, first_code_child(t, n), e))
        },
        Statement::Try(x) => {
            &&& x.node_context.id == n
            &&& block_tied(t, field_child(t, n, "body"@), x.body)
            &&& try_tail_tied(t, n, x.tail)
        },
        Statement::Throw(x) => x.node_context.id == n && expr_tied(t, first_code_child(t, n), x.exp),
        Statement::Break(x) => x.node_context.id == n,
        Statement::Continue(x) => x.node_context.id == n,
        Statement::Switch(x) => x.node_context.id == n && expr_tied(t, field_child(t, n, "condition"@), x.condition),
        Statement::SemiColumn => true,
    }
}

/// A variable declarator read from node `n`: its name is the text of its
/// `name` child, and its value, where it has one, is the expression read
/// from its `value` child.
pub open spec fn declarator_tied(t: &SyntaxTree, n: int, d: crate::data_model::VariableDeclarator) -> bool {
    &&& d.node_context.id == n
    &&& crate::data_model::read_from(t, field_child(t, n, "name"@), d.name.node_context.id, d.name.value)
    &&& (d.value is Some <==> crate::accessor::field_children(t, n, "value"@).len() > 0)
    &&& (d.value matches Some(vi) ==> vi matches VariableInitializer::Exp(e) && expr_tied(t, field_child(t, n, "value"@), e))
}

/// Declarator `k` is read from the `declarator` child `k` of node `n`.
pub open spec fn declarators_tied(t: &SyntaxTree, n: int, ds: Seq<crate::data_model::VariableDeclarator>) -> bool {
    let cs = crate::accessor::field_children(t, n, "declarator"@);
    ds.len() == cs.len() && forall|k: int| 0 <= k < cs.len() ==> declarator_tied(t, cs[k] as int, #[trigger] ds[k])
}

/// A catch clause read from node `n`: its parameter from its
/// `formal_parameter` child and its body from its `body` child.
pub open spec fn catch_tied(t: &SyntaxTree, n: int, c: crate::data_model::CatchClause) -> bool
    decreases c,
{
    &&& c.node_context.id == n
    &&& param_tied(t, crate::accessor::kind_children(t, n, "formal_parameter"@)[0] as int, c.formal_parameter)
    &&& block_tied(t, field_child(t, n, "body"@), c.body)
}

/// Catch clause `k` is read from the `catch_clause` child `k` of node `n`.
pub open spec fn catches_tied(t: &SyntaxTree, n: int, cs: Seq<crate::data_model::CatchClause>) -> bool
    decreases cs,
{
    let k = crate::accessor::kind_children(t, n, "catch_clause"@);
    cs.len() == k.len() && forall|j: int| 0 <= j < k.len() ==> catch_tied(t, k[j] as int, #[trigger] cs[j])
}

/// The clauses after a `try` block read from node `n`: its catch clauses, and
/// a finally clause exactly when it has one, whose block is read from it.
pub open spec fn try_tail_tied(t: &SyntaxTree, n: int, tail: crate::data_model::TryStatementTail) -> bool
    decreases tail,
{
    let fs = crate::accessor::kind_children(t, n, "finally_clause"@);
    match tail {
        crate::data_model::TryStatementTail::Catches(cs) => catches_tied(t, n, cs@) && fs.len() == 0,
        crate::data_model::TryStatementTail::CatchesFinally(cs, f) => {
            &&& catches_tied(t, n, cs@)
            &&& fs.len() > 0
            &&& f.node_context.id == fs[0]
            &&& block_tied(t, crate::accessor::kind_children(t, fs[0] as int, "block"@)[0] as int, f.body)
        },
    }
}

/// A block read from node `n`: statement `k` is read from code child `k`.
pub open spec fn block_tied(t: &SyntaxTree, n: int, b: Block) -> bool
    decreases b,
{
    let cs = crate::accessor::code_children(t, n);
    &&& b.node_context.id == n
    &&& b.statements@.len() == cs.len()
    &&& forall|k: int| 0 <= k < cs.len() ==> stmt_tied(t, cs[k] as int, #[trigger] b.statements@[k].member)
}

/// A constructor body read from node `n`: its leading constructor call is
/// there exactly when its first code child is one, and its statements are
/// read from the code children that follow, in order.
pub open spec fn ctor_body_tied(t: &SyntaxTree, n: int, b: crate::data_model::ConstructorBody) -> bool {
    let cs = crate::accessor::code_children(t, n);
    let k0: int = if b.constructor_invocation is Some { 1 } else { 0 };
    &&& b.node_context.id == n
    &&& (b.constructor_invocation is Some <==> cs.len() > 0 && t.nodes@[cs[0] as int].kind@ == "explicit_constructor_invocation"@)
    &&& b.statements@.len() + k0 == cs.len()
    &&& forall|k: int| 0 <= k < b.statements@.len() ==> stmt_tied(t, cs[k + k0] as int, #[trigger] b.statements@[k].member)
}

/// A class read from node `n` in full: its heading as `class_fields_tied`
/// says, and its body read from its `body` child.
pub open spec fn class_tied(t: &SyntaxTree, n: int, c: ClassDeclaration) -> bool
    decreases c,
{
    &&& crate::data_model::class_fields_tied(t, n, c)
    &&& optional_modifiers_tied(t, n, c.modifiers)
    &&& class_body_tied(t, field_child(t, n, "body"@), c.body)
}

/// A class body read from node `n`: member `k` is read from code child `k`.
pub open spec fn class_body_tied(t: &SyntaxTree, n: int, b: crate::data_model::ClassBody) -> bool
    decreases b,
{
    let cs = crate::accessor::code_children(t, n);
    &&& b.node_context.id == n
    &&& b.class_members@.len() == cs.len()
    &&& forall|k: int| 0 <= k < cs.len() ==> member_tied(t, cs[k] as int, #[trigger] b.class_members@[k].member)
}

/// A formal parameter read from node `n`: its type from its `type` child and
/// its name the text of its `name` child.
pub open spec fn param_tied(t: &SyntaxTree, n: int, p: crate::data_model::FormalParameter) -> bool {
    &&& p.node_context.id == n
    &&& type_tied(t, field_child(t, n, "type"@), p.type_)
    &&& crate::data_model::read_from(t, field_child(t, n, "name"@), p.name.node_context.id, p.name.value)
}

/// Formal parameters read from node `n`: parameter `k` from its
/// `formal_parameter` child `k`.
pub open spec fn params_tied(t: &SyntaxTree, n: int, ps: crate::data_model::FormalParameters) -> bool {
    let cs = crate::accessor::kind_children(t, n, "formal_parameter"@);
    &&& ps.node_context.id == n
    &&& ps.formal_parameters@.len() == cs.len()
    &&& forall|k: int| 0 <= k < cs.len() ==> param_tied(t, cs[k] as int, #[trigger] ps.formal_parameters@[k])
}

/// A method read from node `n`: its name is the text of its `name` child, and
/// its body, where it has one, is read from its `body` child.
pub open spec fn method_tied(t: &SyntaxTree, n: int, x: MethodDeclaration) -> bool
    decreases x,
{
    &&& x.node_context.id == n
    &&& optional_modifiers_tied(t, n, x.modifiers)
    &&& type_tied(t, field_child(t, n, "type"@), x.type_)
    &&& crate::data_model::read_from(t, field_child(t, n, "name"@), x.name.node_context.id, x.name.value)
    &&& params_tied(t, field_child(t, n, "parameters"@), x.formal_parameters)
    &&& (x.body is Some <==> crate::accessor::field_children(t, n, "body"@).len() > 0)
    &&& (x.body matches Some(bl) ==> block_tied(t, field_child(t, n, "body"@), bl))
}

/// An enum read from node `n`: its name is the text of its `name` child, and
/// its body, read from its `body` child, has one value for each
/// `enum_constant` child of that node.
pub open spec fn enum_tied(t: &SyntaxTree, n: int, e: crate::data_model::EnumDeclaration) -> bool {
    let bd = field_child(t, n, "body"@);
    &&& e.node_context.id == n
    &&& crate::data_model::read_from(t, field_child(t, n, "name"@), e.name.node_context.id, e.name.value)
    &&& e.body.node_context.id == bd
    &&& e.body.enum_constants@.len() == crate::accessor::kind_children(t, bd, "enum_constant"@).len()
}

/// An interface read from node `n`: its name is the text of its `name`
/// child, and its body, read from its `body` child, has one member for each
/// code child of that node.
pub open spec fn interface_tied(t: &SyntaxTree, n: int, i: crate::data_model::InterfaceDeclaration) -> bool {
    let bd = field_child(t, n, "body"@);
    &&& i.node_context.id == n
    &&& crate::data_model::read_from(t, field_child(t, n, "name"@), i.name.node_context.id, i.name.value)
    &&& i.body.node_context.id == bd
    &&& i.body.members@.len() == crate::accessor::code_children(t, bd).len()
}

/// A trigger read from node `n`: its name and object are the texts of its
/// `name` and `object` children.
pub open spec fn trigger_tied(t: &SyntaxTree, n: int, x: crate::data_model::TriggerDeclaration) -> bool {
    &&& x.node_context.id == n
    &&& crate::data_model::read_from(t, field_child(t, n, "name"@), x.name.node_context.id, x.name.value)
    &&& crate::data_model::read_from(t, field_child(t, n, "object"@), x.object.node_context.id, x.object.value)
}

/// A trigger read from node `n` is written with the source text of its
/// `name` child after `trigger ` and that of its `object` child after ` on `.
pub proof fn law_trigger_written_as_named<'a>(
    t: &SyntaxTree,
    n: int,
    x: crate::data_model::TriggerDeclaration,
    d: Doc<'a>,
    cm: &CommentMap,
    cfg: PrettyConfig,
)
    requires
        trigger_tied(t, n, x),
        root_member_doc(d, RootMember::Trigger(Box::new(x)), cm, cfg),
    ensures
        exists|body: Seq<DocRef<'a>>|
            #[trigger] wraps(d, body) && is_text(*body[0], "trigger"@ + seq![' ']) && crate::data_model::wraps_text(
                *body[1],
                x.name.value@,
            ) && is_text(*body[2], seq![' '] + "on"@ + seq![' ']) && crate::data_model::wraps_text(*body[3], x.object.value@),
        crate::strs::bytes_of(x.name.value@) == crate::accessor::node_bytes(t, field_child(t, n, "name"@)),
        crate::strs::bytes_of(x.object.value@) == crate::accessor::node_bytes(t, field_child(t, n, "object"@)),
{
}

/// A top-level declaration read from node `n`, as its kind is tied.
pub open spec fn root_member_tied(t: &SyntaxTree, n: int, m: RootMember) -> bool {
    match m {
        RootMember::Class(c) => class_tied(t, n, *c),
        RootMember::Enum(e) => enum_tied(t, n, *e),
        RootMember::Interface(i) => interface_tied(t, n, *i),
        RootMember::Trigger(x) => trigger_tied(t, n, *x),
    }
}

/// A class member read from node `n`: it carries the node's id; a nested
/// class, a method or a block is read from it in full.
pub open spec fn member_tied(t: &SyntaxTree, n: int, m: ClassMember) -> bool
    decreases m,
{
    match m {
        ClassMember::Field(x) => {
            &&& x.node_context.id == n
            &&& optional_modifiers_tied(t, n, x.modifiers)
            &&& type_tied(t, field_child(t, n, "type"@), x.type_)
            &&& declarators_tied(t, n, x.declarators@)
        },
        ClassMember::NestedClass(x) => class_tied(t, n, *x),
        ClassMember::Method(x) => method_tied(t, n, *x),
        ClassMember::Block(x) => block_tied(t, n, *x),
        ClassMember::Interface(x) => interface_tied(t, n, *x),
        ClassMember::Enum(x) => enum_tied(t, n, x),
        ClassMember::Static(x) => x.node_context.id == n && block_tied(
            t,
            crate::accessor::kind_children(t, n, "block"@)[0] as int,
            x.block,
        ),
        ClassMember::Constructor(x) => {
            &&& x.node_context.id == n
            &&& optional_modifiers_tied(t, n, x.modifiers)
            &&& crate::data_model::read_from(t, field_child(t, n, "name"@), x.name.node_context.id, x.name.value)
            &&& params_tied(t, field_child(t, n, "parameters"@), x.parameters)
            &&& ctor_body_tied(t, field_child(t, n, "body"@), x.body)
        },
    }
}

} // verus!
