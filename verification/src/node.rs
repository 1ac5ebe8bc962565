//! The kinds of node that get a rule of their own.
use crate::strs::str_eq;
use vstd::prelude::*;

verus! {

#[derive(Clone, Copy, PartialEq, Eq, Structural, Debug)]
pub enum NodeKind {
    ClassDeclaration,
    MethodDeclaration,
    IfStatement,
    ForLoop,
    Unknown,
}

impl NodeKind {
    /// The node kind of a tree-sitter kind name.
    pub open spec fn spec_from_kind(kind: Seq<char>) -> NodeKind {
        if kind == "class_declaration"@ {
            NodeKind::ClassDeclaration
        } else if kind == "method_declaration"@ {
            NodeKind::MethodDeclaration
        } else if kind == "if_statement"@ {
            NodeKind::IfStatement
        } else if kind == "for_statement"@ {
            NodeKind::ForLoop
        } else {
            NodeKind::Unknown
        }
    }

    pub fn from_kind(kind: &str) -> (r: NodeKind)
        ensures
            r == NodeKind::spec_from_kind(kind@),
    {
        if str_eq(kind, "class_declaration") {
            NodeKind::ClassDeclaration
        } else if str_eq(kind, "method_declaration") {
            NodeKind::MethodDeclaration
        } else if str_eq(kind, "if_statement") {
            NodeKind::IfStatement
        } else if str_eq(kind, "for_statement") {
            NodeKind::ForLoop
        } else {
            NodeKind::Unknown
        }
    }
}

} // verus!
