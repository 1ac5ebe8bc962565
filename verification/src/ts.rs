//! The calls into the tree-sitter parser and its Apex grammar.
//!
//! Parsing depends on the source text alone: the grammar is fixed and no
//! timeout or cancellation is set. Its result is named `apex_parse`. A parse
//! tree is read as the list of its nodes in the order of the tree's cursor,
//! each copied into a `PlainNode`; `tree_nodes` names that list.
use crate::syntax::PlainNode;
use vstd::prelude::*;

verus! {

#[verifier::external_type_specification]
#[verifier::external_body]
pub struct ExTree(tree_sitter::Tree);

/// What parsing `source` with the Apex grammar gives: `None` where the
/// parser gives no tree, else the nodes of the tree, as `tree_nodes` lists
/// them.
pub uninterp spec fn apex_parse(source: Seq<char>) -> Option<Seq<PlainNode>>;

/// The nodes a tree holds, numbered as `TreeCursor::goto_descendant` numbers
/// them from the root (the root is 0), each copied as a `PlainNode`.
pub uninterp spec fn tree_nodes(tree: tree_sitter::Tree) -> Seq<PlainNode>;

/// `tree_sitter::Parser::new`, then `Parser::set_language` with
/// `tree_sitter_sfapex::apex::LANGUAGE`, then `Parser::parse` of the whole
/// source with no earlier tree. Claimed: the outcome is `apex_parse` of the
/// source, which the source alone decides; a refused grammar gives `None`.
#[verifier::external_body]
pub(crate) fn parse_apex(source: &str) -> (r: Option<tree_sitter::Tree>)
    ensures
        r matches Some(tree) ==> apex_parse(source@) == Some(tree_nodes(tree)),
        r is None ==> apex_parse(source@) is None,
{
    let mut parser = tree_sitter::Parser::new();
    let language: tree_sitter::Language = tree_sitter_sfapex::apex::LANGUAGE.into();
    parser.set_language(&language).ok()?;
    parser.parse(source, None)
}

/// `tree_sitter::Node::descendant_count` of the root: the number of nodes
/// of the tree. Claimed: that is the length of `tree_nodes`.
#[verifier::external_body]
pub(crate) fn tree_node_count(tree: &tree_sitter::Tree) -> (r: usize)
    ensures
        r == tree_nodes(*tree).len(),
{
    tree.root_node().descendant_count()
}

/// Node `i` of the tree: `TreeCursor::goto_descendant(i)` on a cursor of the
/// tree, then the node's kind, flags, byte range, positions and
/// `descendant_count`, and the cursor's `field_name`. Claimed: that is entry
/// `i` of `tree_nodes`.
#[verifier::external_body]
pub(crate) fn tree_node(tree: &tree_sitter::Tree, i: usize) -> (r: PlainNode)
    requires
        i < tree_nodes(*tree).len(),
    ensures
        r == tree_nodes(*tree)[i as int],
{
    let mut c = tree.walk();
    c.goto_descendant(i);
    let n = c.node();
    let (s, e) = (n.start_position(), n.end_position());
    PlainNode {
        kind: n.kind().to_string(), is_named: n.is_named(), is_extra: n.is_extra(), is_error: n.is_error(),
        is_missing: n.is_missing(), has_error: n.has_error(), start_byte: n.start_byte(), end_byte: n.end_byte(),
        start_row: s.row, start_column: s.column, end_row: e.row, end_column: e.column,
        descendant_count: n.descendant_count(), field_name: c.field_name().map(String::from),
    }
}

} // verus!
