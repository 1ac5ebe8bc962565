//! The library's own syntax tree: a copy of the parse tree that tree-sitter
//! produces, held as plain values in an arena of nodes. The parser reports a
//! tree as a list of nodes in pre-order, each with the size of its subtree;
//! the tree's child lists follow from those sizes.
use crate::ts;
use vstd::prelude::*;

verus! {

/// One node of a syntax tree, with the properties the formatter reads.
pub struct SyntaxNode {
    pub kind: String,
    pub is_named: bool,
    pub is_extra: bool,
    pub is_error: bool,
    pub is_missing: bool,
    pub has_error: bool,
    pub start_byte: usize,
    pub end_byte: usize,
    pub start_row: usize,
    pub start_column: usize,
    pub end_row: usize,
    pub end_column: usize,
    pub parent: Option<usize>,
    /// The position of this node among its parent's children.
    pub index_in_parent: usize,
    /// All children, named or not, in source order.
    pub children: Vec<usize>,
    /// The field name of each child, where it has one.
    pub field_names: Vec<Option<String>>,
}

/// A syntax tree of a source text: node 0 is the root.
pub struct SyntaxTree {
    pub source: String,
    pub nodes: Vec<SyntaxNode>,
}

impl SyntaxTree {
    /// Whether `i` names a node.
    pub open spec fn valid(&self, i: int) -> bool {
        0 <= i < self.nodes@.len()
    }

    /// The children of node `i`, as indices.
    pub open spec fn kids(&self, i: int) -> Seq<usize> {
        self.nodes@[i].children@
    }

    /// The tree is well formed: node 0 is the root, every child lies after its
    /// parent, and parent links, child lists and positions agree.
    pub open spec fn wf(&self) -> bool {
        &&& self.nodes@.len() > 0
        &&& self.nodes@[0].parent is None
        &&& forall|i: int|
            #![trigger self.nodes@[i]]
            0 <= i < self.nodes@.len() ==> {
                &&& self.nodes@[i].field_names@.len() == self.nodes@[i].children@.len()
                &&& forall|k: int|
                    #![trigger self.nodes@[i].children@[k]]
                    0 <= k < self.nodes@[i].children@.len() ==> {
                        let c = self.nodes@[i].children@[k] as int;
                        &&& i < c < self.nodes@.len()
                        &&& self.nodes@[c].parent == Some(i as usize)
                        &&& self.nodes@[c].index_in_parent == k
                    }
                &&& (i > 0 ==> self.nodes@[i].parent is Some)
                &&& (self.nodes@[i].parent matches Some(p) ==> {
                    &&& p < i
                    &&& self.nodes@[i].index_in_parent < self.nodes@[p as int].children@.len()
                    &&& self.nodes@[p as int].children@[self.nodes@[i].index_in_parent as int]
                        == i
                })
            }
    }
}

/// One node as the parser reports it, at its place in the pre-order of the
/// tree.
pub struct PlainNode {
    pub kind: String,
    pub is_named: bool,
    pub is_extra: bool,
    pub is_error: bool,
    pub is_missing: bool,
    pub has_error: bool,
    pub start_byte: usize,
    pub end_byte: usize,
    pub start_row: usize,
    pub start_column: usize,
    pub end_row: usize,
    pub end_column: usize,
    /// The number of nodes of its subtree, itself included.
    pub descendant_count: usize,
    /// Its field name in its parent, where it has one.
    pub field_name: Option<String>,
}

/// The nodes from position `c` on, before `end`, each after the subtree of
/// the one before: the children of a node whose subtree ends at `end`, when
/// its first child is at `c`.
pub open spec fn chain(p: Seq<PlainNode>, c: int, end: int) -> Seq<usize>
    decreases end - c,
{
    if 0 <= c < end && c < p.len() && p[c].descendant_count >= 1 && c + p[c].descendant_count <= end {
        seq![c as usize] + chain(p, c + p[c].descendant_count, end)
    } else {
        Seq::empty()
    }
}

/// The subtrees from position `c` on end exactly at `end`.
pub open spec fn chain_ok(p: Seq<PlainNode>, c: int, end: int) -> bool
    decreases end - c,
{
    c == end || (0 <= c < end && c < p.len() && p[c].descendant_count >= 1 && c + p[c].descendant_count <= end
        && chain_ok(p, c + p[c].descendant_count, end))
}

/// The children of node `i`: the roots of the subtrees that fill its own
/// subtree after it.
pub open spec fn spec_children(p: Seq<PlainNode>, i: int) -> Seq<usize> {
    chain(p, i + 1, i + p[i].descendant_count)
}

/// The list is a tree in pre-order: every subtree lies inside the list and
/// is filled by the subtrees of its children, and every node but the first
/// is the child of exactly one node.
pub open spec fn plain_ok(p: Seq<PlainNode>) -> bool {
    &&& p.len() > 0
    &&& forall|i: int|
        #![trigger p[i]]
        0 <= i < p.len() ==> p[i].descendant_count >= 1 && i + p[i].descendant_count <= p.len() && chain_ok(
            p,
            i + 1,
            i + p[i].descendant_count,
        )
    &&& forall|j: int| 0 < j < p.len() ==> #[trigger] has_parent(p, j)
    &&& forall|i1: int, i2: int, j: usize|
        0 <= i1 < p.len() && 0 <= i2 < p.len() && #[trigger] spec_children(p, i1).contains(j) && #[trigger] spec_children(p, i2).contains(j)
            ==> i1 == i2
}

/// Some node of the list lists node `j` among its children.
pub open spec fn has_parent(p: Seq<PlainNode>, j: int) -> bool {
    exists|i: int| 0 <= i < p.len() && #[trigger] spec_children(p, i).contains(j as usize)
}

/// Node `n` of a tree is the copy of node `i` of the list: the same
/// properties, and the children of `i` with their field names.
pub open spec fn copies_node(n: SyntaxNode, p: Seq<PlainNode>, i: int) -> bool {
    let q = p[i];
    &&& n.kind == q.kind
    &&& n.is_named == q.is_named
    &&& n.is_extra == q.is_extra
    &&& n.is_error == q.is_error
    &&& n.is_missing == q.is_missing
    &&& n.has_error == q.has_error
    &&& n.start_byte == q.start_byte
    &&& n.end_byte == q.end_byte
    &&& n.start_row == q.start_row
    &&& n.start_column == q.start_column
    &&& n.end_row == q.end_row
    &&& n.end_column == q.end_column
    &&& n.children@ == spec_children(p, i)
    &&& n.field_names@.len() == n.children@.len()
    &&& forall|k: int| 0 <= k < n.children@.len() ==> #[trigger] n.field_names@[k] == p[n.children@[k] as int].field_name
}

/// The tree is the copy of the list, node for node.
pub open spec fn copies_plain(t: &SyntaxTree, p: Seq<PlainNode>) -> bool {
    t.nodes@.len() == p.len() && forall|i: int| 0 <= i < p.len() ==> copies_node(#[trigger] t.nodes@[i], p, i)
}

/// The nodes of a chain lie at or after its start and before its end, in
/// increasing order.
proof fn lemma_chain_bounds(p: Seq<PlainNode>, c: int, end: int)
    requires
        p.len() <= usize::MAX,
    ensures
        forall|k: int| 0 <= k < chain(p, c, end).len() ==> c <= #[trigger] chain(p, c, end)[k] < end,
        forall|k1: int, k2: int|
            0 <= k1 < k2 < chain(p, c, end).len() ==> #[trigger] chain(p, c, end)[k1] < #[trigger] chain(p, c, end)[k2],
    decreases end - c,
{
    if 0 <= c < end && c < p.len() && p[c].descendant_count >= 1 && c + p[c].descendant_count <= end {
        lemma_chain_bounds(p, c + p[c].descendant_count, end);
        let rest = chain(p, c + p[c].descendant_count, end);
        assert(chain(p, c, end) == seq![c as usize] + rest);
        assert forall|k: int| 0 <= k < chain(p, c, end).len() implies c <= #[trigger] chain(p, c, end)[k] < end by {
            if k > 0 {
                assert(chain(p, c, end)[k] == rest[k - 1]);
            }
        }
        assert forall|k1: int, k2: int| 0 <= k1 < k2 < chain(p, c, end).len() implies #[trigger] chain(p, c, end)[k1]
            < #[trigger] chain(p, c, end)[k2] by {
            assert(chain(p, c, end)[k2] == rest[k2 - 1]);
            if k1 > 0 {
                assert(chain(p, c, end)[k1] == rest[k1 - 1]);
            }
        }
    }
}

/// Node `q`'s subtree lies inside the list and is filled by its children's.
pub open spec fn node_sound(p: Seq<PlainNode>, q: int) -> bool {
    p[q].descendant_count >= 1 && q + p[q].descendant_count <= p.len() && chain_ok(p, q + 1, q + p[q].descendant_count)
}

/// Where node `c` has a recorded parent, the parent comes before `bound` and
/// before `c`, and lists `c` at its recorded position.
pub open spec fn recorded(p: Seq<PlainNode>, parents: Seq<Option<usize>>, indices: Seq<usize>, c: int, bound: int) -> bool {
    parents[c] matches Some(q) ==> (q < bound && q < c && indices[c] < spec_children(p, q as int).len() && spec_children(
        p,
        q as int,
    )[indices[c] as int] == c)
}

/// What the building loop of `build_tree` leaves makes the list a tree in
/// pre-order.
proof fn lemma_built_list(p: Seq<PlainNode>, parents: Seq<Option<usize>>, indices: Seq<usize>)
    requires
        p.len() <= usize::MAX,
        p.len() > 0,
        parents.len() == p.len(),
        indices.len() == p.len(),
        parents[0] is None,
        forall|q: int| #![trigger p[q]] 0 <= q < p.len() ==> node_sound(p, q),
        forall|q: int| 0 < q < p.len() ==> (#[trigger] parents[q]) is Some,
        forall|c: int| 0 <= c < p.len() ==> recorded(p, parents, indices, c, p.len() as int),
        forall|q: int, c: usize| 0 <= q < p.len() && #[trigger] spec_children(p, q).contains(c) ==> parents[c as int] == Some(q as usize),
    ensures
        plain_ok(p),
{
    let len = p.len();
    assert forall|j: int| 0 < j < p.len() implies #[trigger] has_parent(p, j) by {
        assert(parents[j] is Some);
        assert(recorded(p, parents, indices, j, len as int));
        let q = parents[j]->0;
        assert(spec_children(p, q as int)[indices[j] as int] == j);
        assert(spec_children(p, q as int).contains(j as usize));
    }
    assert forall|i1: int, i2: int, j: usize|
        0 <= i1 < p.len() && 0 <= i2 < p.len() && #[trigger] spec_children(p, i1).contains(j) && #[trigger] spec_children(p, i2).contains(j)
        implies i1 == i2 by {
        assert(parents[j as int] == Some(i1 as usize));
        assert(parents[j as int] == Some(i2 as usize));
    }
    assert forall|i: int| #![trigger p[i]] 0 <= i < p.len() implies p[i].descendant_count >= 1 && i + p[i].descendant_count <= p.len()
        && chain_ok(p, i + 1, i + p[i].descendant_count) by {
        assert(node_sound(p, i));
    }

    }

/// What the building loop of `build_tree` leaves makes the list a tree in
/// pre-order and the built tree well formed.
proof fn lemma_built_tree(p: Seq<PlainNode>, t: &SyntaxTree, parents: Seq<Option<usize>>, indices: Seq<usize>)
    requires
        p.len() <= usize::MAX,
        p.len() > 0,
        t.nodes@.len() == p.len(),
        parents.len() == p.len(),
        indices.len() == p.len(),
        parents[0] is None,
        forall|q: int| #![trigger p[q]] 0 <= q < p.len() ==> node_sound(p, q),
        forall|q: int| 0 <= q < p.len() ==> copies_node(#[trigger] t.nodes@[q], p, q),
        forall|q: int| 0 <= q < p.len() ==> (#[trigger] t.nodes@[q]).parent == parents[q] && t.nodes@[q].index_in_parent == indices[q],
        forall|q: int| 0 < q < p.len() ==> (#[trigger] parents[q]) is Some,
        forall|c: int| 0 <= c < p.len() ==> recorded(p, parents, indices, c, p.len() as int),
        forall|q: int, c: usize| 0 <= q < p.len() && #[trigger] spec_children(p, q).contains(c) ==> parents[c as int] == Some(q as usize),
    ensures
        plain_ok(p),
        t.wf(),
        copies_plain(t, p),
{
    let len = p.len();
    lemma_built_list(p, parents, indices);
    assert forall|x: int| #![trigger t.nodes@[x]] 0 <= x < t.nodes@.len() implies forall|k: int|
            #![trigger t.nodes@[x].children@[k]]
            0 <= k < t.nodes@[x].children@.len() ==> {
                let c = t.nodes@[x].children@[k] as int;
                &&& x < c < t.nodes@.len()
                &&& t.nodes@[c].parent == Some(x as usize)
                &&& t.nodes@[c].index_in_parent == k
            } by {
            lemma_chain_bounds(p, x + 1, x + p[x].descendant_count);
            assert(copies_node(t.nodes@[x], p, x));
            assert(node_sound(p, x));
            assert forall|k: int| #![trigger t.nodes@[x].children@[k]] 0 <= k < t.nodes@[x].children@.len() implies {
                let c = t.nodes@[x].children@[k] as int;
                &&& x < c < t.nodes@.len()
                &&& t.nodes@[c].parent == Some(x as usize)
                &&& t.nodes@[c].index_in_parent == k
            } by {
                let c = t.nodes@[x].children@[k];
                assert(spec_children(p, x)[k] == c);
                assert(spec_children(p, x).contains(c));
                assert(parents[c as int] == Some(x as usize));
                assert(recorded(p, parents, indices, c as int, len as int));
                let k2 = indices[c as int] as int;
                assert(spec_children(p, x)[k2] == c);
                if k2 < k {
                    assert(spec_children(p, x)[k2] < spec_children(p, x)[k]);
                } else if k < k2 {
                    assert(spec_children(p, x)[k] < spec_children(p, x)[k2]);
                }
                assert(t.nodes@[c as int].parent == parents[c as int]);
            }
        }
        assert forall|x: int| #![trigger t.nodes@[x]] 0 <= x < t.nodes@.len() implies (t.nodes@[x].parent matches Some(q) ==> {
            &&& q < x
            &&& t.nodes@[x].index_in_parent < t.nodes@[q as int].children@.len()
            &&& t.nodes@[q as int].children@[t.nodes@[x].index_in_parent as int] == x
        }) by {
            assert(recorded(p, parents, indices, x, len as int));
            if let Some(q) = t.nodes@[x].parent {
                assert(copies_node(t.nodes@[q as int], p, q as int));
            }
        }
    }

/// Builds the tree that a pre-order list of nodes describes, over `source`.
/// Fails where the list is no such tree.
#[verifier::rlimit(40)]
pub fn build_tree(p: &Vec<PlainNode>, source: String) -> (r: Result<SyntaxTree, String>)
    ensures
        r is Ok <==> plain_ok(p@),
        r matches Ok(t) ==> t.wf() && t.source@ == source@ && copies_plain(&t, p@),
        r matches Err(e) ==> e@ == "## malformed syntax tree"@,
{
    let len = p.len();
    if len == 0 {
        return Err("## malformed syntax tree".to_string());
    }
    let mut parents: Vec<Option<usize>> = Vec::new();
    let mut indices: Vec<usize> = Vec::new();
    let mut j: usize = 0;
    while j < len
        invariant
            len == p@.len(),
            j <= len,
            parents@.len() == j,
            indices@.len() == j,
            forall|k: int| 0 <= k < j ==> #[trigger] parents@[k] is None,
        decreases len - j,
    {
        parents.push(None);
        indices.push(0);
        j = j + 1;
    }
    let mut nodes: Vec<SyntaxNode> = Vec::new();
    let mut i: usize = 0;
    while i < len
        invariant
            len == p@.len(),
            len > 0,
            i <= len,
            parents@.len() == len,
            indices@.len() == len,
            nodes@.len() == i,
            parents@[0] is None,
            forall|q: int| #![trigger p@[q]] 0 <= q < i ==> node_sound(p@, q),
            forall|q: int| 0 <= q < i ==> copies_node(#[trigger] nodes@[q], p@, q),
            forall|q: int| 0 <= q < i ==> (#[trigger] nodes@[q]).parent == parents@[q] && nodes@[q].index_in_parent == indices@[q],
            forall|q: int| 0 < q < i ==> (#[trigger] parents@[q]) is Some,
            forall|c: int| 0 <= c < len ==> recorded(p@, parents@, indices@, c, i as int),
            forall|q: int, c: usize|
                0 <= q < i && #[trigger] spec_children(p@, q).contains(c) ==> parents@[c as int] == Some(q as usize),
        decreases len - i,
    {
        let d = p[i].descendant_count;
        if d == 0 || d > len - i {
            assert(!node_sound(p@, i as int));
            return Err("## malformed syntax tree".to_string());
        }
        let parent = parents[i];
        if i > 0 && parent.is_none() {
            proof {
                assert forall|q: int| 0 <= q < p@.len() implies !(#[trigger] spec_children(p@, q).contains(i as usize)) by {
                    if spec_children(p@, q).contains(i as usize) {
                        lemma_chain_bounds(p@, q + 1, q + p@[q].descendant_count);
                        let k = choose|k: int| 0 <= k < spec_children(p@, q).len() && spec_children(p@, q)[k] == i;
                        assert(q < i);
                    }
                }
                assert(!has_parent(p@, i as int));
            }
            return Err("## malformed syntax tree".to_string());
        }
        let end = i + d;
        let mut children: Vec<usize> = Vec::new();
        let mut field_names: Vec<Option<String>> = Vec::new();
        let mut c: usize = i + 1;
        proof {
            lemma_chain_bounds(p@, (i + 1) as int, end as int);
        }
        let ghost parents0 = parents@;
        let ghost indices0 = indices@;
        while c < end
            invariant
                len == p@.len(),
                0 <= i < len,
                end == i + p@[i as int].descendant_count,
                end <= len,
                i < c <= end,
                parents@.len() == len,
                indices@.len() == len,
                parents0.len() == len,
                indices0.len() == len,
                chain(p@, i + 1, end as int) == children@ + chain(p@, c as int, end as int),
                chain_ok(p@, i + 1, end as int) == chain_ok(p@, c as int, end as int),
                field_names@.len() == children@.len(),
                forall|k: int| 0 <= k < children@.len() ==> #[trigger] field_names@[k] == p@[children@[k] as int].field_name,
                forall|k: int| 0 <= k < children@.len() ==> i < #[trigger] children@[k] < c,
                forall|k: int|
                    0 <= k < children@.len() ==> parents@[#[trigger] children@[k] as int] == Some(i) && indices@[children@[k] as int]
                        == k,
                forall|x: int|
                    #![trigger parents@[x]]
                    0 <= x < len ==> (parents@[x] == parents0[x] && indices@[x] == indices0[x]) || (parents0[x] is None
                        && parents@[x] == Some(i) && indices@[x] < children@.len() && children@[indices@[x] as int] == x),
                forall|x: int| c <= x < len ==> #[trigger] parents@[x] == parents0[x],
                forall|x: int| 0 <= x < len ==> recorded(p@, parents0, indices0, x, i as int),
                forall|q: int, c2: usize|
                    0 <= q < i && #[trigger] spec_children(p@, q).contains(c2) ==> parents0[c2 as int] == Some(q as usize),
            decreases end - c,
        {
            let dc = p[c].descendant_count;
            if dc == 0 || dc > end - c {
                assert(!chain_ok(p@, c as int, end as int));
                assert(!node_sound(p@, i as int));
                assert(p@[i as int] == p@[i as int]);
                return Err("## malformed syntax tree".to_string());
            }
            proof {
                assert(chain(p@, c as int, end as int) == seq![c] + chain(p@, c + dc, end as int));
                assert(chain(p@, i + 1, end as int)[children@.len() as int] == c);
                assert(spec_children(p@, i as int).contains(c));
            }
            match parents[c] {
                Some(q) => {
                    proof {
                        assert(parents0[c as int] == Some(q));
                        assert(recorded(p@, parents0, indices0, c as int, i as int));
                        assert(spec_children(p@, q as int)[indices0[c as int] as int] == c);
                        assert(spec_children(p@, q as int).contains(c));
                        assert(q != i);
                    }
                    return Err("## malformed syntax tree".to_string());
                },
                None => {},
            }
            let k = children.len();
            let ghost old_children = children@;
            let ghost old_c = c;
            let ghost old_parents = parents@;
            let ghost old_indices = indices@;
            parents.set(c, Some(i));
            indices.set(c, k);
            children.push(c);
            let f = match &p[c].field_name {
                Some(f) => Some(f.clone()),
                None => None,
            };
            field_names.push(f);
            c = c + dc;
            proof {
                assert(children@ + chain(p@, c as int, end as int) =~= old_children + (seq![old_c] + chain(p@, c as int, end as int)));
                assert(children@[k as int] == old_c);
                assert forall|x: int|
                    #![trigger parents@[x]]
                    0 <= x < len implies (parents@[x] == parents0[x] && indices@[x] == indices0[x]) || (parents0[x] is None
                        && parents@[x] == Some(i) && indices@[x] < children@.len() && children@[indices@[x] as int] == x) by {
                    if x != old_c {
                        assert(parents@[x] == old_parents[x] && indices@[x] == old_indices[x]);
                        if !(parents@[x] == parents0[x] && indices@[x] == indices0[x]) {
                            assert(children@[indices@[x] as int] == old_children[indices@[x] as int]);
                        }
                    }
                }
                assert forall|kk: int|
                    0 <= kk < children@.len() implies parents@[#[trigger] children@[kk] as int] == Some(i) && indices@[children@[kk] as int]
                        == kk by {
                    if kk < k {
                        assert(children@[kk] == old_children[kk]);
                        assert(old_children[kk] < old_c);
                    }
                }
            }
        }
        proof {
            assert(c == end);
            assert(chain(p@, c as int, end as int) =~= Seq::<usize>::empty());
            assert(children@ =~= spec_children(p@, i as int));
            assert(node_sound(p@, i as int));
            assert forall|x: int| 0 <= x < len implies #[trigger] recorded(p@, parents@, indices@, x, (i + 1) as int) by {
                assert(parents@[x] == parents@[x]);
                if !(parents@[x] == parents0[x] && indices@[x] == indices0[x]) {
                    assert(children@[indices@[x] as int] == x);
                } else {
                    assert(recorded(p@, parents0, indices0, x, i as int));
                }
            }
            assert forall|q: int, c2: usize| 0 <= q < i + 1 && #[trigger] spec_children(p@, q).contains(c2) implies parents@[c2
                as int] == Some(q as usize) by {
                if q < i {
                    assert(parents0[c2 as int] == Some(q as usize));
                    lemma_chain_bounds(p@, q + 1, q + p@[q].descendant_count);
                    assert(parents@[c2 as int] == parents@[c2 as int]);
                } else {
                    let kk = choose|kk: int| 0 <= kk < children@.len() && children@[kk] == c2;
                    assert(parents@[children@[kk] as int] == Some(i));
                }
            }
            assert forall|q: int| 0 <= q <= i implies #[trigger] parents@[q] == parents0[q] && indices@[q] == indices0[q] by {
                assert(parents@[q] == parents@[q]);
                if !(parents@[q] == parents0[q] && indices@[q] == indices0[q]) {
                    assert(children@[indices@[q] as int] == q);
                }
            }
        }
        let q = &p[i];
        let node = SyntaxNode {
            kind: q.kind.clone(),
            is_named: q.is_named,
            is_extra: q.is_extra,
            is_error: q.is_error,
            is_missing: q.is_missing,
            has_error: q.has_error,
            start_byte: q.start_byte,
            end_byte: q.end_byte,
            start_row: q.start_row,
            start_column: q.start_column,
            end_row: q.end_row,
            end_column: q.end_column,
            parent,
            index_in_parent: indices[i],
            children,
            field_names,
        };
        nodes.push(node);
        i = i + 1;
    }
    let t = SyntaxTree { source, nodes };
    proof {
        lemma_built_tree(p@, &t, parents@, indices@);
    }
    Ok(t)
}

/// Parses `source` with the Apex grammar and builds its syntax tree. Fails
/// where the parser gives no tree, or gives a list of nodes that is no tree.
pub fn parse_tree(source: &str) -> (r: Result<SyntaxTree, String>)
    ensures
        ts::apex_parse(source@) is None ==> (r matches Err(e) && e@ == "Formatting panicked: the parser returned no tree"@),
        ts::apex_parse(source@) matches Some(p) ==> (r is Ok <==> plain_ok(p)),
        ts::apex_parse(source@) matches Some(p) ==> (r matches Ok(t) ==> t.wf() && t.source@ == source@ && copies_plain(&t, p)),
        ts::apex_parse(source@) matches Some(p) ==> (r matches Err(e) ==> e@ == "## malformed syntax tree"@),
{
    let tree = match ts::parse_apex(source) {
        Some(tree) => tree,
        None => {
            return Err("Formatting panicked: the parser returned no tree".to_string());
        },
    };
    let n = ts::tree_node_count(&tree);
    let mut v: Vec<PlainNode> = Vec::new();
    let mut i: usize = 0;
    while i < n
        invariant
            n == ts::tree_nodes(tree).len(),
            i <= n,
            v@ == ts::tree_nodes(tree).take(i as int),
        decreases n - i,
    {
        let x = ts::tree_node(&tree, i);
        v.push(x);
        i = i + 1;
        assert(v@ =~= ts::tree_nodes(tree).take(i as int));
    }
    assert(v@ =~= ts::tree_nodes(tree));
    let mut s = String::new();
    crate::strs::string_push_str(&mut s, source);
    assert(s@ =~= source@);
    build_tree(&v, s)
}

} // verus!
