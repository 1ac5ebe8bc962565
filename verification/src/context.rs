//! Comments and punctuation: where each comment of the source attaches, the
//! facts about its surroundings that its layout depends on, and the documents
//! that comments and trailing punctuation become.
use crate::accessor::{
    is_code, kind_is, next_sibling, next_named_sibling, prev_named_sibling, value,
};
use crate::doc::{Doc, DocRef, JavadocStarColumn};
use crate::doc_builder::{concat_parts, is_text, DocBuilder};
use crate::strs::{
    chars_of, concat2, is_ws, starts_with, string_of_chars, trim, trim_bounds, trim_end, trimmed_end,
};
use crate::syntax::SyntaxTree;
use vstd::prelude::*;

verus! {

#[derive(Clone, Copy, PartialEq, Eq, Structural, Debug)]
pub enum CommentType {
    Line,
    Block,
}

/// Facts about the lines around a comment.
#[derive(Clone, Copy, Debug)]
pub struct CommentMetadata {
    pub has_leading_content: bool,
    pub has_trailing_content: bool,
    pub has_empty_line_above: bool,
    pub has_empty_line_below: bool,
    pub has_prev_node: bool,
    pub is_followed_by_bracket_composite_node: bool,
}

/// A comment of the source, with the node it comes from.
pub struct Comment {
    pub id: usize,
    pub value: String,
    pub comment_type: CommentType,
    pub metadata: CommentMetadata,
}

/// The comments attached to one node: before it, after it, and inside it
/// when it has no code child.
pub struct CommentBucket {
    pub pre_comments: Vec<Comment>,
    pub post_comments: Vec<Comment>,
    pub dangling_comments: Vec<Comment>,
}

impl CommentBucket {
    pub fn new() -> (r: Self)
        ensures
            r.pre_comments@.len() == 0,
            r.post_comments@.len() == 0,
            r.dangling_comments@.len() == 0,
    {
        CommentBucket { pre_comments: Vec::new(), post_comments: Vec::new(), dangling_comments: Vec::new() }
    }
}

/// The comment bucket of every node of a tree, by node index.
pub struct CommentMap {
    pub buckets: Vec<CommentBucket>,
    pub empty: CommentBucket,
}

/// Which comments have been written so far, by node index.
pub struct BuildState {
    pub printed: Vec<bool>,
}

impl BuildState {
    pub fn new(n: usize) -> (r: Self)
        ensures
            r.printed@.len() == n,
            forall|i: int| 0 <= i < n ==> !#[trigger] r.printed@[i],
    {
        let mut printed: Vec<bool> = Vec::new();
        let mut i: usize = 0;
        while i < n
            invariant
                i <= n,
                printed@.len() == i,
                forall|k: int| 0 <= k < i ==> !#[trigger] printed@[k],
            decreases n - i,
        {
            printed.push(false);
            i = i + 1;
        }
        BuildState { printed }
    }

    /// Records that a comment has been written.
    pub fn mark_as_printed(&mut self, id: usize)
        ensures
            final(self).printed@.len() == old(self).printed@.len(),
            id < old(self).printed@.len() ==> final(self).printed@ == old(self).printed@.update(
                id as int,
                true,
            ),
            id >= old(self).printed@.len() ==> final(self).printed@ == old(self).printed@,
    {
        if id < self.printed.len() {
            self.printed.set(id, true);
        }
    }
}

impl CommentMap {
    /// The bucket of a node; the empty bucket for an index out of range.
    pub fn bucket(&self, id: usize) -> (r: &CommentBucket)
        ensures
            id < self.buckets@.len() ==> r == &self.buckets@[id as int],
            id >= self.buckets@.len() ==> r == &self.empty,
    {
        if id < self.buckets.len() {
            &self.buckets[id]
        } else {
            &self.empty
        }
    }
}

/// Appends a part of a JavaDoc comment: the opening text, a newline, or a
/// continuation line.
fn push_javadoc_part<'a>(result: &mut Vec<DocRef<'a>>, d: DocRef<'a>, Ghost(star): Ghost<Seq<char>>)
    requires
        javadoc_parts_ok(old(result)@, 0, star),
        texts_and_newlines(old(result)@),
        *d == Doc::Newline || (*d matches Doc::Text(t, _) && (old(result)@.len() == 0 || javadoc_line_ok(
            t@,
            star,
        ))),
    ensures
        final(result)@ == old(result)@.push(d),
        javadoc_parts_ok(final(result)@, 0, star),
        texts_and_newlines(final(result)@),
{
    result.push(d);
    assert forall|k: int| 0 <= k < result@.len() implies (*#[trigger] result@[k] is Text || *result@[k]
        == Doc::Newline) by {
        if k < result@.len() - 1 {
            assert(result@[k] == old(result)@[k]);
        }
    }
    assert forall|k: int| 0 < k < result@.len() implies (*#[trigger] result@[k] == Doc::Newline || (
    *result@[k] matches Doc::Text(t, _) && javadoc_line_ok(t@, star))) by {
        if k < result@.len() - 1 {
            assert(result@[k] == old(result)@[k]);
        }
    }
}

impl Comment {
    pub fn has_leading_content(&self) -> (r: bool)
        ensures
            r == self.metadata.has_leading_content,
    {
        self.metadata.has_leading_content
    }

    pub fn has_trailing_content(&self) -> (r: bool)
        ensures
            r == self.metadata.has_trailing_content,
    {
        self.metadata.has_trailing_content
    }

    pub fn has_newline_above(&self) -> (r: bool)
        ensures
            r == self.metadata.has_empty_line_above,
    {
        self.metadata.has_empty_line_above
    }

    pub fn has_newline_below(&self) -> (r: bool)
        ensures
            r == self.metadata.has_empty_line_below,
    {
        self.metadata.has_empty_line_below
    }

    pub fn is_followed_by_bracket_composite_node(&self) -> (r: bool)
        ensures
            r == self.metadata.is_followed_by_bracket_composite_node,
    {
        self.metadata.is_followed_by_bracket_composite_node
    }

    pub fn has_prev_node(&self) -> (r: bool)
        ensures
            r == self.metadata.has_prev_node,
    {
        self.metadata.has_prev_node
    }
}

// ---------------------------------------------------------------------------
// Metadata.
// ---------------------------------------------------------------------------
/// The kinds whose text opens with a bracket.
pub open spec fn spec_is_bracket_composite_kind(k: Seq<char>) -> bool {
    ||| k == "block"@
    ||| k == "class_body"@
    ||| k == "interface_body"@
    ||| k == "enum_body"@
    ||| k == "constructor_body"@
    ||| k == "array_initializer"@
    ||| k == "switch_block"@
    ||| k == "trigger_body"@
    ||| k == "map_initializer"@
}

/// Whether a node is a composite whose text opens with a bracket.
pub fn is_bracket_composite_node(t: &SyntaxTree, n: usize) -> (r: bool)
    requires
        t.valid(n as int),
    ensures
        r == spec_is_bracket_composite_kind(t.nodes@[n as int].kind@),
{
    kind_is(t, n, "block") || kind_is(t, n, "class_body") || kind_is(t, n, "interface_body")
        || kind_is(t, n, "enum_body") || kind_is(t, n, "constructor_body") || kind_is(
        t,
        n,
        "array_initializer",
    ) || kind_is(t, n, "switch_block") || kind_is(t, n, "trigger_body") || kind_is(
        t,
        n,
        "map_initializer",
    )
}

/// The metadata of a comment node, from its previous and next named siblings:
/// content on the same line before it (`has_leading_content`); for a block
/// comment, content on the same line after it (`has_trailing_content`); an
/// empty line above or below it; whether it has a previous node; and whether
/// the next node opens with a bracket.
pub open spec fn spec_metadata(t: &SyntaxTree, n: int, ty: CommentType) -> CommentMetadata {
    let node = t.nodes@[n];
    let prev = crate::accessor::prev_named(t, n);
    let next = crate::accessor::next_where(t, n, true, false);
    CommentMetadata {
        has_prev_node: prev is Some,
        has_leading_content: match prev {
            Some(p) => node.start_row == t.nodes@[p as int].end_row,
            None => false,
        },
        has_trailing_content: match ty {
            CommentType::Line => false,
            CommentType::Block => match next {
                Some(x) => node.end_row == t.nodes@[x as int].start_row,
                None => false,
            },
        },
        has_empty_line_above: match prev {
            Some(p) => node.start_row > t.nodes@[p as int].end_row + 1,
            None => false,
        },
        has_empty_line_below: match next {
            Some(x) => node.end_row + 1 < t.nodes@[x as int].start_row,
            None => false,
        },
        is_followed_by_bracket_composite_node: match next {
            Some(x) => spec_is_bracket_composite_kind(t.nodes@[x as int].kind@),
            None => false,
        },
    }
}

impl CommentMetadata {
    pub fn from(t: &SyntaxTree, n: usize, comment_type: CommentType) -> (r: Self)
        requires
            t.wf(),
            t.valid(n as int),
        ensures
            r == spec_metadata(t, n as int, comment_type),
    {
        let node = &t.nodes[n];
        let prev = prev_named_sibling(t, n);
        let has_prev_node = prev.is_some();
        let has_leading_content = match prev {
            Some(p) => node.start_row == t.nodes[p].end_row,
            None => false,
        };
        let next = next_named_sibling(t, n);
        let has_trailing_content = match comment_type {
            CommentType::Line => false,
            CommentType::Block => match next {
                Some(x) => node.end_row == t.nodes[x].start_row,
                None => false,
            },
        };
        let has_empty_line_above = match prev {
            Some(p) => t.nodes[p].end_row < usize::MAX && node.start_row > t.nodes[p].end_row + 1,
            None => false,
        };
        let has_empty_line_below = match next {
            Some(x) => node.end_row < usize::MAX && node.end_row + 1 < t.nodes[x].start_row,
            None => false,
        };
        let is_followed_by_bracket_composite_node = match next {
            Some(x) => is_bracket_composite_node(t, x),
            None => false,
        };
        CommentMetadata {
            has_leading_content,
            has_trailing_content,
            has_empty_line_above,
            has_empty_line_below,
            has_prev_node,
            is_followed_by_bracket_composite_node,
        }
    }
}

impl Comment {
    /// The comment of a `line_comment` or `block_comment` node: its text
    /// without trailing white space, its type and its metadata.
    pub fn from_node(t: &SyntaxTree, n: usize) -> (r: Result<Self, String>)
        requires
            t.wf(),
            t.valid(n as int),
        ensures
            r matches Ok(c) ==> c.id == n && c.comment_type == (if t.nodes@[n as int].kind@
                == "line_comment"@ {
                CommentType::Line
            } else {
                CommentType::Block
            }) && (t.nodes@[n as int].kind@ == "line_comment"@ || t.nodes@[n as int].kind@
                == "block_comment"@) && c.metadata == spec_metadata(t, n as int, c.comment_type),
            (t.nodes@[n as int].kind@ != "line_comment"@ && t.nodes@[n as int].kind@
                != "block_comment"@) ==> r is Err,
            r is Ok <==> is_comment_kind(t.nodes@[n as int].kind@) && crate::accessor::readable(t, n as int),
            r matches Ok(c) ==> exists|text: Seq<char>|
                crate::strs::bytes_of(text) == crate::accessor::node_bytes(t, n as int) && c.value@ == trim_end(text),
    {
        let comment_type = if kind_is(t, n, "line_comment") {
            CommentType::Line
        } else if kind_is(t, n, "block_comment") {
            CommentType::Block
        } else {
            return Err(crate::utility::panic_unknown_node(t, n, "Comment"));
        };
        let raw = value(t, n)?;
        let value = trimmed_end(raw.as_str());
        let metadata = CommentMetadata::from(t, n, comment_type);
        Ok(Comment { id: n, value, comment_type, metadata })
    }
}

// ---------------------------------------------------------------------------
// Collecting comments.
// ---------------------------------------------------------------------------
/// The kinds of comment node.
pub open spec fn is_comment_kind(k: Seq<char>) -> bool {
    k == "line_comment"@ || k == "block_comment"@
}

/// Every named node that is an extra of the tree is a comment whose text
/// can be read.
pub open spec fn comments_readable(t: &SyntaxTree) -> bool {
    forall|i: int|
        0 <= i < t.nodes@.len() && #[trigger] t.nodes@[i].is_named && t.nodes@[i].is_extra ==> is_comment_kind(
            t.nodes@[i].kind@,
        ) && crate::accessor::readable(t, i)
}
/// Whether every comment held in the map is a node of the tree and not out of
/// range, with buckets for all nodes.
pub open spec fn map_wf(t: &SyntaxTree, m: &CommentMap) -> bool {
    &&& m.buckets@.len() == t.nodes@.len()
}

/// The bucket holds a comment with that id, in any of its lists.
pub open spec fn bucket_has(b: CommentBucket, id: usize) -> bool {
    ||| exists|k: int| 0 <= k < b.pre_comments@.len() && #[trigger] b.pre_comments@[k].id == id
    ||| exists|k: int| 0 <= k < b.post_comments@.len() && #[trigger] b.post_comments@[k].id == id
    ||| exists|k: int| 0 <= k < b.dangling_comments@.len() && #[trigger] b.dangling_comments@[k].id == id
}

/// Some bucket of the map holds a comment with that id.
pub open spec fn map_has(m: &CommentMap, id: usize) -> bool {
    exists|i: int| 0 <= i < m.buckets@.len() && #[trigger] bucket_has(m.buckets@[i], id)
}

/// Each list of each bucket of `a` begins the same list of `b`.
pub open spec fn bucket_grows(a: CommentBucket, b: CommentBucket) -> bool {
    &&& a.pre_comments@.is_prefix_of(b.pre_comments@)
    &&& a.post_comments@.is_prefix_of(b.post_comments@)
    &&& a.dangling_comments@.is_prefix_of(b.dangling_comments@)
}

/// `b` is `a` with comments added at the ends of its lists.
pub open spec fn map_grows(a: &CommentMap, b: &CommentMap) -> bool {
    &&& a.buckets@.len() == b.buckets@.len()
    &&& forall|i: int| 0 <= i < a.buckets@.len() ==> bucket_grows(#[trigger] a.buckets@[i], b.buckets@[i])
}

proof fn lemma_bucket_grows_has(a: CommentBucket, b: CommentBucket, id: usize)
    requires
        bucket_grows(a, b),
        bucket_has(a, id),
    ensures
        bucket_has(b, id),
{
    if exists|k: int| 0 <= k < a.pre_comments@.len() && #[trigger] a.pre_comments@[k].id == id {
        let k = choose|k: int| 0 <= k < a.pre_comments@.len() && #[trigger] a.pre_comments@[k].id == id;
        assert(b.pre_comments@[k] == a.pre_comments@[k]);
    } else if exists|k: int| 0 <= k < a.post_comments@.len() && #[trigger] a.post_comments@[k].id == id {
        let k = choose|k: int| 0 <= k < a.post_comments@.len() && #[trigger] a.post_comments@[k].id == id;
        assert(b.post_comments@[k] == a.post_comments@[k]);
    } else {
        let k = choose|k: int| 0 <= k < a.dangling_comments@.len() && #[trigger] a.dangling_comments@[k].id == id;
        assert(b.dangling_comments@[k] == a.dangling_comments@[k]);
    }
}

/// A comment held by a map is held by any map it grows into.
pub proof fn lemma_map_grows_has(a: &CommentMap, b: &CommentMap, id: usize)
    requires
        map_grows(a, b),
        map_has(a, id),
    ensures
        map_has(b, id),
{
    let i = choose|i: int| 0 <= i < a.buckets@.len() && #[trigger] bucket_has(a.buckets@[i], id);
    lemma_bucket_grows_has(a.buckets@[i], b.buckets@[i], id);
}

proof fn lemma_map_grows_trans(a: &CommentMap, b: &CommentMap, c: &CommentMap)
    requires
        map_grows(a, b),
        map_grows(b, c),
    ensures
        map_grows(a, c),
{
    assert forall|i: int| 0 <= i < a.buckets@.len() implies bucket_grows(#[trigger] a.buckets@[i], c.buckets@[i]) by {
        let x = a.buckets@[i];
        let y = b.buckets@[i];
        let z = c.buckets@[i];
        assert(bucket_grows(x, y) && bucket_grows(y, z));
        assert(x.pre_comments@ =~= z.pre_comments@.subrange(0, x.pre_comments@.len() as int));
        assert(x.post_comments@ =~= z.post_comments@.subrange(0, x.post_comments@.len() as int));
        assert(x.dangling_comments@ =~= z.dangling_comments@.subrange(0, x.dangling_comments@.len() as int));
    }
}

/// Puts a comment at the end of the pre-comments (0), post-comments (1) or
/// dangling comments (2) of a node.
fn push_comment(m: &mut CommentMap, id: usize, which: u8, c: Comment)
    requires
        id < old(m).buckets@.len(),
    ensures
        final(m).buckets@.len() == old(m).buckets@.len(),
        final(m).empty == old(m).empty,
        forall|i: int| 0 <= i < final(m).buckets@.len() && i != id ==> #[trigger] final(m).buckets@[i]
            == old(m).buckets@[i],
        final(m).buckets@[id as int].pre_comments@ == (if which == 0 {
            old(m).buckets@[id as int].pre_comments@.push(c)
        } else {
            old(m).buckets@[id as int].pre_comments@
        }),
        final(m).buckets@[id as int].post_comments@ == (if which == 1 {
            old(m).buckets@[id as int].post_comments@.push(c)
        } else {
            old(m).buckets@[id as int].post_comments@
        }),
        final(m).buckets@[id as int].dangling_comments@ == (if which != 0 && which != 1 {
            old(m).buckets@[id as int].dangling_comments@.push(c)
        } else {
            old(m).buckets@[id as int].dangling_comments@
        }),
        map_grows(old(m), final(m)),
        map_has(final(m), c.id),
{
    let ghost old_m = *m;
    let mut b = m.buckets.remove(id);
    if which == 0 {
        b.pre_comments.push(c);
    } else if which == 1 {
        b.post_comments.push(c);
    } else {
        b.dangling_comments.push(c);
    }
    m.buckets.insert(id, b);
    proof {
        assert forall|i: int| 0 <= i < m.buckets@.len() && i != id implies #[trigger] m.buckets@[i] == old_m.buckets@[i] by {
            if i < id {
            } else {
            }
        }
        let nb = m.buckets@[id as int];
        let ob = old_m.buckets@[id as int];
        assert(bucket_grows(ob, nb));
        assert forall|i: int| 0 <= i < old_m.buckets@.len() implies bucket_grows(#[trigger] old_m.buckets@[i], m.buckets@[i]) by {
            if i != id {
                assert(m.buckets@[i] == old_m.buckets@[i]);
            }
        }
        if which == 0 {
            assert(nb.pre_comments@[nb.pre_comments@.len() - 1].id == c.id);
        } else if which == 1 {
            assert(nb.post_comments@[nb.post_comments@.len() - 1].id == c.id);
        } else {
            assert(nb.dangling_comments@[nb.dangling_comments@.len() - 1].id == c.id);
        }
        assert(bucket_has(m.buckets@[id as int], c.id));
    }
}

/// Every comment among the children of a named code node `n` is held by
/// the map.
pub open spec fn child_comments_held(t: &SyntaxTree, n: int, m: &CommentMap) -> bool {
    let node = t.nodes@[n];
    node.is_named && !node.is_extra ==> forall|k: int|
        0 <= k < node.children@.len() && t.nodes@[node.children@[k] as int].is_named && t.nodes@[node.children@[
            k
        ] as int].is_extra ==> map_has(m, #[trigger] node.children@[k])
}

/// The tree holds no comment: no node is both named and extra.
pub open spec fn no_comment_nodes(t: &SyntaxTree) -> bool {
    forall|i: int| 0 <= i < t.nodes@.len() ==> !(#[trigger] t.nodes@[i].is_named && t.nodes@[i].is_extra)
}

/// Every bucket of the map is empty.
pub open spec fn map_empty(m: &CommentMap) -> bool {
    forall|i: int|
        0 <= i < m.buckets@.len() ==> (#[trigger] m.buckets@[i]).pre_comments@.len() == 0
            && m.buckets@[i].post_comments@.len() == 0 && m.buckets@[i].dangling_comments@.len() == 0
}

/// A map without comments has all its comments written, whatever was written.
pub proof fn lemma_empty_map_all_printed(m: &CommentMap, st: &BuildState)
    requires
        map_empty(m),
    ensures
        all_printed(m, st),
{
    assert forall|i: int| 0 <= i < m.buckets@.len() implies bucket_printed(#[trigger] &m.buckets@[i], st) by {
        assert(m.buckets@[i].pre_comments@.len() == 0);
    }
}

/// Child `j` of `n` is code: named, and no comment.
pub open spec fn code_at(t: &SyntaxTree, n: int, j: int) -> bool {
    crate::accessor::is_code(t, t.kids(n)[j] as int)
}

/// Child `j` of `n` is a comment: named and extra.
pub open spec fn comment_at(t: &SyntaxTree, n: int, j: int) -> bool {
    t.nodes@[t.kids(n)[j] as int].is_named && t.nodes@[t.kids(n)[j] as int].is_extra
}

/// The position of the first code child of `n` at position `j` or after.
pub open spec fn next_code_from(t: &SyntaxTree, n: int, j: int) -> Option<int>
    decreases t.kids(n).len() - j,
{
    if j < 0 || j >= t.kids(n).len() {
        None
    } else if code_at(t, n, j) {
        Some(j)
    } else {
        next_code_from(t, n, j + 1)
    }
}

/// The position of the last code child of `n` before position `k`.
pub open spec fn last_code_before(t: &SyntaxTree, n: int, k: int) -> Option<int>
    decreases k,
{
    if k <= 0 {
        None
    } else if code_at(t, n, k - 1) {
        Some(k - 1)
    } else {
        last_code_before(t, n, k - 1)
    }
}

/// A comment of the list has that id.
pub open spec fn list_has(l: Seq<Comment>, id: usize) -> bool {
    exists|q: int| 0 <= q < l.len() && #[trigger] l[q].id == id
}

/// Where the comment at child position `j` of `n` belongs: among the
/// pre-comments of the next code child where one follows; else among the
/// post-comments of the last code child; else, where `n` has no code child,
/// among the dangling comments of `n`.
pub open spec fn comment_placed(t: &SyntaxTree, n: int, j: int, m: &CommentMap) -> bool {
    let id = t.kids(n)[j];
    match next_code_from(t, n, j + 1) {
        Some(p) => list_has(m.buckets@[t.kids(n)[p] as int].pre_comments@, id),
        None => match last_code_before(t, n, t.kids(n).len() as int) {
            Some(p) => list_has(m.buckets@[t.kids(n)[p] as int].post_comments@, id),
            None => list_has(m.buckets@[n].dangling_comments@, id),
        },
    }
}

/// Every comment child of a code node `n` is where it belongs.
pub open spec fn comments_placed(t: &SyntaxTree, n: int, m: &CommentMap) -> bool {
    crate::accessor::is_code(t, n) ==> forall|j: int|
        0 <= j < t.kids(n).len() && comment_at(t, n, j) ==> #[trigger] comment_placed(t, n, j, m)
}

/// A found next code child is at or after the start and is code.
proof fn lemma_next_code_facts(t: &SyntaxTree, n: int, a: int)
    requires
        0 <= a,
    ensures
        next_code_from(t, n, a) matches Some(p) ==> a <= p < t.kids(n).len() && code_at(t, n, p),
    decreases t.kids(n).len() - a,
{
    if a < t.kids(n).len() && !code_at(t, n, a) {
        lemma_next_code_facts(t, n, a + 1);
    }
}

/// The next code child from `a` is before `k`, or is the next one from `k`.
proof fn lemma_next_code_split(t: &SyntaxTree, n: int, a: int, k: int)
    requires
        0 <= a <= k <= t.kids(n).len(),
    ensures
        (next_code_from(t, n, a) matches Some(p) && p < k) || next_code_from(t, n, a) == next_code_from(t, n, k),
    decreases k - a,
{
    if a < k && !code_at(t, n, a) {
        lemma_next_code_split(t, n, a + 1, k);
    }
}

/// A found last code child is before the bound and is code.
proof fn lemma_last_code_facts(t: &SyntaxTree, n: int, k: int)
    ensures
        last_code_before(t, n, k) matches Some(p) ==> 0 <= p < k && code_at(t, n, p),
    decreases k,
{
    if k > 0 && !code_at(t, n, k - 1) {
        lemma_last_code_facts(t, n, k - 1);
    }
}

/// A comment in a list is still there once the list has grown.
proof fn lemma_prefix_has(a: Seq<Comment>, b: Seq<Comment>, id: usize)
    requires
        a.is_prefix_of(b),
        list_has(a, id),
    ensures
        list_has(b, id),
{
    let q = choose|q: int| 0 <= q < a.len() && #[trigger] a[q].id == id;
    assert(b[q] == a[q]);
}

/// Without code children, no child has a code child after it.
pub proof fn lemma_no_code_after(t: &SyntaxTree, n: int, a: int)
    requires
        forall|j: int| 0 <= j < t.kids(n).len() ==> !#[trigger] code_at(t, n, j),
    ensures
        next_code_from(t, n, a) is None,
    decreases t.kids(n).len() - a,
{
    if 0 <= a < t.kids(n).len() {
        assert(!code_at(t, n, a));
        lemma_no_code_after(t, n, a + 1);
    }
}

/// Without code children, no child has a code child before it, and the list
/// of code children is empty.
pub proof fn lemma_no_code_before(t: &SyntaxTree, n: int, k: int)
    requires
        forall|j: int| 0 <= j < t.kids(n).len() ==> !#[trigger] code_at(t, n, j),
        k <= t.kids(n).len(),
    ensures
        last_code_before(t, n, k) is None,
        crate::accessor::select(t, n, crate::accessor::code_pred(t, n), k).len() == 0,
    decreases k,
{
    if k > 0 {
        lemma_no_code_before(t, n, k - 1);
        assert(!code_at(t, n, k - 1));
    }
}

/// Comments of the first `k` children of `n`: those with a code child after
/// them before `k` are among its pre-comments; the others are pending.
pub open spec fn placed_so_far(t: &SyntaxTree, n: int, k: int, m: &CommentMap, pending: Seq<Comment>) -> bool {
    forall|j: int|
        0 <= j < k && comment_at(t, n, j) ==> match #[trigger] next_code_from(t, n, j + 1) {
            Some(p) => if p < k {
                list_has(m.buckets@[t.kids(n)[p] as int].pre_comments@, t.kids(n)[j])
            } else {
                list_has(pending, t.kids(n)[j])
            },
            None => list_has(pending, t.kids(n)[j]),
        }
}

/// `placed_so_far` while the pending comments move to the pre-comments of
/// code child `k`.
pub open spec fn moving_to(t: &SyntaxTree, n: int, k: int, m: &CommentMap, pending: Seq<Comment>) -> bool {
    forall|j: int|
        0 <= j < k && comment_at(t, n, j) ==> match #[trigger] next_code_from(t, n, j + 1) {
            Some(p) => if p < k {
                list_has(m.buckets@[t.kids(n)[p] as int].pre_comments@, t.kids(n)[j])
            } else {
                list_has(pending, t.kids(n)[j]) || list_has(
                    m.buckets@[t.kids(n)[k] as int].pre_comments@,
                    t.kids(n)[j],
                )
            },
            None => list_has(pending, t.kids(n)[j]) || list_has(
                m.buckets@[t.kids(n)[k] as int].pre_comments@,
                t.kids(n)[j],
            ),
        }
}

/// After all children: comments followed by a code child are placed; the
/// others are pending or in the list `target` of the map.
pub open spec fn finishing(t: &SyntaxTree, n: int, m: &CommentMap, pending: Seq<Comment>, target: int, which: u8) -> bool {
    forall|j: int|
        0 <= j < t.kids(n).len() && comment_at(t, n, j) ==> match #[trigger] next_code_from(t, n, j + 1) {
            Some(p) => list_has(m.buckets@[t.kids(n)[p] as int].pre_comments@, t.kids(n)[j]),
            None => list_has(pending, t.kids(n)[j]) || list_has(
                if which == 1 {
                    m.buckets@[target].post_comments@
                } else {
                    m.buckets@[target].dangling_comments@
                },
                t.kids(n)[j],
            ),
        }
}

/// Attaches the comments below node `n`: comments before a code child become
/// its pre-comments, comments after the last code child its post-comments,
/// and, for a node without code children, all its comments are dangling.
/// Nodes that are unnamed or comments are skipped.
#[verifier::rlimit(60)]
#[verifier::spinoff_prover]
pub fn collect_comments(t: &SyntaxTree, n: usize, m: &mut CommentMap) -> (r: Result<(), String>)
    requires
        t.wf(),
        t.valid(n as int),
        map_wf(t, old(m)),
    ensures
        map_wf(t, final(m)),
        map_grows(old(m), final(m)),
        r is Ok ==> child_comments_held(t, n as int, final(m)),
        comments_readable(t) ==> r is Ok,
        no_comment_nodes(t) ==> *final(m) == *old(m),
        r is Ok ==> comments_placed(t, n as int, final(m)),
    decreases t.nodes@.len() - n,
{
    let ghost m0 = *m;
    let node = &t.nodes[n];
    if !node.is_named || node.is_extra {
        assert(map_grows(&m0, m));
        return Ok(());
    }
    let mut pending: Vec<Comment> = Vec::new();
    let mut last_code: Option<usize> = None;
    let mut k: usize = 0;
    while k < node.children.len()
        invariant
            t.wf(),
            t.valid(n as int),
            node == &t.nodes@[n as int],
            k <= node.children@.len(),
            map_wf(t, m),
            map_grows(&m0, m),
            m0 == *old(m),
            last_code matches Some(c) ==> t.valid(c as int),
            last_code == (match last_code_before(t, n as int, k as int) {
                Some(p) => Some(node.children@[p]),
                None => None::<usize>,
            }),
            placed_so_far(t, n as int, k as int, m, pending@),
            crate::accessor::is_code(t, n as int),
            no_comment_nodes(t) ==> pending@.len() == 0 && *m == m0,
            forall|j: int|
                0 <= j < k && t.nodes@[node.children@[j] as int].is_named && t.nodes@[node.children@[j] as int].is_extra
                    ==> map_has(m, #[trigger] node.children@[j]) || exists|q: int|
                    0 <= q < pending@.len() && pending@[q].id == node.children@[j],
        decreases node.children@.len() - k,
    {
        let c = node.children[k];
        assert(t.nodes@[n as int].children@[k as int] == c);
        let child = &t.nodes[c];
        if child.is_named {
            if child.is_extra {
                assert(!no_comment_nodes(t)) by {
                    assert(t.nodes@[c as int].is_named && t.nodes@[c as int].is_extra);
                }
                let comment = match Comment::from_node(t, c) {
                    Ok(x) => x,
                    Err(e) => {
                        return Err(e);
                    },
                };
                let ghost p0 = pending@;
                pending.push(comment);
                proof {
                    assert forall|j: int|
                        0 <= j < k + 1 && t.nodes@[node.children@[j] as int].is_named && t.nodes@[node.children@[j] as int].is_extra
                            implies map_has(m, #[trigger] node.children@[j]) || exists|q: int|
                            0 <= q < pending@.len() && pending@[q].id == node.children@[j] by {
                        if j == k {
                            assert(pending@[p0.len() as int].id == c);
                        } else if !map_has(m, node.children@[j]) {
                            let q = choose|q: int| 0 <= q < p0.len() && p0[q].id == node.children@[j];
                            assert(pending@[q] == p0[q]);
                        }
                    }
                    assert(!code_at(t, n as int, k as int));
                    assert forall|j: int| 0 <= j < k + 1 && comment_at(t, n as int, j) implies match #[trigger] next_code_from(t, n as int, j + 1) {
                        Some(p) => if p < k + 1 {
                            list_has(m.buckets@[t.kids(n as int)[p] as int].pre_comments@, t.kids(n as int)[j])
                        } else {
                            list_has(pending@, t.kids(n as int)[j])
                        },
                        None => list_has(pending@, t.kids(n as int)[j]),
                    } by {
                        lemma_next_code_facts(t, n as int, j + 1);
                        if j == k {
                            assert(pending@[p0.len() as int].id == t.kids(n as int)[j]);
                        } else {
                            if list_has(p0, t.kids(n as int)[j]) {
                                let q = choose|q: int| 0 <= q < p0.len() && #[trigger] p0[q].id == t.kids(n as int)[j];
                                assert(pending@[q] == p0[q]);
                            }
                        }
                    }
                }
            } else {
                while pending.len() > 0
                    invariant
                        map_wf(t, m),
                        map_grows(&m0, m),
            m0 == *old(m),
                        t.valid(c as int),
                        k < node.children@.len(),
                        node == &t.nodes@[n as int],
                        t.wf(),
                        t.valid(n as int),
                        c == t.kids(n as int)[k as int],
                        code_at(t, n as int, k as int),
                        moving_to(t, n as int, k as int, m, pending@),
                        no_comment_nodes(t) ==> pending@.len() == 0 && *m == m0,
                        forall|j: int|
                            0 <= j < k && t.nodes@[node.children@[j] as int].is_named && t.nodes@[node.children@[j] as int].is_extra
                                ==> map_has(m, #[trigger] node.children@[j]) || exists|q: int|
                                0 <= q < pending@.len() && pending@[q].id == node.children@[j],
                    decreases pending@.len(),
                {
                    let ghost p0 = pending@;
                    let ghost mb = *m;
                    let cm = pending.remove(0);
                    push_comment(m, c, 0, cm);
                    proof {
                        lemma_map_grows_trans(&m0, &mb, m);
                        assert forall|j: int| 0 <= j < k && comment_at(t, n as int, j) implies match #[trigger] next_code_from(t, n as int, j + 1) {
                            Some(p) => if p < k {
                                list_has(m.buckets@[t.kids(n as int)[p] as int].pre_comments@, t.kids(n as int)[j])
                            } else {
                                list_has(pending@, t.kids(n as int)[j]) || list_has(
                                    m.buckets@[t.kids(n as int)[k as int] as int].pre_comments@,
                                    t.kids(n as int)[j],
                                )
                            },
                            None => list_has(pending@, t.kids(n as int)[j]) || list_has(
                                m.buckets@[t.kids(n as int)[k as int] as int].pre_comments@,
                                t.kids(n as int)[j],
                            ),
                        } by {
                            let id = t.kids(n as int)[j];
                            match next_code_from(t, n as int, j + 1) {
                                Some(p) => {
                                    if p < k {
                                        lemma_next_code_facts(t, n as int, j + 1);
                                        let i = t.kids(n as int)[p] as int;
                                        assert(t.nodes@[n as int].children@[p] == t.kids(n as int)[p]);
                                        assert(bucket_grows(mb.buckets@[i], m.buckets@[i]));
                                        lemma_prefix_has(mb.buckets@[i].pre_comments@, m.buckets@[i].pre_comments@, id);
                                    } else {
                                        if list_has(mb.buckets@[c as int].pre_comments@, id) {
                                            lemma_prefix_has(mb.buckets@[c as int].pre_comments@, m.buckets@[c as int].pre_comments@, id);
                                        } else {
                                            let q = choose|q: int| 0 <= q < p0.len() && #[trigger] p0[q].id == id;
                                            if q > 0 {
                                                assert(pending@[q - 1] == p0[q]);
                                            } else {
                                                assert(m.buckets@[c as int].pre_comments@.last() == cm);
                                            }
                                        }
                                    }
                                },
                                None => {
                                    if list_has(mb.buckets@[c as int].pre_comments@, id) {
                                        lemma_prefix_has(mb.buckets@[c as int].pre_comments@, m.buckets@[c as int].pre_comments@, id);
                                    } else {
                                        let q = choose|q: int| 0 <= q < p0.len() && #[trigger] p0[q].id == id;
                                        if q > 0 {
                                            assert(pending@[q - 1] == p0[q]);
                                        } else {
                                            assert(m.buckets@[c as int].pre_comments@.last() == cm);
                                        }
                                    }
                                },
                            }
                        }
                        assert forall|j: int|
                            0 <= j < k && t.nodes@[node.children@[j] as int].is_named && t.nodes@[node.children@[j] as int].is_extra
                                implies map_has(m, #[trigger] node.children@[j]) || exists|q: int|
                                0 <= q < pending@.len() && pending@[q].id == node.children@[j] by {
                            if map_has(&mb, node.children@[j]) {
                                lemma_map_grows_has(&mb, m, node.children@[j]);
                            } else {
                                let q = choose|q: int| 0 <= q < p0.len() && p0[q].id == node.children@[j];
                                if q > 0 {
                                    assert(pending@[q - 1] == p0[q]);
                                }
                            }
                        }
                    }
                }
                proof {
                    assert forall|j: int| 0 <= j < k + 1 && comment_at(t, n as int, j) implies match #[trigger] next_code_from(t, n as int, j + 1) {
                        Some(p) => if p < k + 1 {
                            list_has(m.buckets@[t.kids(n as int)[p] as int].pre_comments@, t.kids(n as int)[j])
                        } else {
                            list_has(pending@, t.kids(n as int)[j])
                        },
                        None => list_has(pending@, t.kids(n as int)[j]),
                    } by {
                        if j < k {
                            lemma_next_code_split(t, n as int, j + 1, k as int);
                        }
                    }
                }
                let ghost mb = *m;
                let sub = collect_comments(t, c, m);
                proof {
                    lemma_map_grows_trans(&m0, &mb, m);
                }
                if sub.is_err() {
                    return sub;
                }
                proof {
                    lemma_map_grows_trans(&m0, &mb, m);
                    assert forall|j: int|
                        0 <= j < k + 1 && t.nodes@[node.children@[j] as int].is_named && t.nodes@[node.children@[j] as int].is_extra
                            implies map_has(m, #[trigger] node.children@[j]) || exists|q: int|
                            0 <= q < pending@.len() && pending@[q].id == node.children@[j] by {
                        if j < k {
                            lemma_map_grows_has(&mb, m, node.children@[j]);
                        }
                    }
                    assert forall|j: int| 0 <= j < k + 1 && comment_at(t, n as int, j) implies match #[trigger] next_code_from(t, n as int, j + 1) {
                        Some(p) => if p < k + 1 {
                            list_has(m.buckets@[t.kids(n as int)[p] as int].pre_comments@, t.kids(n as int)[j])
                        } else {
                            list_has(pending@, t.kids(n as int)[j])
                        },
                        None => list_has(pending@, t.kids(n as int)[j]),
                    } by {
                        if let Some(p) = next_code_from(t, n as int, j + 1) {
                            if p < k + 1 {
                                lemma_next_code_facts(t, n as int, j + 1);
                                let i = t.kids(n as int)[p] as int;
                                assert(0 <= i < mb.buckets@.len()) by {
                                    assert(t.valid(n as int));
                                }
                                lemma_prefix_has(mb.buckets@[i].pre_comments@, m.buckets@[i].pre_comments@, t.kids(n as int)[j]);
                            }
                        }
                    }
                }
                last_code = Some(c);
            }
        } else {
            proof {
                assert(!code_at(t, n as int, k as int));
                assert forall|j: int| 0 <= j < k + 1 && comment_at(t, n as int, j) implies match #[trigger] next_code_from(t, n as int, j + 1) {
                    Some(p) => if p < k + 1 {
                        list_has(m.buckets@[t.kids(n as int)[p] as int].pre_comments@, t.kids(n as int)[j])
                    } else {
                        list_has(pending@, t.kids(n as int)[j])
                    },
                    None => list_has(pending@, t.kids(n as int)[j]),
                } by {
                    lemma_next_code_facts(t, n as int, j + 1);
                }
            }
        }
        k = k + 1;
    }
    let target = match last_code {
        Some(c) => (c, 1u8),
        None => (n, 2u8),
    };
    proof {
        assert forall|j: int| 0 <= j < t.kids(n as int).len() && comment_at(t, n as int, j) implies match #[trigger] next_code_from(t, n as int, j + 1) {
            Some(p) => list_has(m.buckets@[t.kids(n as int)[p] as int].pre_comments@, t.kids(n as int)[j]),
            None => list_has(pending@, t.kids(n as int)[j]) || list_has(
                if target.1 == 1 {
                    m.buckets@[target.0 as int].post_comments@
                } else {
                    m.buckets@[target.0 as int].dangling_comments@
                },
                t.kids(n as int)[j],
            ),
        } by {
            lemma_next_code_facts(t, n as int, j + 1);
        }
    }
    while pending.len() > 0
        invariant
            map_wf(t, m),
            map_grows(&m0, m),
            m0 == *old(m),
            t.valid(target.0 as int),
            node == &t.nodes@[n as int],
            t.wf(),
            t.valid(n as int),
            target.1 == 1 || target.1 == 2,
            target.1 == 1 ==> (last_code_before(t, n as int, t.kids(n as int).len() as int) matches Some(p) && target.0
                == t.kids(n as int)[p]),
            target.1 == 2 ==> last_code_before(t, n as int, t.kids(n as int).len() as int) is None && target.0 == n,
            finishing(t, n as int, m, pending@, target.0 as int, target.1),
            no_comment_nodes(t) ==> pending@.len() == 0 && *m == m0,
            forall|j: int|
                0 <= j < node.children@.len() && t.nodes@[node.children@[j] as int].is_named && t.nodes@[node.children@[j] as int].is_extra
                    ==> map_has(m, #[trigger] node.children@[j]) || exists|q: int|
                    0 <= q < pending@.len() && pending@[q].id == node.children@[j],
        decreases pending@.len(),
    {
        let ghost p0 = pending@;
        let ghost mb = *m;
        let cm = pending.remove(0);
        push_comment(m, target.0, target.1, cm);
        proof {
            lemma_map_grows_trans(&m0, &mb, m);
            assert forall|j: int| 0 <= j < t.kids(n as int).len() && comment_at(t, n as int, j) implies match #[trigger] next_code_from(t, n as int, j + 1) {
                Some(p) => list_has(m.buckets@[t.kids(n as int)[p] as int].pre_comments@, t.kids(n as int)[j]),
                None => list_has(pending@, t.kids(n as int)[j]) || list_has(
                    if target.1 == 1 {
                        m.buckets@[target.0 as int].post_comments@
                    } else {
                        m.buckets@[target.0 as int].dangling_comments@
                    },
                    t.kids(n as int)[j],
                ),
            } by {
                let id = t.kids(n as int)[j];
                lemma_next_code_facts(t, n as int, j + 1);
                match next_code_from(t, n as int, j + 1) {
                    Some(p) => {
                        let i = t.kids(n as int)[p] as int;
                        assert(t.nodes@[n as int].children@[p] == t.kids(n as int)[p]);
                        assert(bucket_grows(mb.buckets@[i], m.buckets@[i]));
                        lemma_prefix_has(mb.buckets@[i].pre_comments@, m.buckets@[i].pre_comments@, id);
                    },
                    None => {
                        let i = target.0 as int;
                        if target.1 == 1 && list_has(mb.buckets@[i].post_comments@, id) {
                            lemma_prefix_has(mb.buckets@[i].post_comments@, m.buckets@[i].post_comments@, id);
                        } else if target.1 != 1 && list_has(mb.buckets@[i].dangling_comments@, id) {
                            lemma_prefix_has(mb.buckets@[i].dangling_comments@, m.buckets@[i].dangling_comments@, id);
                        } else {
                            let q = choose|q: int| 0 <= q < p0.len() && #[trigger] p0[q].id == id;
                            if q > 0 {
                                assert(pending@[q - 1] == p0[q]);
                            } else if target.1 == 1 {
                                assert(m.buckets@[i].post_comments@.last() == cm);
                            } else {
                                assert(m.buckets@[i].dangling_comments@.last() == cm);
                            }
                        }
                    },
                }
            }
            assert forall|j: int|
                0 <= j < node.children@.len() && t.nodes@[node.children@[j] as int].is_named && t.nodes@[node.children@[j] as int].is_extra
                    implies map_has(m, #[trigger] node.children@[j]) || exists|q: int|
                    0 <= q < pending@.len() && pending@[q].id == node.children@[j] by {
                if map_has(&mb, node.children@[j]) {
                    lemma_map_grows_has(&mb, m, node.children@[j]);
                } else {
                    let q = choose|q: int| 0 <= q < p0.len() && p0[q].id == node.children@[j];
                    if q > 0 {
                        assert(pending@[q - 1] == p0[q]);
                    }
                }
            }
        }
    }
    proof {
        lemma_last_code_facts(t, n as int, t.kids(n as int).len() as int);
        assert forall|j: int| 0 <= j < t.kids(n as int).len() && comment_at(t, n as int, j) implies #[trigger] comment_placed(t, n as int, j, m) by {
            assert(!list_has(pending@, t.kids(n as int)[j]));
        }
    }
    Ok(())
}

/// The comment map of a whole tree.
pub fn build_comment_map(t: &SyntaxTree) -> (r: Result<CommentMap, String>)
    requires
        t.wf(),
    ensures
        r matches Ok(m) ==> map_wf(t, &m) && child_comments_held(t, 0, &m),
        comments_readable(t) ==> r is Ok,
        no_comment_nodes(t) ==> (r matches Ok(m) && map_empty(&m)),
        r matches Ok(m) ==> comments_placed(t, 0, &m),
{
    let mut buckets: Vec<CommentBucket> = Vec::new();
    let mut i: usize = 0;
    while i < t.nodes.len()
        invariant
            i <= t.nodes@.len(),
            buckets@.len() == i,
            forall|j: int|
                0 <= j < i ==> (#[trigger] buckets@[j]).pre_comments@.len() == 0 && buckets@[j].post_comments@.len()
                    == 0 && buckets@[j].dangling_comments@.len() == 0,
        decreases t.nodes@.len() - i,
    {
        buckets.push(CommentBucket::new());
        i = i + 1;
    }
    let mut m = CommentMap { buckets, empty: CommentBucket::new() };
    collect_comments(t, 0, &mut m)?;
    Ok(m)
}

/// Every comment of a list has been written.
pub open spec fn list_printed(list: Seq<Comment>, st: &BuildState) -> bool {
    forall|k: int| 0 <= k < list.len() ==> #[trigger] list[k].id < st.printed@.len() && st.printed@[list[k].id as int]
}

/// Every comment of a bucket has been written.
pub open spec fn bucket_printed(b: &CommentBucket, st: &BuildState) -> bool {
    &&& list_printed(b.pre_comments@, st)
    &&& list_printed(b.post_comments@, st)
    &&& list_printed(b.dangling_comments@, st)
}

/// Every comment of the map has been written.
pub open spec fn all_printed(m: &CommentMap, st: &BuildState) -> bool {
    forall|i: int| 0 <= i < m.buckets@.len() ==> bucket_printed(#[trigger] &m.buckets@[i], st)
}

/// `id` is a comment of the bucket that has not been written.
pub open spec fn unprinted_in(b: &CommentBucket, id: usize, st: &BuildState) -> bool {
    let not_written = !(id < st.printed@.len() && st.printed@[id as int]);
    ||| exists|k: int| 0 <= k < b.pre_comments@.len() && #[trigger] b.pre_comments@[k].id == id && not_written
    ||| exists|k: int| 0 <= k < b.post_comments@.len() && #[trigger] b.post_comments@[k].id == id && not_written
    ||| exists|k: int| 0 <= k < b.dangling_comments@.len() && #[trigger] b.dangling_comments@[k].id == id && not_written
}

/// The first comment of a list that has not been written, if any.
fn first_unprinted_in(list: &Vec<Comment>, st: &BuildState) -> (r: Option<usize>)
    ensures
        r is None <==> list_printed(list@, st),
        r matches Some(id) ==> exists|k: int|
            0 <= k < list@.len() && #[trigger] list@[k].id == id && !(id < st.printed@.len() && st.printed@[id as int]),
{
    let mut j: usize = 0;
    while j < list.len()
        invariant
            j <= list@.len(),
            forall|k: int| 0 <= k < j ==> #[trigger] list@[k].id < st.printed@.len()
                && st.printed@[list@[k].id as int],
        decreases list@.len() - j,
    {
        let id = list[j].id;
        if id >= st.printed.len() || !st.printed[id] {
            assert(list@[j as int].id == id);
            return Some(id);
        }
        j = j + 1;
    }
    None
}

proof fn lemma_not_all_printed(m: &CommentMap, st: &BuildState, i: int)
    requires
        0 <= i < m.buckets@.len(),
        !bucket_printed(&m.buckets@[i], st),
    ensures
        !all_printed(m, st),
{
}

/// A comment of the map that has not been written, if any.
pub fn first_unprinted(m: &CommentMap, st: &BuildState) -> (r: Option<usize>)
    ensures
        r is None <==> all_printed(m, st),
        r matches Some(id) ==> exists|i: int| 0 <= i < m.buckets@.len() && #[trigger] unprinted_in(&m.buckets@[i], id, st),
{
    let mut i: usize = 0;
    while i < m.buckets.len()
        invariant
            i <= m.buckets@.len(),
            forall|x: int| 0 <= x < i ==> bucket_printed(#[trigger] &m.buckets@[x], st),
        decreases m.buckets@.len() - i,
    {
        let b = &m.buckets[i];
        if let Some(id) = first_unprinted_in(&b.pre_comments, st) {
            assert(unprinted_in(&m.buckets@[i as int], id, st));
            proof { lemma_not_all_printed(m, st, i as int); }
            return Some(id);
        }
        if let Some(id) = first_unprinted_in(&b.post_comments, st) {
            assert(unprinted_in(&m.buckets@[i as int], id, st));
            proof { lemma_not_all_printed(m, st, i as int); }
            return Some(id);
        }
        if let Some(id) = first_unprinted_in(&b.dangling_comments, st) {
            assert(unprinted_in(&m.buckets@[i as int], id, st));
            proof { lemma_not_all_printed(m, st, i as int); }
            return Some(id);
        }
        assert(bucket_printed(&m.buckets@[i as int], st));
        i = i + 1;
    }
    None
}

// ---------------------------------------------------------------------------
// Documents of comments.
// ---------------------------------------------------------------------------
/// The lines of a text split at `\n`.
pub open spec fn split_lines(s: Seq<char>) -> Seq<Seq<char>>
    decreases s.len(),
{
    if s.len() == 0 {
        seq![Seq::empty()]
    } else {
        let rest = split_lines(s.drop_last());
        if s.last() == '\n' {
            rest.push(Seq::empty())
        } else {
            rest.update(rest.len() - 1, rest.last().push(s.last()))
        }
    }
}

pub proof fn lemma_split_lines_nonempty(s: Seq<char>)
    ensures
        split_lines(s).len() > 0,
    decreases s.len(),
{
    if s.len() > 0 {
        lemma_split_lines_nonempty(s.drop_last());
    }
}

/// The lines of a text, as (start, end) character ranges.
fn line_ranges(cs: &[char]) -> (r: Vec<(usize, usize)>)
    ensures
        r@.len() == split_lines(cs@).len(),
        forall|i: int|
            #![trigger r@[i]] 0 <= i < r@.len() ==> r@[i].0 <= r@[i].1 <= cs@.len() && cs@.subrange(
                r@[i].0 as int,
                r@[i].1 as int,
            ) == split_lines(cs@)[i],
{
    let mut r: Vec<(usize, usize)> = Vec::new();
    r.push((0, 0));
    let mut k: usize = 0;
    assert(cs@.subrange(0, 0) =~= Seq::<char>::empty());
    while k < cs.len()
        invariant
            k <= cs@.len(),
            r@.len() == split_lines(cs@.subrange(0, k as int)).len(),
            r@.len() > 0,
            r@.last().1 == k,
            forall|i: int|
                #![trigger r@[i]] 0 <= i < r@.len() ==> r@[i].0 <= r@[i].1 <= k && cs@.subrange(
                    r@[i].0 as int,
                    r@[i].1 as int,
                ) == split_lines(cs@.subrange(0, k as int))[i],
        decreases cs@.len() - k,
    {
        let ghost prefix = cs@.subrange(0, k as int);
        let ghost next = cs@.subrange(0, k + 1);
        let ghost r0 = r@;
        assert(next.drop_last() =~= prefix);
        proof { lemma_split_lines_nonempty(prefix); }
        let c = cs[k];
        assert(next.last() == c);
        if c == '\n' {
            r.push((k + 1, k + 1));
            proof {
                assert(split_lines(next) == split_lines(prefix).push(Seq::empty()));
                assert forall|i: int| #![trigger r@[i]] 0 <= i < r@.len() implies r@[i].0 <= r@[i].1 <= k + 1
                    && cs@.subrange(r@[i].0 as int, r@[i].1 as int) == split_lines(next)[i] by {
                    if i == r@.len() - 1 {
                        assert(cs@.subrange(k + 1, k + 1) =~= Seq::<char>::empty());
                    } else {
                        assert(r@[i] == r0[i]);
                        assert(r0[i].0 <= r0[i].1 <= k);
                        assert(split_lines(next)[i] == split_lines(prefix)[i]);
                    }
                }
            }
        } else {
            let last = r.len() - 1;
            let (s0, _) = r[last];
            r.set(last, (s0, k + 1));
            proof {
                let rest = split_lines(prefix);
                assert(split_lines(next) == rest.update(rest.len() - 1, rest.last().push(c)));
                assert forall|i: int| #![trigger r@[i]] 0 <= i < r@.len() implies r@[i].0 <= r@[i].1 <= k + 1
                    && cs@.subrange(r@[i].0 as int, r@[i].1 as int) == split_lines(next)[i] by {
                    if i == r@.len() - 1 {
                        assert(r0[i] == r0.last());
                        assert(cs@.subrange(s0 as int, k as int) == rest.last());
                        assert(cs@.subrange(s0 as int, k + 1) =~= cs@.subrange(s0 as int, k as int).push(c));
                    } else {
                        assert(r@[i] == r0[i]);
                        assert(r0[i].0 <= r0[i].1 <= k);
                        assert(split_lines(next)[i] == rest[i]);
                    }
                }
            }
        }
        k = k + 1;
    }
    assert(cs@.subrange(0, cs@.len() as int) =~= cs@);
    assert forall|i: int| #![trigger r@[i]] 0 <= i < r@.len() implies r@[i].0 <= r@[i].1 <= cs@.len()
        && cs@.subrange(r@[i].0 as int, r@[i].1 as int) == split_lines(cs@)[i] by {
        assert(r@[i].0 <= r@[i].1 <= k);
    }
    r
}

/// The star that opens the continuation lines of a JavaDoc comment.
pub open spec fn star_prefix(star: JavadocStarColumn) -> Seq<char> {
    match star {
        JavadocStarColumn::Offset => " *"@,
        JavadocStarColumn::Flush => "*"@,
    }
}

/// A continuation line of a JavaDoc comment: the star, then nothing, the
/// closing `/`, or one space and content that starts with no white space.
pub open spec fn javadoc_line_ok(t: Seq<char>, star: Seq<char>) -> bool {
    let rest = t.subrange(star.len() as int, t.len() as int);
    &&& star.is_prefix_of(t)
    &&& (rest.len() == 0 || rest == seq!['/'] || (rest.len() >= 2 && rest[0] == ' ' && !is_ws(rest[1])))
}

/// Texts and line breaks alternate, starting and ending with a text.
pub open spec fn lines_alternate<'a>(parts: Seq<DocRef<'a>>) -> bool {
    &&& parts.len() % 2 == 1
    &&& forall|k: int| 0 <= k < parts.len() ==> (*#[trigger] parts[k] == Doc::Newline <==> k % 2 == 1)
}

/// The parts after position `from` are newlines and continuation lines.
pub open spec fn javadoc_parts_ok<'a>(parts: Seq<DocRef<'a>>, from: int, star: Seq<char>) -> bool {
    forall|k: int|
        from < k < parts.len() ==> (*#[trigger] parts[k] == Doc::Newline || (*parts[k] matches Doc::Text(
            t,
            _,
        ) && javadoc_line_ok(t@, star)))
}

proof fn lemma_star_only_ok(star: Seq<char>)
    ensures
        javadoc_line_ok(star, star),
        javadoc_line_ok(star + seq!['/'], star),
{
    assert(star.subrange(star.len() as int, star.len() as int) =~= Seq::<char>::empty());
    let c = star + seq!['/'];
    assert(c.subrange(0, star.len() as int) =~= star);
    assert(c.subrange(star.len() as int, c.len() as int) =~= seq!['/']);
}

proof fn lemma_star_content_ok(star: Seq<char>, content: Seq<char>)
    requires
        content.len() > 0,
        !is_ws(content[0]),
    ensures
        javadoc_line_ok(star + seq![' '] + content, star),
{
    let t = star + seq![' '] + content;
    assert(t.subrange(0, star.len() as int) =~= star);
    assert(t.subrange(star.len() as int, t.len() as int) =~= seq![' '] + content);
}

/// Whether all parts of a concatenation are texts or newlines, texts
/// following `texts_ok`.
pub open spec fn texts_and_newlines<'a>(parts: Seq<DocRef<'a>>) -> bool {
    forall|i: int| 0 <= i < parts.len() ==> (*#[trigger] parts[i] is Text || *parts[i] == Doc::Newline)
}

/// The lines of a regular block comment: each trimmed, joined by newlines.
pub open spec fn block_lines_ok<'a>(parts: Seq<DocRef<'a>>, value: Seq<char>) -> bool {
    let lines = split_lines(value);
    &&& parts.len() == 2 * lines.len() - 1
    &&& forall|i: int| 0 <= i < lines.len() ==> is_text(*#[trigger] parts[2 * i], trim(lines[i]))
    &&& forall|i: int| 0 <= i < lines.len() - 1 ==> *#[trigger] parts[2 * i + 1] == Doc::Newline
}

/// The trimmed lines of a comment.
pub open spec fn jd_lines(value: Seq<char>) -> Seq<Seq<char>> {
    split_lines(value).map_values(|l: Seq<char>| trim(l))
}

/// Text after `/**` on the opening line of a JavaDoc comment, trimmed, where
/// there is any.
pub open spec fn jd_content0(value: Seq<char>) -> Option<Seq<char>> {
    let l0 = jd_lines(value)[0];
    if l0.len() > 3 && trim(l0.subrange(3, l0.len() as int)).len() > 0 {
        Some(trim(l0.subrange(3, l0.len() as int)))
    } else {
        None
    }
}

/// One line more where text follows `/**`.
pub open spec fn jd_extra(value: Seq<char>) -> int {
    if jd_content0(value) is Some {
        1
    } else {
        0
    }
}

/// A line of a JavaDoc comment between its first and last: the star alone
/// for an empty line or a bare star; else the star, one space, and the
/// content without its star and the white space after it.
pub open spec fn jd_middle(l: Seq<char>, star: Seq<char>) -> Seq<char> {
    if l.len() == 0 {
        star
    } else if l[0] == '*' {
        let c = trim(l.subrange(1, l.len() as int));
        if c.len() == 0 {
            star
        } else {
            star + seq![' '] + c
        }
    } else {
        star + seq![' '] + l
    }
}

/// The last line of a JavaDoc comment: its content before `*/`, where it
/// has any, on a line of its own, then the star and `/`.
pub open spec fn jd_last(l: Seq<char>, star: Seq<char>) -> Seq<Seq<char>> {
    if l.len() >= 2 && l[l.len() - 1] == '/' && l[l.len() - 2] == '*' {
        let c = trim(l.subrange(0, l.len() - 2));
        if c.len() == 0 {
            seq![star + seq!['/']]
        } else {
            seq![star + seq![' '] + c, star + seq!['/']]
        }
    } else {
        seq![star + seq!['/']]
    }
}

/// Line `i` of a JavaDoc comment once text after `/**` is moved to a line
/// of its own, the second.
pub open spec fn jd_line(value: Seq<char>, i: int) -> Seq<char> {
    let extra = jd_extra(value);
    if i == 1 && extra == 1 {
        jd_content0(value)->0
    } else {
        jd_lines(value)[i - extra]
    }
}

/// The texts written for step `i` of a JavaDoc comment: the opening line,
/// then each further line, the text moved off the opening line among them,
/// as a line between the first and the last or as the last.
pub open spec fn jd_step(value: Seq<char>, star: Seq<char>, i: int) -> Seq<Seq<char>> {
    let ls = jd_lines(value);
    let extra = jd_extra(value);
    let total = ls.len() + extra;
    if i == 0 {
        if jd_content0(value) is Some {
            seq!["/**"@]
        } else {
            seq![ls[0]]
        }
    } else if i == total - 1 {
        jd_last(jd_line(value, i), star)
    } else {
        seq![jd_middle(jd_line(value, i), star)]
    }
}

/// The texts of the first `i` steps.
pub open spec fn jd_upto(value: Seq<char>, star: Seq<char>, i: int) -> Seq<Seq<char>>
    decreases i,
{
    if i <= 0 {
        Seq::empty()
    } else {
        jd_upto(value, star, i - 1) + jd_step(value, star, i - 1)
    }
}

/// The lines of a JavaDoc comment as they are written, with the configured
/// star: `/**`, then each line normalised (see `jd_middle` and `jd_last`).
pub open spec fn javadoc_texts(value: Seq<char>, star: Seq<char>) -> Seq<Seq<char>> {
    jd_upto(value, star, jd_lines(value).len() + jd_extra(value))
}

/// The parts are the texts, one after another with a newline between each
/// two.
pub open spec fn lines_are<'a>(parts: Seq<DocRef<'a>>, texts: Seq<Seq<char>>) -> bool {
    &&& parts.len() == 2 * texts.len() - 1
    &&& forall|k: int| 0 <= k < texts.len() ==> is_text(*#[trigger] parts[2 * k], texts[k])
    &&& forall|k: int| 0 <= k < texts.len() - 1 ==> *#[trigger] parts[2 * k + 1] == Doc::Newline
}

/// The document of comment `c`, as `Comment::build` writes it with the
/// star of `star`.
pub open spec fn comment_doc<'a>(d: Doc<'a>, c: Comment, star: JavadocStarColumn) -> bool {
    let v = c.value@;
    let javadoc = "/**"@.len() <= v.len() && v.subrange(0, "/**"@.len() as int) == "/**"@;
    &&& d is Concat
    &&& c.comment_type == CommentType::Line ==> concat_parts(d).len() == 2 && is_text(*concat_parts(d)[0], v)
        && *concat_parts(d)[1] == Doc::Newline
    &&& c.comment_type == CommentType::Block && !javadoc ==> block_lines_ok(concat_parts(d), v)
    &&& c.comment_type == CommentType::Block && javadoc && split_lines(v).len() < usize::MAX ==> lines_are(
        concat_parts(d),
        javadoc_texts(v, star_prefix(star)),
    )
}

impl Comment {
    /// The document of a comment. A line comment is its text and a newline.
    /// A regular block comment is its lines, each trimmed, joined by newlines.
    /// A JavaDoc comment (`/**`) opens with `/**`, moves text after `/**` to a
    /// line of its own, written as the other lines are (as the last line where
    /// nothing follows it), and starts every further line with the configured star:
    /// an empty line becomes the star alone, a line with content the star, one
    /// space and the content (its own star and the spaces after it dropped),
    /// and the closing line the star and `/` (see `javadoc_texts`).
    pub fn build<'a>(&self, b: &'a DocBuilder<'a>) -> (r: DocRef<'a>)
        ensures
            *r is Concat,
            self.comment_type == CommentType::Line ==> concat_parts(*r).len() == 2 && is_text(
                *concat_parts(*r)[0],
                self.value@,
            ) && *concat_parts(*r)[1] == Doc::Newline,
            self.comment_type == CommentType::Block && !("/**"@.len() <= self.value@.len()
                && self.value@.subrange(0, "/**"@.len() as int) == "/**"@) ==> block_lines_ok(
                concat_parts(*r),
                self.value@,
            ),
            self.comment_type == CommentType::Block && ("/**"@.len() <= self.value@.len()
                && self.value@.subrange(0, "/**"@.len() as int) == "/**"@) ==> javadoc_parts_ok(
                concat_parts(*r),
                0,
                star_prefix(b.config.javadoc_star_column),
            ),
            self.comment_type == CommentType::Block && ("/**"@.len() <= self.value@.len()
                && self.value@.subrange(0, "/**"@.len() as int) == "/**"@) && split_lines(self.value@).len() < usize::MAX
                ==> lines_are(concat_parts(*r), javadoc_texts(self.value@, star_prefix(b.config.javadoc_star_column))),
            comment_doc(*r, *self, b.config.javadoc_star_column),
            texts_and_newlines(concat_parts(*r)),
    {
        let mut result: Vec<DocRef<'a>> = Vec::new();
        match self.comment_type {
            CommentType::Line => {
                let t = b.txt(self.value.as_str());
                result.push(t);
                let n = b.nl();
                result.push(n);
            },
            CommentType::Block => {
                let cs = chars_of(self.value.as_str());
                let lines = line_ranges(cs.as_slice());
                proof { lemma_split_lines_nonempty(cs@); }
                if starts_with(cs.as_slice(), "/**") {
                    self.build_javadoc(b, &cs, &lines, &mut result);
                } else {
                    let mut i: usize = 0;
                    while i < lines.len()
                        invariant
                            cs@ == self.value@,
                            lines@.len() == split_lines(cs@).len(),
                            lines@.len() > 0,
                            forall|j: int|
                                0 <= j < lines@.len() ==> #[trigger] lines@[j].0 <= lines@[j].1
                                    <= cs@.len() && cs@.subrange(lines@[j].0 as int, lines@[j].1 as int)
                                    == split_lines(cs@)[j],
                            i <= lines@.len(),
                            result@.len() == if i == 0 { 0 } else { 2 * i - 1 },
                            forall|j: int| 0 <= j < i ==> is_text(*#[trigger] result@[2 * j], trim(split_lines(cs@)[j])),
                            forall|j: int| 0 <= j < i - 1 ==> *#[trigger] result@[2 * j + 1] == Doc::Newline,
                            texts_and_newlines(result@),
                        decreases lines@.len() - i,
                    {
                        let (s, e) = lines[i];
                        let (a, z) = trim_bounds(cs.as_slice(), s, e);
                        let line = string_of_chars(cs.as_slice(), a, z);
                        if i > 0 {
                            let n = b.nl();
                            result.push(n);
                        }
                        let t = b.txt_string(line);
                        result.push(t);
                        i = i + 1;
                    }
                }
            },
        }
        b.concat(result)
    }

    /// The texts of a JavaDoc comment, with newlines between them.
    #[verifier::spinoff_prover]
    #[verifier::rlimit(40)]
    fn build_javadoc<'a>(&self, b: &'a DocBuilder<'a>, cs: &Vec<char>, lines: &Vec<(usize, usize)>, result: &mut Vec<DocRef<'a>>)
        requires
            forall|j: int|
                0 <= j < lines@.len() ==> #[trigger] lines@[j].0 <= lines@[j].1 <= cs@.len() && cs@.subrange(
                    lines@[j].0 as int,
                    lines@[j].1 as int,
                ) == split_lines(cs@)[j],
            lines@.len() == split_lines(cs@).len(),
            lines@.len() > 0,
            texts_and_newlines(old(result)@),
            old(result)@.len() == 0,
        ensures
            texts_and_newlines(final(result)@),
            javadoc_parts_ok(final(result)@, 0, star_prefix(b.config.javadoc_star_column)),
            lines@.len() < usize::MAX ==> lines_alternate(final(result)@) && final(result)@.len() >= 2 * lines@.len() - 1,
            lines@.len() < usize::MAX ==> lines_are(final(result)@, javadoc_texts(cs@, star_prefix(b.config.javadoc_star_column))),
    {
        let ghost star = star_prefix(b.config.javadoc_star_column);
        let star_only = match b.config.javadoc_star_column {
            JavadocStarColumn::Offset => " *",
            JavadocStarColumn::Flush => "*",
        };
        let star_space = match b.config.javadoc_star_column {
            JavadocStarColumn::Offset => " * ",
            JavadocStarColumn::Flush => "* ",
        };
        let closing = match b.config.javadoc_star_column {
            JavadocStarColumn::Offset => " */",
            JavadocStarColumn::Flush => "*/",
        };
        proof {
            reveal_strlit(" *");
            reveal_strlit("*");
            reveal_strlit(" * ");
            reveal_strlit("* ");
            reveal_strlit(" */");
            reveal_strlit("*/");
            assert(star_only@ =~= star);
            assert(star_space@ =~= star + seq![' ']);
            assert(closing@ =~= star + seq!['/']);
            lemma_star_only_ok(star);
        }
        // The first line, split when text follows `/**`.
        let (s0, e0) = lines[0];
        let (a0, z0) = trim_bounds(cs.as_slice(), s0, e0);
        let ghost ls = jd_lines(cs@);
        assert(cs@.subrange(a0 as int, z0 as int) == ls[0]);
        let mut first_content: Option<(usize, usize)> = None;
        if z0 - a0 > 3 {
            let (ca, cz) = trim_bounds(cs.as_slice(), a0 + 3, z0);
            assert(cs@.subrange(a0 + 3, z0 as int) =~= ls[0].subrange(3, ls[0].len() as int));
            if cz > ca {
                first_content = Some((ca, cz));
            }
        }
        assert(first_content is Some <==> jd_content0(cs@) is Some);
        let count: usize = lines.len();
        // the logical lines: the opening line, optional moved content, the rest
        let extra: usize = if first_content.is_some() { 1 } else { 0 };
        if count > usize::MAX - 1 {
            return;
        }
        let total = count + extra;
        let mut i: usize = 0;
        let ghost mut texts: Seq<Seq<char>> = Seq::empty();
        while i < total
            invariant
                forall|j: int|
                    0 <= j < lines@.len() ==> #[trigger] lines@[j].0 <= lines@[j].1 <= cs@.len() && cs@.subrange(
                        lines@[j].0 as int,
                        lines@[j].1 as int,
                    ) == split_lines(cs@)[j],
                ls == jd_lines(cs@),
                ls.len() == count,
                extra == jd_extra(cs@),
                first_content matches Some(fc) ==> cs@.subrange(fc.0 as int, fc.1 as int) == jd_content0(cs@)->0,
                first_content is Some <==> jd_content0(cs@) is Some,
                cs@.subrange(a0 as int, z0 as int) == ls[0],
                texts == jd_upto(cs@, star, i as int),
                result@.len() == (if i == 0 { 0int } else if i < total { 2 * texts.len() as int } else { 2 * texts.len() - 1 }),
                forall|k: int| 0 <= k < texts.len() ==> is_text(*#[trigger] result@[2 * k], texts[k]),
                forall|j: int|
                    0 <= j < lines@.len() ==> #[trigger] lines@[j].0 <= lines@[j].1 <= cs@.len(),
                lines@.len() == count,
                count > 0,
                total == count + extra,
                extra <= 1,
                i <= total,
                first_content matches Some(fc) ==> fc.0 < fc.1 <= cs@.len() && !is_ws(cs@[fc.0 as int]),
                a0 <= z0 <= cs@.len(),
                texts_and_newlines(result@),
                star == star_prefix(b.config.javadoc_star_column),
                star_only@ == star,
                star_space@ == star + seq![' '],
                closing@ == star + seq!['/'],
                javadoc_line_ok(star, star),
                javadoc_line_ok(star + seq!['/'], star),
                javadoc_parts_ok(result@, 0, star),
                i > 0 ==> result@.len() > 0,
                i == 0 ==> result@.len() == 0,
                forall|k: int| 0 <= k < result@.len() ==> (*#[trigger] result@[k] == Doc::Newline <==> k % 2 == 1),
                0 < i < total ==> result@.len() % 2 == 0 && result@.len() >= 2 * i,
                i == total ==> result@.len() % 2 == 1 && result@.len() >= 2 * i - 1,
            decreases total - i,
        {
            let ghost r0 = result@;
            let ghost texts0 = texts;
            let ghost step = jd_step(cs@, star, i as int);
            if i == 0 {
                if first_content.is_some() {
                    let t = b.txt("/**");
                    push_javadoc_part(result, t, Ghost(star));
                } else {
                    let line = string_of_chars(cs.as_slice(), a0, z0);
                    let t = b.txt_string(line);
                    push_javadoc_part(result, t, Ghost(star));
                }
                proof {
                    texts = texts.push(step[0]);
                }
            } else {
                let (a, z) = if i == 1 && first_content.is_some() {
                    first_content.unwrap()
                } else {
                    let (s, e) = lines[i - extra];
                    trim_bounds(cs.as_slice(), s, e)
                };
                let ghost l = jd_line(cs@, i as int);
                assert(cs@.subrange(a as int, z as int) == l);
                if i == total - 1 {
                    // the closing line
                    if z - a >= 2 && cs[z - 1] == '/' && cs[z - 2] == '*' {
                        let (ca, cz) = trim_bounds(cs.as_slice(), a, z - 2);
                        assert(l[l.len() - 1] == cs@[z - 1] && l[l.len() - 2] == cs@[z - 2]);
                        assert(cs@.subrange(a as int, z - 2) =~= l.subrange(0, l.len() - 2));
                        if cz == ca {
                            let t = b.txt(closing);
                            push_javadoc_part(result, t, Ghost(star));
                            proof {
                                texts = texts.push(step[0]);
                            }
                        } else {
                            let content = string_of_chars(cs.as_slice(), ca, cz);
                            proof { lemma_star_content_ok(star, content@); }
                            let t = b.txt_string(concat2(star_space, content.as_str()));
                            push_javadoc_part(result, t, Ghost(star));
                            let n = b.nl();
                            push_javadoc_part(result, n, Ghost(star));
                            let t2 = b.txt(closing);
                            push_javadoc_part(result, t2, Ghost(star));
                            proof {
                                texts = texts.push(step[0]).push(step[1]);
                            }
                        }
                    } else {
                        assert(!(l.len() >= 2 && l[l.len() - 1] == '/' && l[l.len() - 2] == '*'));
                        let t = b.txt(closing);
                        push_javadoc_part(result, t, Ghost(star));
                        proof {
                            texts = texts.push(step[0]);
                        }
                    }
                } else if z == a {
                    let t = b.txt(star_only);
                    push_javadoc_part(result, t, Ghost(star));
                    proof {
                        texts = texts.push(step[0]);
                    }
                } else if cs[a] == '*' {
                    let (ca, cz) = trim_bounds(cs.as_slice(), a + 1, z);
                    assert(l[0] == cs@[a as int]);
                    assert(cs@.subrange(a + 1, z as int) =~= l.subrange(1, l.len() as int));
                    if cz == ca {
                        let t = b.txt(star_only);
                        push_javadoc_part(result, t, Ghost(star));
                    } else {
                        let content = string_of_chars(cs.as_slice(), ca, cz);
                        proof { lemma_star_content_ok(star, content@); }
                        let t = b.txt_string(concat2(star_space, content.as_str()));
                        push_javadoc_part(result, t, Ghost(star));
                    }
                    proof {
                        texts = texts.push(step[0]);
                    }
                } else {
                    assert(l[0] == cs@[a as int]);
                    let content = string_of_chars(cs.as_slice(), a, z);
                    proof { lemma_star_content_ok(star, content@); }
                    let t = b.txt_string(concat2(star_space, content.as_str()));
                    push_javadoc_part(result, t, Ghost(star));
                    proof {
                        texts = texts.push(step[0]);
                    }
                }
            }
            proof {
                assert(texts =~= texts0 + step);
                assert(jd_upto(cs@, star, i + 1) == jd_upto(cs@, star, i as int) + jd_step(cs@, star, i as int));
            }
            if i + 1 < total {
                let n = b.nl();
                push_javadoc_part(result, n, Ghost(star));
            }
            i = i + 1;
        }
    }
}

// ---------------------------------------------------------------------------
// Punctuation.
// ---------------------------------------------------------------------------
#[derive(Clone, Copy, PartialEq, Eq, Structural, Debug)]
pub enum PuncuationType {
    Comma,
    Semicolon,
}

/// A `,` or `;` that follows or closes a node.
#[derive(Clone, Copy)]
pub struct Punctuation {
    pub type_: PuncuationType,
    pub id: usize,
}

/// The text of a punctuation mark.
pub open spec fn punc_text(t: PuncuationType) -> Seq<char> {
    match t {
        PuncuationType::Comma => ","@,
        PuncuationType::Semicolon => ";"@,
    }
}

/// `d` is a concatenation with the text `mark` among its parts.
pub open spec fn has_mark<'a>(d: Doc<'a>, mark: Seq<char>) -> bool {
    &&& d is Concat
    &&& exists|k: int| 0 <= k < concat_parts(d).len() && #[trigger] is_text(*concat_parts(d)[k], mark)
}

pub open spec fn is_punc_kind(k: Seq<char>) -> bool {
    k == ","@ || k == ";"@
}

/// The first child of `n`, from position `k` on, that is a `,` or a `;`.
pub open spec fn punc_child_from(t: &SyntaxTree, n: int, k: int) -> Option<usize>
    decreases t.nodes@[n].children@.len() - k,
{
    if k < 0 || k >= t.nodes@[n].children@.len() {
        None
    } else if is_punc_kind(t.nodes@[t.nodes@[n].children@[k] as int].kind@) {
        Some(t.nodes@[n].children@[k])
    } else {
        punc_child_from(t, n, k + 1)
    }
}

/// The punctuation after node `n`: the first following sibling that is no
/// extra, when it is a `,` or a `;`; the search takes at most `fuel` steps.
pub open spec fn punc_after(t: &SyntaxTree, n: int, fuel: nat) -> Option<usize>
    decreases fuel,
{
    if fuel == 0 {
        None
    } else {
        match crate::accessor::next_where(t, n, false, false) {
            None => None,
            Some(next) => if t.nodes@[next as int].is_extra {
                punc_after(t, next as int, (fuel - 1) as nat)
            } else if is_punc_kind(t.nodes@[next as int].kind@) {
                Some(next)
            } else {
                None
            },
        }
    }
}

/// Whether a node is a `,` or a `;`.
pub fn is_punctuation_node(t: &SyntaxTree, n: usize) -> (r: bool)
    requires
        t.valid(n as int),
    ensures
        r == is_punc_kind(t.nodes@[n as int].kind@),
{
    kind_is(t, n, ",") || kind_is(t, n, ";")
}

impl Punctuation {
    /// The punctuation of a `,` or `;` node; an error for another node.
    pub fn new(t: &SyntaxTree, n: usize) -> (r: Result<Self, String>)
        requires
            t.valid(n as int),
        ensures
            r is Ok <==> is_punc_kind(t.nodes@[n as int].kind@),
            r matches Ok(p) ==> p.id == n && (p.type_ == PuncuationType::Comma <==> t.nodes@[n as int].kind@ == ","@),
    {
        if kind_is(t, n, ",") {
            Ok(Punctuation { type_: PuncuationType::Comma, id: n })
        } else if kind_is(t, n, ";") {
            proof {
                reveal_strlit(",");
                reveal_strlit(";");
            }
            Ok(Punctuation { type_: PuncuationType::Semicolon, id: n })
        } else {
            Err(crate::utility::panic_unknown_node(t, n, "Puncuation"))
        }
    }

    /// The punctuation that follows a node, comments skipped: the next sibling
    /// that is no comment, when it is a `,` or a `;`.
    pub fn from(t: &SyntaxTree, n: usize) -> (r: Option<Self>)
        requires
            t.wf(),
            t.valid(n as int),
        ensures
            r matches Some(p) ==> t.valid(p.id as int) && is_punc_kind(t.nodes@[p.id as int].kind@),
            r is Some <==> punc_after(t, n as int, t.nodes@.len() as nat) is Some,
            r matches Some(p) ==> punc_after(t, n as int, t.nodes@.len() as nat) == Some(p.id)
                && (p.type_ == PuncuationType::Comma <==> t.nodes@[p.id as int].kind@ == ","@),
    {
        let mut current = n;
        let mut fuel = t.nodes.len();
        while fuel > 0
            invariant
                t.wf(),
                t.valid(current as int),
                punc_after(t, current as int, fuel as nat) == punc_after(t, n as int, t.nodes@.len() as nat),
            decreases fuel,
        {
            fuel = fuel - 1;
            match next_sibling(t, current) {
                None => return None,
                Some(next) => {
                    if t.nodes[next].is_extra {
                        current = next;
                    } else if is_punctuation_node(t, next) {
                        return match Punctuation::new(t, next) {
                            Ok(p) => Some(p),
                            Err(_) => None,
                        };
                    } else {
                        return None;
                    }
                },
            }
        }
        None
    }

    /// The punctuation inside a node: its first child that is a `,` or a `;`.
    pub fn from_inner(t: &SyntaxTree, n: usize) -> (r: Option<Self>)
        requires
            t.wf(),
            t.valid(n as int),
        ensures
            r matches Some(p) ==> t.valid(p.id as int) && is_punc_kind(t.nodes@[p.id as int].kind@),
            r is Some <==> punc_child_from(t, n as int, 0) is Some,
            r matches Some(p) ==> punc_child_from(t, n as int, 0) == Some(p.id)
                && (p.type_ == PuncuationType::Comma <==> t.nodes@[p.id as int].kind@ == ","@),
    {
        let node = &t.nodes[n];
        let mut k: usize = 0;
        while k < node.children.len()
            invariant
                t.wf(),
                t.valid(n as int),
                node == &t.nodes@[n as int],
                k <= node.children@.len(),
                punc_child_from(t, n as int, k as int) == punc_child_from(t, n as int, 0),
            decreases node.children@.len() - k,
        {
            let c = node.children[k];
            assert(t.nodes@[n as int].children@[k as int] == c);
            if is_punctuation_node(t, c) {
                return match Punctuation::new(t, c) {
                    Ok(p) => Some(p),
                    Err(_) => None,
                };
            }
            k = k + 1;
        }
        None
    }
}

/// A blank line: a newline with no indent, then a newline.
pub fn empty_new_line<'a>(b: &'a DocBuilder<'a>) -> (r: DocRef<'a>)
    ensures
        *r is Concat && concat_parts(*r).len() == 2 && *concat_parts(*r)[0] == Doc::NewlineWithNoIndent
            && *concat_parts(*r)[1] == Doc::Newline,
{
    let mut v: Vec<DocRef<'a>> = Vec::new();
    let a = b.nl_with_no_indent();
    v.push(a);
    let n = b.nl();
    v.push(n);
    b.concat(v)
}

/// Writes a comment that follows other content: a space when it shares the
/// line, a blank line when one precedes it, else a line break; then the
/// comment, and a space when a block comment is followed on its line by
/// content that opens with no bracket.
pub fn push_following_comment<'a>(b: &'a DocBuilder<'a>, comment: &Comment, result: &mut Vec<DocRef<'a>>)
    ensures
        final(result)@.len() >= old(result)@.len() + 2,
        forall|i: int| 0 <= i < old(result)@.len() ==> #[trigger] final(result)@[i] == old(result)@[i],
        final(result)@ == old(result)@ + final(result)@.skip(old(result)@.len() as int),
        following_parts(final(result)@.skip(old(result)@.len() as int), *comment, b.config.javadoc_star_column),
{
    let ghost r0 = result@;
    if comment.has_leading_content() {
        let s = b.txt(" ");
        result.push(s);
    } else if comment.has_newline_above() {
        let e = empty_new_line(b);
        result.push(e);
    } else {
        let n = b.nl();
        result.push(n);
    }
    let c = comment.build(b);
    result.push(c);
    if comment.has_trailing_content() && !comment.is_followed_by_bracket_composite_node() {
        let s = b.txt(" ");
        result.push(s);
    }
    assert(result@ =~= r0 + result@.skip(r0.len() as int));
}

/// How many parts `push_following_comment` writes for a comment.
pub open spec fn following_len(c: Comment) -> int {
    if c.metadata.has_trailing_content && !c.metadata.is_followed_by_bracket_composite_node {
        3
    } else {
        2
    }
}

/// The parts written for a comment that follows other content: a space
/// when it shares the line, an empty line when one precedes it, else a
/// line break; then the comment; then a space when a block comment is
/// followed on its line by content that opens with no bracket.
pub open spec fn following_parts<'a>(parts: Seq<DocRef<'a>>, c: Comment, star: JavadocStarColumn) -> bool {
    &&& parts.len() == following_len(c)
    &&& if c.metadata.has_leading_content {
        is_text(*parts[0], " "@)
    } else if c.metadata.has_empty_line_above {
        *parts[0] is Concat && concat_parts(*parts[0]).len() == 2 && *concat_parts(*parts[0])[0] == Doc::NewlineWithNoIndent
            && *concat_parts(*parts[0])[1] == Doc::Newline
    } else {
        *parts[0] == Doc::Newline
    }
    &&& comment_doc(*parts[1], c, star)
    &&& parts.len() == 3 ==> is_text(*parts[2], " "@)
}

/// The parts are those written for each comment of the list in turn.
pub open spec fn comment_run<'a>(parts: Seq<DocRef<'a>>, list: Seq<Comment>, star: JavadocStarColumn) -> bool
    decreases list.len(),
{
    if list.len() == 0 {
        parts.len() == 0
    } else {
        let n = following_len(list[0]);
        &&& parts.len() >= n
        &&& following_parts(parts.take(n), list[0], star)
        &&& comment_run(parts.skip(n), list.skip(1), star)
    }
}

/// Writing the parts of one more comment extends a run.
proof fn lemma_comment_run_push<'a>(a: Seq<DocRef<'a>>, list: Seq<Comment>, p: Seq<DocRef<'a>>, c: Comment, star: JavadocStarColumn)
    requires
        comment_run(a, list, star),
        following_parts(p, c, star),
    ensures
        comment_run(a + p, list.push(c), star),
    decreases list.len(),
{
    let l2 = list.push(c);
    if list.len() == 0 {
        assert(a =~= Seq::<DocRef<'a>>::empty());
        assert(a + p =~= p);
        assert(l2[0] == c);
        assert((a + p).take(p.len() as int) =~= p);
        assert((a + p).skip(p.len() as int) =~= Seq::<DocRef<'a>>::empty());
        assert(l2.skip(1) =~= Seq::<Comment>::empty());
        assert(comment_run(Seq::<DocRef<'a>>::empty(), Seq::<Comment>::empty(), star));
    } else {
        let n = following_len(list[0]);
        lemma_comment_run_push(a.skip(n), list.skip(1), p, c, star);
        assert((a + p).take(n) =~= a.take(n));
        assert((a + p).skip(n) =~= a.skip(n) + p);
        assert(l2.skip(1) =~= list.skip(1).push(c));
        assert(l2[0] == list[0]);
        assert(l2.len() > 0);
    }
}

/// How many parts `handle_pre_comments` writes for a comment.
pub open spec fn pre_len(c: Comment) -> int {
    1 + (if is_block_comment(c) { 1int } else { 0int }) + (if c.metadata.has_empty_line_below { 1int } else { 0int })
}

/// The parts written for a comment before its node: the comment; after a
/// block comment a space when content that opens with no bracket follows on
/// its line, else a line break; then an empty line where one followed it.
pub open spec fn pre_parts<'a>(parts: Seq<DocRef<'a>>, c: Comment, star: JavadocStarColumn) -> bool {
    &&& parts.len() == pre_len(c)
    &&& comment_doc(*parts[0], c, star)
    &&& is_block_comment(c) ==> if c.metadata.has_trailing_content && !c.metadata.is_followed_by_bracket_composite_node {
        is_text(*parts[1], " "@)
    } else {
        *parts[1] == Doc::Newline
    }
    &&& c.metadata.has_empty_line_below ==> ({
        let e = *parts[pre_len(c) - 1];
        e is Concat && concat_parts(e).len() == 2 && *concat_parts(e)[0] == Doc::NewlineWithNoIndent
            && *concat_parts(e)[1] == Doc::Newline
    })
}

/// The parts are those written before a node for each comment of the list
/// in turn.
pub open spec fn pre_run<'a>(parts: Seq<DocRef<'a>>, list: Seq<Comment>, star: JavadocStarColumn) -> bool
    decreases list.len(),
{
    if list.len() == 0 {
        parts.len() == 0
    } else {
        let n = pre_len(list[0]);
        &&& parts.len() >= n
        &&& pre_parts(parts.take(n), list[0], star)
        &&& pre_run(parts.skip(n), list.skip(1), star)
    }
}

/// Where the parts of comment `k` of a list begin: after those of the
/// comments before it.
pub open spec fn pre_offset(list: Seq<Comment>, k: int) -> int
    decreases k,
{
    if k <= 0 {
        0
    } else {
        pre_offset(list, k - 1) + pre_len(list[k - 1])
    }
}

/// Writing the parts of one more comment extends a run before a node.
proof fn lemma_pre_run_push<'a>(a: Seq<DocRef<'a>>, list: Seq<Comment>, p: Seq<DocRef<'a>>, c: Comment, star: JavadocStarColumn)
    requires
        pre_run(a, list, star),
        pre_parts(p, c, star),
    ensures
        pre_run(a + p, list.push(c), star),
    decreases list.len(),
{
    let l2 = list.push(c);
    if list.len() == 0 {
        assert(a =~= Seq::<DocRef<'a>>::empty());
        assert(a + p =~= p);
        assert(l2[0] == c);
        assert((a + p).take(p.len() as int) =~= p);
        assert((a + p).skip(p.len() as int) =~= Seq::<DocRef<'a>>::empty());
        assert(l2.skip(1) =~= Seq::<Comment>::empty());
        assert(pre_run(Seq::<DocRef<'a>>::empty(), Seq::<Comment>::empty(), star));
    } else {
        let n = pre_len(list[0]);
        lemma_pre_run_push(a.skip(n), list.skip(1), p, c, star);
        assert((a + p).take(n) =~= a.take(n));
        assert((a + p).skip(n) =~= a.skip(n) + p);
        assert(l2.skip(1) =~= list.skip(1).push(c));
        assert(l2[0] == list[0]);
        assert(l2.len() > 0);
    }
}

/// The comments before a node are written in their order: the document at
/// the place where the parts of comment `k` begin, after those of every
/// comment before it, is the document of comment `k`, and the run takes
/// exactly the parts of all its comments.
pub proof fn law_pre_comments_in_order<'a>(parts: Seq<DocRef<'a>>, list: Seq<Comment>, star: JavadocStarColumn, k: int)
    requires
        pre_run(parts, list, star),
        0 <= k < list.len(),
    ensures
        0 <= pre_offset(list, k) < parts.len(),
        comment_doc(*parts[pre_offset(list, k)], list[k], star),
        parts.len() == pre_offset(list, list.len() as int),
    decreases list.len(),
{
    let n = pre_len(list[0]);
    let rest = list.skip(1);
    if k >= 1 {
        lemma_pre_offset_shift(list, k);
    }
    lemma_pre_offset_shift(list, list.len() as int);
    if k == 0 {
        lemma_pre_run_len(parts.skip(n), rest, star);
        assert(parts.take(n)[0] == parts[0]);
    } else {
        law_pre_comments_in_order(parts.skip(n), rest, star, k - 1);
        assert(rest[k - 1] == list[k]);
        assert(parts.skip(n)[pre_offset(rest, k - 1)] == parts[n + pre_offset(rest, k - 1)]);
    }
}

/// A run's parts are exactly those of its comments.
proof fn lemma_pre_run_len<'a>(parts: Seq<DocRef<'a>>, list: Seq<Comment>, star: JavadocStarColumn)
    requires
        pre_run(parts, list, star),
    ensures
        parts.len() == pre_offset(list, list.len() as int),
    decreases list.len(),
{
    if list.len() > 0 {
        let n = pre_len(list[0]);
        lemma_pre_run_len(parts.skip(n), list.skip(1), star);
        lemma_pre_offset_shift(list, list.len() as int);
    }
}

/// The offsets of a list are those of its tail, moved by its first comment.
proof fn lemma_pre_offset_shift(list: Seq<Comment>, k: int)
    requires
        list.len() > 0,
        1 <= k <= list.len(),
    ensures
        pre_offset(list, k) == pre_len(list[0]) + pre_offset(list.skip(1), k - 1),
        forall|j: int| 0 <= j < list.len() ==> pre_len(#[trigger] list[j]) > 0,
    decreases k,
{
    assert(pre_offset(list, 0) == 0);
    assert(pre_offset(list.skip(1), 0) == 0);
    if k > 1 {
        lemma_pre_offset_shift(list, k - 1);
        assert(list.skip(1)[k - 2] == list[k - 1]);
        assert(pre_offset(list, k) == pre_offset(list, k - 1) + pre_len(list[k - 1]));
        assert(pre_offset(list.skip(1), k - 1) == pre_offset(list.skip(1), k - 2) + pre_len(list.skip(1)[k - 2]));
    } else {
        assert(pre_offset(list, 1) == pre_offset(list, 0) + pre_len(list[0]));
    }
}

/// Whether a comment is a block comment.
pub open spec fn is_block_comment(c: Comment) -> bool {
    c.comment_type == CommentType::Block
}

/// Whether a comment is a line comment.
pub open spec fn is_line_comment(c: Comment) -> bool {
    c.comment_type == CommentType::Line
}

/// The bucket of node `id` in the map, empty for a node beyond it.
pub open spec fn spec_bucket(cm: &CommentMap, id: usize) -> CommentBucket {
    if id < cm.buckets@.len() {
        cm.buckets@[id as int]
    } else {
        cm.empty
    }
}

/// The parts of a punctuation mark: the block comments before it, the mark,
/// the line comments before it, then the comments after it.
pub open spec fn punc_layout<'a>(parts: Seq<DocRef<'a>>, bucket: CommentBucket, mark: Seq<char>, star: JavadocStarColumn) -> bool {
    exists|x: int, y: int|
        #![trigger parts.take(x), parts.subrange(x + 1, y)]
        0 <= x && x + 1 <= y <= parts.len() && comment_run(parts.take(x), bucket.pre_comments@.filter(|c: Comment| is_block_comment(c)), star)
            && is_text(*parts[x], mark) && comment_run(
            parts.subrange(x + 1, y),
            bucket.pre_comments@.filter(|c: Comment| is_line_comment(c)),
            star,
        ) && comment_run(parts.skip(y), bucket.post_comments@, star)
}

impl Punctuation {
    /// The punctuation mark with its comments: block comments before it,
    /// then the mark, then line comments before it and the comments after it.
    /// All of them are recorded as written.
    pub fn build<'a>(&self, b: &'a DocBuilder<'a>, cm: &CommentMap, st: &mut BuildState) -> (r: DocRef<'a>)
        ensures
            final(st).printed@.len() == old(st).printed@.len(),
            has_mark(*r, punc_text(self.type_)),
            *r is Concat,
            punc_layout(concat_parts(*r), spec_bucket(cm, self.id), punc_text(self.type_), b.config.javadoc_star_column),
            keeps_marks(old(st).printed@, final(st).printed@),
            list_marked(spec_bucket(cm, self.id).pre_comments@, final(st).printed@),
            list_marked(spec_bucket(cm, self.id).post_comments@, final(st).printed@),
            forall|i: int|
                0 <= i < final(st).printed@.len() && #[trigger] final(st).printed@[i] && !old(st).printed@[i] ==> (exists|k: int|
                    0 <= k < spec_bucket(cm, self.id).pre_comments@.len() && spec_bucket(cm, self.id).pre_comments@[k].id == i)
                    || (exists|k: int|
                    0 <= k < spec_bucket(cm, self.id).post_comments@.len() && spec_bucket(cm, self.id).post_comments@[k].id == i),
    {
        let bucket = cm.bucket(self.id);
        let ghost star = b.config.javadoc_star_column;
        let ghost pre = bucket.pre_comments@;
        let ghost post = bucket.post_comments@;
        assert(*bucket == spec_bucket(cm, self.id));
        let mut result: Vec<DocRef<'a>> = Vec::new();
        let mut i: usize = 0;
        proof {
            assert(pre.take(0).filter(|c: Comment| is_block_comment(c)) =~= Seq::<Comment>::empty()) by {
                reveal(Seq::filter);
            }
        }
        while i < bucket.pre_comments.len()
            invariant
                pre == bucket.pre_comments@,
                star == b.config.javadoc_star_column,
                i <= pre.len(),
                comment_run(result@, pre.take(i as int).filter(|c: Comment| is_block_comment(c)), star),
            decreases bucket.pre_comments@.len() - i,
        {
            let c = &bucket.pre_comments[i];
            let ghost r0 = result@;
            if c.comment_type == CommentType::Block {
                push_following_comment(b, c, &mut result);
                proof {
                    lemma_comment_run_push(r0, pre.take(i as int).filter(|c: Comment| is_block_comment(c)), result@.skip(r0.len() as int), *c, star);
                }
            }
            proof {
                assert(pre.take(i + 1).drop_last() =~= pre.take(i as int));
                assert(pre.take(i + 1).last() == *c);
                reveal(Seq::filter);
            }
            i = i + 1;
        }
        assert(pre.take(pre.len() as int) =~= pre);
        let ghost a = result@;
        let mark = match self.type_ {
            PuncuationType::Comma => b.txt(","),
            PuncuationType::Semicolon => b.txt(";"),
        };
        let m = result.len();
        result.push(mark);
        let mut j: usize = 0;
        proof {
            assert(pre.take(0).filter(|c: Comment| is_line_comment(c)) =~= Seq::<Comment>::empty()) by {
                reveal(Seq::filter);
            }
            assert(result@.skip(m + 1) =~= Seq::<DocRef<'a>>::empty());
        }
        while j < bucket.pre_comments.len()
            invariant
                pre == bucket.pre_comments@,
                star == b.config.javadoc_star_column,
                j <= pre.len(),
                m == a.len(),
                m < result@.len(),
                result@.take(m as int) == a,
                is_text(*result@[m as int], punc_text(self.type_)),
                comment_run(result@.skip(m + 1), pre.take(j as int).filter(|c: Comment| is_line_comment(c)), star),
            decreases bucket.pre_comments@.len() - j,
        {
            let c = &bucket.pre_comments[j];
            let ghost r0 = result@;
            if c.comment_type == CommentType::Line {
                push_following_comment(b, c, &mut result);
                proof {
                    lemma_comment_run_push(r0.skip(m + 1), pre.take(j as int).filter(|c: Comment| is_line_comment(c)), result@.skip(r0.len() as int), *c, star);
                    assert(result@.skip(m + 1) =~= r0.skip(m + 1) + result@.skip(r0.len() as int));
                    assert(result@.take(m as int) =~= r0.take(m as int));
                }
            }
            proof {
                assert(pre.take(j + 1).drop_last() =~= pre.take(j as int));
                assert(pre.take(j + 1).last() == *c);
                reveal(Seq::filter);
            }
            j = j + 1;
        }
        let y = result.len();
        let ghost bpart = result@.subrange(m + 1, y as int);
        assert(bpart =~= result@.skip(m + 1));
        let mut k: usize = 0;
        proof {
            assert(post.take(0) =~= Seq::<Comment>::empty());
            assert(result@.skip(y as int) =~= Seq::<DocRef<'a>>::empty());
        }
        while k < bucket.post_comments.len()
            invariant
                post == bucket.post_comments@,
                star == b.config.javadoc_star_column,
                k <= post.len(),
                m < y <= result@.len(),
                result@.take(y as int) == a.push(result@[m as int]) + bpart,
                m == a.len(),
                bpart.len() == y - m - 1,
                is_text(*result@[m as int], punc_text(self.type_)),
                comment_run(result@.skip(y as int), post.take(k as int), star),
            decreases bucket.post_comments@.len() - k,
        {
            let ghost r0 = result@;
            push_following_comment(b, &bucket.post_comments[k], &mut result);
            proof {
                lemma_comment_run_push(r0.skip(y as int), post.take(k as int), result@.skip(r0.len() as int), post[k as int], star);
                assert(result@.skip(y as int) =~= r0.skip(y as int) + result@.skip(r0.len() as int));
                assert(result@.take(y as int) =~= r0.take(y as int));
                assert(result@[m as int] == r0[m as int]);
                assert(post.take(k + 1) =~= post.take(k as int).push(post[k as int]));
            }
            k = k + 1;
        }
        mark_bucket(bucket, st, true, true, false);
        let r = b.concat(result);
        proof {
            assert(post.take(post.len() as int) =~= post);
            let parts = concat_parts(*r);
            assert(parts.take(m as int) =~= a);
            assert(result@.take(y as int).subrange(m + 1, y as int) =~= bpart);
            assert(parts.subrange(m + 1, y as int) =~= result@.take(y as int).subrange(m + 1, y as int));
            assert(is_text(*parts[m as int], punc_text(self.type_)));
        }
        r
    }
}

/// Every comment of the list whose id is in range is recorded as written.
pub open spec fn list_marked(list: Seq<Comment>, printed: Seq<bool>) -> bool {
    forall|k: int| 0 <= k < list.len() && #[trigger] list[k].id < printed.len() ==> printed[list[k].id as int]
}

/// What was recorded as written stays so, and no record is added or lost.
pub open spec fn keeps_marks(before: Seq<bool>, after: Seq<bool>) -> bool {
    &&& after.len() == before.len()
    &&& forall|i: int| 0 <= i < before.len() && #[trigger] before[i] ==> after[i]
}

/// Only the comments of `list` are newly recorded as written.
pub open spec fn marks_only(before: Seq<bool>, after: Seq<bool>, list: Seq<Comment>) -> bool {
    forall|i: int|
        0 <= i < after.len() && #[trigger] after[i] && !before[i] ==> exists|k: int| 0 <= k < list.len() && list[k].id == i
}

/// Records the comments of a bucket as written: pre-comments, post-comments
/// and dangling comments as chosen.
pub fn mark_bucket(bucket: &CommentBucket, st: &mut BuildState, pre: bool, post: bool, dangling: bool)
    ensures
        final(st).printed@.len() == old(st).printed@.len(),
        keeps_marks(old(st).printed@, final(st).printed@),
        pre ==> list_marked(bucket.pre_comments@, final(st).printed@),
        post ==> list_marked(bucket.post_comments@, final(st).printed@),
        dangling ==> list_marked(bucket.dangling_comments@, final(st).printed@),
        forall|i: int|
            0 <= i < final(st).printed@.len() && #[trigger] final(st).printed@[i] && !old(st).printed@[i] ==> (pre
                && exists|k: int| 0 <= k < bucket.pre_comments@.len() && bucket.pre_comments@[k].id == i) || (post
                && exists|k: int| 0 <= k < bucket.post_comments@.len() && bucket.post_comments@[k].id == i) || (
            dangling && exists|k: int| 0 <= k < bucket.dangling_comments@.len() && bucket.dangling_comments@[k].id == i),
{
    let ghost p0 = st.printed@;
    if pre {
        mark_all(&bucket.pre_comments, st);
    }
    let ghost p1 = st.printed@;
    if post {
        mark_all(&bucket.post_comments, st);
    }
    let ghost p2 = st.printed@;
    if dangling {
        mark_all(&bucket.dangling_comments, st);
    }
    proof {
        assert forall|i: int| 0 <= i < p0.len() && #[trigger] p0[i] implies st.printed@[i] by {
            assert(p1[i]);
            assert(p2[i]);
        }
        if pre {
            assert forall|k: int| 0 <= k < bucket.pre_comments@.len() && #[trigger] bucket.pre_comments@[k].id < st.printed@.len() implies st.printed@[bucket.pre_comments@[k].id as int] by {
                assert(p1[bucket.pre_comments@[k].id as int]);
                assert(p2[bucket.pre_comments@[k].id as int]);
            }
        }
        if post {
            assert forall|k: int| 0 <= k < bucket.post_comments@.len() && #[trigger] bucket.post_comments@[k].id < st.printed@.len() implies st.printed@[bucket.post_comments@[k].id as int] by {
                assert(p2[bucket.post_comments@[k].id as int]);
            }
        }
        assert forall|i: int| 0 <= i < st.printed@.len() && #[trigger] st.printed@[i] && !p0[i] implies (pre
                && exists|k: int| 0 <= k < bucket.pre_comments@.len() && bucket.pre_comments@[k].id == i) || (post
                && exists|k: int| 0 <= k < bucket.post_comments@.len() && bucket.post_comments@[k].id == i) || (
            dangling && exists|k: int| 0 <= k < bucket.dangling_comments@.len() && bucket.dangling_comments@[k].id == i) by {
            if !p2[i] {
            } else if !p1[i] {
            } else {
            }
        }
    }
}

/// Records the comments of a list as written.
pub fn mark_all(list: &Vec<Comment>, st: &mut BuildState)
    ensures
        final(st).printed@.len() == old(st).printed@.len(),
        forall|i: int| 0 <= i < list@.len() && list@[i].id < final(st).printed@.len() ==> final(st).printed@[list@[i].id as int],
        keeps_marks(old(st).printed@, final(st).printed@),
        marks_only(old(st).printed@, final(st).printed@, list@),
{
    let ghost p0 = st.printed@;
    let mut i: usize = 0;
    while i < list.len()
        invariant
            st.printed@.len() == p0.len(),
            i <= list@.len(),
            forall|k: int| 0 <= k < i && list@[k].id < st.printed@.len() ==> st.printed@[list@[k].id as int],
            keeps_marks(p0, st.printed@),
            marks_only(p0, st.printed@, list@),
        decreases list@.len() - i,
    {
        let ghost before = st.printed@;
        st.mark_as_printed(list[i].id);
        proof {
            assert forall|j: int| 0 <= j < st.printed@.len() && #[trigger] st.printed@[j] && !p0[j] implies exists|k: int| 0 <= k < list@.len() && list@[k].id == j by {
                if j == list@[i as int].id {
                } else {
                    assert(before[j]);
                }
            }
        }
        i = i + 1;
    }
}

/// The context of a node in the document: its id, for its comments, and the
/// punctuation that belongs to it.
pub struct NodeContext {
    pub id: usize,
    pub punc: Option<Punctuation>,
}

impl NodeContext {
    /// The context with the punctuation that follows the node.
    pub fn with_punctuation(t: &SyntaxTree, n: usize) -> (r: Self)
        requires
            t.wf(),
            t.valid(n as int),
        ensures
            r.id == n,
    {
        NodeContext { id: n, punc: Punctuation::from(t, n) }
    }

    /// The context with the punctuation inside the node.
    pub fn with_inner_punctuation(t: &SyntaxTree, n: usize) -> (r: Self)
        requires
            t.wf(),
            t.valid(n as int),
        ensures
            r.id == n,
    {
        NodeContext { id: n, punc: Punctuation::from_inner(t, n) }
    }

    /// The context without punctuation.
    pub fn without_punctuation(n: usize) -> (r: Self)
        ensures
            r.id == n,
            r.punc is None,
    {
        NodeContext { id: n, punc: None }
    }
}

/// Writes the pre-comments of a bucket: each comment on its own line, a block
/// comment followed by a space when content follows on its line, and a blank
/// line kept below a comment that had one.
pub fn handle_pre_comments<'a>(b: &'a DocBuilder<'a>, bucket: &CommentBucket, result: &mut Vec<DocRef<'a>>, st: &mut BuildState)
    ensures
        final(st).printed@.len() == old(st).printed@.len(),
        old(result)@.is_prefix_of(final(result)@),
        final(result)@.len() >= old(result)@.len() + bucket.pre_comments@.len(),
        pre_run(final(result)@.skip(old(result)@.len() as int), bucket.pre_comments@, b.config.javadoc_star_column),
        keeps_marks(old(st).printed@, final(st).printed@),
        list_marked(bucket.pre_comments@, final(st).printed@),
        marks_only(old(st).printed@, final(st).printed@, bucket.pre_comments@),
{
    let ghost start = result@;
    let ghost star = b.config.javadoc_star_column;
    let mut i: usize = 0;
    proof {
        assert(result@.skip(start.len() as int) =~= Seq::<DocRef<'a>>::empty());
        assert(bucket.pre_comments@.take(0) =~= Seq::<Comment>::empty());
    }
    while i < bucket.pre_comments.len()
        invariant
            start.is_prefix_of(result@),
            i <= bucket.pre_comments@.len(),
            result@.len() >= start.len() + i,
            star == b.config.javadoc_star_column,
            pre_run(result@.skip(start.len() as int), bucket.pre_comments@.take(i as int), star),
        decreases bucket.pre_comments@.len() - i,
    {
        let ghost before = result@;
        let c = &bucket.pre_comments[i];
        let d = c.build(b);
        result.push(d);
        if c.comment_type == CommentType::Block {
            if c.has_trailing_content() && !c.is_followed_by_bracket_composite_node() {
                let s = b.txt(" ");
                result.push(s);
            } else {
                let n = b.nl();
                result.push(n);
            }
        }
        if c.has_newline_below() {
            let e = empty_new_line(b);
            result.push(e);
        }
        proof {
            let p = result@.skip(before.len() as int);
            assert(result@ =~= before + p);
            assert(p[0] == d);
            assert(pre_parts(p, *c, star));
            lemma_pre_run_push(before.skip(start.len() as int), bucket.pre_comments@.take(i as int), p, *c, star);
            assert(result@.skip(start.len() as int) =~= before.skip(start.len() as int) + p);
            assert(bucket.pre_comments@.take(i + 1) =~= bucket.pre_comments@.take(i as int).push(*c));
        }
        i = i + 1;
    }
    proof {
        assert(bucket.pre_comments@.take(i as int) =~= bucket.pre_comments@);
    }
    mark_all(&bucket.pre_comments, st);
}

/// Writes the post-comments of a bucket after the node.
pub fn handle_post_comments<'a>(b: &'a DocBuilder<'a>, bucket: &CommentBucket, result: &mut Vec<DocRef<'a>>, st: &mut BuildState)
    ensures
        final(st).printed@.len() == old(st).printed@.len(),
        old(result)@.is_prefix_of(final(result)@),
        final(result)@.len() >= old(result)@.len() + 2 * bucket.post_comments@.len(),
        comment_run(final(result)@.skip(old(result)@.len() as int), bucket.post_comments@, b.config.javadoc_star_column),
        keeps_marks(old(st).printed@, final(st).printed@),
        list_marked(bucket.post_comments@, final(st).printed@),
        marks_only(old(st).printed@, final(st).printed@, bucket.post_comments@),
{
    let ghost start = result@;
    let ghost star = b.config.javadoc_star_column;
    let mut i: usize = 0;
    proof {
        assert(result@.skip(start.len() as int) =~= Seq::<DocRef<'a>>::empty());
        assert(bucket.post_comments@.take(0) =~= Seq::<Comment>::empty());
    }
    while i < bucket.post_comments.len()
        invariant
            start.is_prefix_of(result@),
            i <= bucket.post_comments@.len(),
            result@.len() >= start.len() + 2 * i,
            star == b.config.javadoc_star_column,
            comment_run(result@.skip(start.len() as int), bucket.post_comments@.take(i as int), star),
        decreases bucket.post_comments@.len() - i,
    {
        let ghost before = result@;
        push_following_comment(b, &bucket.post_comments[i], result);
        assert(start.is_prefix_of(result@)) by {
            assert forall|k: int| 0 <= k < start.len() implies result@[k] == start[k] by {
                assert(before[k] == start[k]);
            }
        }
        proof {
            let p = result@.skip(before.len() as int);
            lemma_comment_run_push(before.skip(start.len() as int), bucket.post_comments@.take(i as int), p, bucket.post_comments@[i as int], star);
            assert(result@.skip(start.len() as int) =~= before.skip(start.len() as int) + p);
            assert(bucket.post_comments@.take(i + 1) =~= bucket.post_comments@.take(i as int).push(bucket.post_comments@[i as int]));
        }
        i = i + 1;
    }
    proof {
        assert(bucket.post_comments@.take(i as int) =~= bucket.post_comments@);
    }
    mark_all(&bucket.post_comments, st);
}

/// Writes the dangling comments of a node as the body of a bracket pair:
/// `{`, the comments indented on their own lines, `}`.
pub fn handle_dangling_comments_in_bracket_surround<'a>(b: &'a DocBuilder<'a>, bucket: &CommentBucket, result: &mut Vec<DocRef<'a>>, st: &mut BuildState)
    ensures
        final(st).printed@.len() == old(st).printed@.len(),
        final(result)@.len() == old(result)@.len() + 4,
        old(result)@.is_prefix_of(final(result)@),
        is_text(*final(result)@[old(result)@.len() as int], "{"@),
        is_dangling_block(*final(result)@[old(result)@.len() as int + 1], bucket.dangling_comments@.len(), b.config.indent_size),
        dangling_in_order(*final(result)@[old(result)@.len() as int + 1], bucket.dangling_comments@, b.config.javadoc_star_column),
        *final(result)@[old(result)@.len() as int + 2] == Doc::Newline,
        is_text(*final(result)@[old(result)@.len() as int + 3], "}"@),
        keeps_marks(old(st).printed@, final(st).printed@),
        list_marked(bucket.dangling_comments@, final(st).printed@),
        marks_only(old(st).printed@, final(st).printed@, bucket.dangling_comments@),
{
    let mut inner: Vec<DocRef<'a>> = Vec::new();
    let mut i: usize = 0;
    while i < bucket.dangling_comments.len()
        invariant
            i <= bucket.dangling_comments@.len(),
            inner@.len() == 2 * i,
            forall|k: int| 0 <= k < i ==> *#[trigger] inner@[2 * k] == Doc::Newline,
            forall|k: int| 0 <= k < i ==> comment_doc(*inner@[2 * k + 1], #[trigger] bucket.dangling_comments@[k], b.config.javadoc_star_column),
        decreases bucket.dangling_comments@.len() - i,
    {
        let n = b.nl();
        inner.push(n);
        let d = bucket.dangling_comments[i].build(b);
        inner.push(d);
        i = i + 1;
    }
    let o = b.txt("{");
    result.push(o);
    let body = b.concat(inner);
    let ind = b.add_indent_level(body);
    result.push(ind);
    let n = b.nl();
    result.push(n);
    let c = b.txt("}");
    result.push(c);
    mark_all(&bucket.dangling_comments, st);
}

/// An indented concatenation that puts each of `n` comments after a line
/// break of its own.
pub open spec fn is_dangling_block<'a>(d: Doc<'a>, n: nat, indent: u32) -> bool {
    &&& d is Indent
    &&& d->Indent_0 == indent
    &&& *d->Indent_1 is Concat
    &&& concat_parts(*d->Indent_1).len() == 2 * n
    &&& forall|k: int| 0 <= k < n ==> *#[trigger] concat_parts(*d->Indent_1)[2 * k] == Doc::Newline
}

/// The comments of a dangling block in their order: after line break `k`
/// stands the document of comment `k`.
pub open spec fn dangling_in_order<'a>(d: Doc<'a>, list: Seq<Comment>, star: JavadocStarColumn) -> bool {
    forall|k: int| 0 <= k < list.len() ==> comment_doc(*concat_parts(*d->Indent_1)[2 * k + 1], #[trigger] list[k], star)
}

} // verus!
