//! Reading a syntax tree: children by kind, by field name, the first code
//! child, siblings, and the source text of a node.
//!
//! Names: `c` child, `cs` children, `by_n` by field name, `by_k` by kind,
//! `try_` returns an `Option`; without it a missing child is an error.
use crate::strs::{bytes_of, concat2, concat3, str_eq, string_push_str, byte_substring};
use crate::syntax::SyntaxTree;
use vstd::prelude::*;
use vstd::utf8::*;

verus! {

/// The children at positions `< k` of node `n` whose position satisfies `pred`.
pub open spec fn select(t: &SyntaxTree, n: int, pred: spec_fn(int) -> bool, k: int) -> Seq<usize>
    decreases k,
{
    if k <= 0 {
        Seq::empty()
    } else {
        select(t, n, pred, k - 1) + if pred(k - 1) {
            seq![t.kids(n)[k - 1]]
        } else {
            Seq::empty()
        }
    }
}

/// All children of `n` whose position satisfies `pred`, in order.
pub open spec fn selected(t: &SyntaxTree, n: int, pred: spec_fn(int) -> bool) -> Seq<usize> {
    select(t, n, pred, t.kids(n).len() as int)
}

/// A node that is code: named, and no comment.
pub open spec fn is_code(t: &SyntaxTree, c: int) -> bool {
    t.nodes@[c].is_named && !t.nodes@[c].is_extra
}

pub open spec fn code_pred(t: &SyntaxTree, n: int) -> spec_fn(int) -> bool {
    |k: int| is_code(t, t.kids(n)[k] as int)
}

pub open spec fn kind_pred(t: &SyntaxTree, n: int, kind: Seq<char>) -> spec_fn(int) -> bool {
    |k: int| t.nodes@[t.kids(n)[k] as int].is_named && t.nodes@[t.kids(n)[k] as int].kind@ == kind
}

pub open spec fn field_pred(t: &SyntaxTree, n: int, name: Seq<char>) -> spec_fn(int) -> bool {
    |k: int| t.nodes@[n].field_names@[k] matches Some(f) && f@ == name
}

/// The code children of `n`.
pub open spec fn code_children(t: &SyntaxTree, n: int) -> Seq<usize> {
    selected(t, n, code_pred(t, n))
}

/// The named children of `n` of a kind.
pub open spec fn kind_children(t: &SyntaxTree, n: int, kind: Seq<char>) -> Seq<usize> {
    selected(t, n, kind_pred(t, n, kind))
}

/// The children of `n` with a field name.
pub open spec fn field_children(t: &SyntaxTree, n: int, name: Seq<char>) -> Seq<usize> {
    selected(t, n, field_pred(t, n, name))
}

pub open spec fn first_of(s: Seq<usize>) -> Option<usize> {
    if s.len() > 0 {
        Some(s[0])
    } else {
        None
    }
}

/// The bytes of the source that a node spans.
pub open spec fn node_bytes(t: &SyntaxTree, n: int) -> Seq<u8> {
    bytes_of(t.source@).subrange(t.nodes@[n].start_byte as int, t.nodes@[n].end_byte as int)
}

/// Whether the source text of a node can be read: its byte range lies on
/// character boundaries, in order.
pub open spec fn readable(t: &SyntaxTree, n: int) -> bool {
    let s = t.nodes@[n].start_byte as int;
    let e = t.nodes@[n].end_byte as int;
    s <= e && is_char_boundary(bytes_of(t.source@), s) && is_char_boundary(bytes_of(t.source@), e)
}

pub proof fn lemma_select_bound(t: &SyntaxTree, n: int, pred: spec_fn(int) -> bool, k: int)
    requires
        t.wf(),
        t.valid(n),
        0 <= k <= t.kids(n).len(),
    ensures
        select(t, n, pred, k).len() <= k,
        forall|j: int|
            0 <= j < select(t, n, pred, k).len() ==> exists|p: int|
                0 <= p < k && pred(p) && #[trigger] select(t, n, pred, k)[j] == t.kids(n)[p],
    decreases k,
{
    if k > 0 {
        lemma_select_bound(t, n, pred, k - 1);
        let prev = select(t, n, pred, k - 1);
        let cur = select(t, n, pred, k);
        assert forall|j: int| 0 <= j < cur.len() implies exists|p: int|
            0 <= p < k && pred(p) && #[trigger] cur[j] == t.kids(n)[p] by {
            if j < prev.len() {
                assert(cur[j] == prev[j]);
                let p = choose|p: int| 0 <= p < k - 1 && pred(p) && prev[j] == t.kids(n)[p];
                assert(0 <= p < k && pred(p) && cur[j] == t.kids(n)[p]);
            } else {
                assert(cur[j] == t.kids(n)[k - 1]);
            }
        }
    }
}

/// Every selected child is a node of the tree lying after `n`.
pub proof fn lemma_selected_valid(t: &SyntaxTree, n: int, pred: spec_fn(int) -> bool)
    requires
        t.wf(),
        t.valid(n),
    ensures
        forall|j: int|
            0 <= j < selected(t, n, pred).len() ==> n < #[trigger] selected(t, n, pred)[j]
                < t.nodes@.len(),
{
    lemma_select_bound(t, n, pred, t.kids(n).len() as int);
    assert forall|j: int| 0 <= j < selected(t, n, pred).len() implies n < #[trigger] selected(
        t,
        n,
        pred,
    )[j] < t.nodes@.len() by {
        let p = choose|p: int|
            0 <= p < t.kids(n).len() && pred(p) && selected(t, n, pred)[j] == t.kids(n)[p];
        assert(t.nodes@[n].children@[p] == t.kids(n)[p]);
    }
}

/// Whether node `n` is of a kind.
pub fn kind_is(t: &SyntaxTree, n: usize, kind: &str) -> (r: bool)
    requires
        t.valid(n as int),
    ensures
        r == (t.nodes@[n as int].kind@ == kind@),
{
    str_eq(t.nodes[n].kind.as_str(), kind)
}

/// The position of the first child of `n`, at position `k` or after, whose
/// kind is `kind`.
pub open spec fn kind_pos_from(t: &SyntaxTree, n: int, k: int, kind: Seq<char>) -> Option<int>
    decreases t.nodes@[n].children@.len() - k,
{
    if k < 0 || k >= t.nodes@[n].children@.len() {
        None
    } else if t.nodes@[t.nodes@[n].children@[k] as int].kind@ == kind {
        Some(k)
    } else {
        kind_pos_from(t, n, k + 1, kind)
    }
}

/// The position of the first child of `n`, at position `k` or after, that
/// is named and no extra.
pub open spec fn code_pos_from(t: &SyntaxTree, n: int, k: int) -> Option<int>
    decreases t.nodes@[n].children@.len() - k,
{
    if k < 0 || k >= t.nodes@[n].children@.len() {
        None
    } else if t.nodes@[t.nodes@[n].children@[k] as int].is_named && !t.nodes@[t.nodes@[n].children@[k] as int].is_extra {
        Some(k)
    } else {
        code_pos_from(t, n, k + 1)
    }
}

/// The children of `n`, from position `k` on, whose kind is `kind`.
pub open spec fn kind_ids_from(t: &SyntaxTree, n: int, k: int, kind: Seq<char>) -> Seq<usize>
    decreases t.nodes@[n].children@.len() - k,
{
    if k < 0 || k >= t.nodes@[n].children@.len() {
        Seq::empty()
    } else if t.nodes@[t.nodes@[n].children@[k] as int].kind@ == kind {
        seq![t.nodes@[n].children@[k]] + kind_ids_from(t, n, k + 1, kind)
    } else {
        kind_ids_from(t, n, k + 1, kind)
    }
}

/// How many children of `n`, from position `k` on, are named.
pub open spec fn named_count_from(t: &SyntaxTree, n: int, k: int) -> nat
    decreases t.nodes@[n].children@.len() - k,
{
    if k < 0 || k >= t.nodes@[n].children@.len() {
        0
    } else {
        (if t.nodes@[t.nodes@[n].children@[k] as int].is_named {
            1nat
        } else {
            0nat
        }) + named_count_from(t, n, k + 1)
    }
}

/// The source text of a node, empty where its bytes cannot be read.
pub open spec fn node_text(t: &SyntaxTree, n: int) -> Seq<char> {
    if readable(t, n) {
        choose|s: Seq<char>| bytes_of(s) == node_bytes(t, n)
    } else {
        Seq::empty()
    }
}

/// The source text of a node.
pub fn value(t: &SyntaxTree, n: usize) -> (r: Result<String, String>)
    requires
        t.valid(n as int),
    ensures
        r is Ok <==> readable(t, n as int),
        r matches Ok(s) ==> bytes_of(s@) == node_bytes(t, n as int),
        r matches Ok(s) ==> s@ == node_text(t, n as int),
{
    let r = value_bytes(t, n);
    proof {
        if r is Ok {
            let s = r->Ok_0;
            let c = choose|c: Seq<char>| bytes_of(c) == node_bytes(t, n as int);
            crate::strs::lemma_encode_injective(c, s@);
        }
    }
    r
}

fn value_bytes(t: &SyntaxTree, n: usize) -> (r: Result<String, String>)
    requires
        t.valid(n as int),
    ensures
        r is Ok <==> readable(t, n as int),
        r matches Ok(s) ==> bytes_of(s@) == node_bytes(t, n as int),
{
    let node = &t.nodes[n];
    match byte_substring(t.source.as_str(), node.start_byte, node.end_byte) {
        Some(s) => Ok(s),
        None => Err(concat3("## ", node.kind.as_str(), ": get source_code value failed.")),
    }
}

/// Collects the children of `n` whose position satisfies `pred`, where
/// `test(t, n, k)` decides `pred(k)`.
fn collect_code(t: &SyntaxTree, n: usize) -> (r: Vec<usize>)
    requires
        t.wf(),
        t.valid(n as int),
    ensures
        r@ == code_children(t, n as int),
{
    let node = &t.nodes[n];
    let mut r: Vec<usize> = Vec::new();
    let mut k: usize = 0;
    while k < node.children.len()
        invariant
            t.wf(),
            t.valid(n as int),
            node == &t.nodes@[n as int],
            k <= node.children@.len(),
            r@ == select(t, n as int, code_pred(t, n as int), k as int),
        decreases node.children@.len() - k,
    {
        let c = node.children[k];
        assert(t.nodes@[n as int].children@[k as int] == c);
        let cn = &t.nodes[c];
        if cn.is_named && !cn.is_extra {
            r.push(c);
        }
        k = k + 1;
    }
    r
}

/// The code children of a node: named children that are no comments.
pub fn children_vec(t: &SyntaxTree, n: usize) -> (r: Vec<usize>)
    requires
        t.wf(),
        t.valid(n as int),
    ensures
        r@ == code_children(t, n as int),
        forall|i: int| 0 <= i < r@.len() ==> n < #[trigger] r@[i] < t.nodes@.len(),
{
    proof { lemma_selected_valid(t, n as int, code_pred(t, n as int)); }
    collect_code(t, n)
}

/// The named children of a node of a kind.
pub fn try_cs_by_k(t: &SyntaxTree, n: usize, kind: &str) -> (r: Vec<usize>)
    requires
        t.wf(),
        t.valid(n as int),
    ensures
        r@ == kind_children(t, n as int, kind@),
        forall|i: int| 0 <= i < r@.len() ==> n < #[trigger] r@[i] < t.nodes@.len(),
{
    proof { lemma_selected_valid(t, n as int, kind_pred(t, n as int, kind@)); }
    let node = &t.nodes[n];
    let mut r: Vec<usize> = Vec::new();
    let mut k: usize = 0;
    while k < node.children.len()
        invariant
            t.wf(),
            t.valid(n as int),
            node == &t.nodes@[n as int],
            k <= node.children@.len(),
            r@ == select(t, n as int, kind_pred(t, n as int, kind@), k as int),
        decreases node.children@.len() - k,
    {
        let c = node.children[k];
        assert(t.nodes@[n as int].children@[k as int] == c);
        if t.nodes[c].is_named && kind_is(t, c, kind) {
            r.push(c);
        }
        k = k + 1;
    }
    r
}

/// The first named child of a node of a kind.
pub fn try_c_by_k(t: &SyntaxTree, n: usize, kind: &str) -> (r: Option<usize>)
    requires
        t.wf(),
        t.valid(n as int),
    ensures
        r == first_of(kind_children(t, n as int, kind@)),
        r matches Some(c) ==> n < c < t.nodes@.len(),
{
    proof { lemma_selected_valid(t, n as int, kind_pred(t, n as int, kind@)); }
    let node = &t.nodes[n];
    let mut k: usize = 0;
    while k < node.children.len()
        invariant
            t.wf(),
            t.valid(n as int),
            node == &t.nodes@[n as int],
            k <= node.children@.len(),
            select(t, n as int, kind_pred(t, n as int, kind@), k as int).len() == 0,
        decreases node.children@.len() - k,
    {
        let c = node.children[k];
        assert(t.nodes@[n as int].children@[k as int] == c);
        if t.nodes[c].is_named && kind_is(t, c, kind) {
            proof {
                lemma_select_prefix(t, n as int, kind_pred(t, n as int, kind@), k + 1, node.children@.len() as int);
            }
            return Some(c);
        }
        k = k + 1;
    }
    None
}

/// Every child that `kind_children` picks is of that kind.
pub proof fn lemma_kind_children_kind(t: &SyntaxTree, n: int, kind: Seq<char>)
    requires
        t.wf(),
        t.valid(n),
    ensures
        forall|j: int|
            0 <= j < kind_children(t, n, kind).len() ==> t.nodes@[#[trigger] kind_children(t, n, kind)[j] as int].kind@
                == kind,
{
    let pred = kind_pred(t, n, kind);
    lemma_select_bound(t, n, pred, t.kids(n).len() as int);
    assert forall|j: int| 0 <= j < kind_children(t, n, kind).len() implies t.nodes@[#[trigger] kind_children(t, n, kind)[j] as int].kind@
        == kind by {
        let p = choose|p: int|
            0 <= p < t.kids(n).len() && pred(p) && selected(t, n, pred)[j] == t.kids(n)[p];
    }
}

/// A selection up to `k` is a prefix of the selection up to any `m >= k`.
pub proof fn lemma_select_prefix(t: &SyntaxTree, n: int, pred: spec_fn(int) -> bool, k: int, m: int)
    requires
        0 <= k <= m,
    ensures
        select(t, n, pred, m).len() >= select(t, n, pred, k).len(),
        forall|j: int|
            0 <= j < select(t, n, pred, k).len() ==> #[trigger] select(t, n, pred, m)[j]
                == select(t, n, pred, k)[j],
    decreases m - k,
{
    if m > k {
        lemma_select_prefix(t, n, pred, k, m - 1);
    }
}

/// The children of a node with a field name.
pub fn try_cs_by_n(t: &SyntaxTree, n: usize, name: &str) -> (r: Vec<usize>)
    requires
        t.wf(),
        t.valid(n as int),
    ensures
        r@ == field_children(t, n as int, name@),
        forall|i: int| 0 <= i < r@.len() ==> n < #[trigger] r@[i] < t.nodes@.len(),
{
    proof { lemma_selected_valid(t, n as int, field_pred(t, n as int, name@)); }
    let node = &t.nodes[n];
    let mut r: Vec<usize> = Vec::new();
    let mut k: usize = 0;
    while k < node.children.len()
        invariant
            t.wf(),
            t.valid(n as int),
            node == &t.nodes@[n as int],
            node.field_names@.len() == node.children@.len(),
            k <= node.children@.len(),
            r@ == select(t, n as int, field_pred(t, n as int, name@), k as int),
        decreases node.children@.len() - k,
    {
        let c = node.children[k];
        match &node.field_names[k] {
            Some(f) => {
                if str_eq(f.as_str(), name) {
                    r.push(c);
                }
            },
            None => {},
        }
        k = k + 1;
    }
    r
}

/// The first child of a node with a field name.
pub fn try_c_by_n(t: &SyntaxTree, n: usize, name: &str) -> (r: Option<usize>)
    requires
        t.wf(),
        t.valid(n as int),
    ensures
        r == first_of(field_children(t, n as int, name@)),
        r matches Some(c) ==> n < c < t.nodes@.len(),
{
    proof { lemma_selected_valid(t, n as int, field_pred(t, n as int, name@)); }
    let node = &t.nodes[n];
    let mut k: usize = 0;
    while k < node.children.len()
        invariant
            t.wf(),
            t.valid(n as int),
            node == &t.nodes@[n as int],
            node.field_names@.len() == node.children@.len(),
            k <= node.children@.len(),
            select(t, n as int, field_pred(t, n as int, name@), k as int).len() == 0,
        decreases node.children@.len() - k,
    {
        let c = node.children[k];
        let hit = match &node.field_names[k] {
            Some(f) => str_eq(f.as_str(), name),
            None => false,
        };
        if hit {
            proof {
                lemma_select_prefix(t, n as int, field_pred(t, n as int, name@), k + 1, node.children@.len() as int);
            }
            return Some(c);
        }
        k = k + 1;
    }
    None
}

/// The message of a missing mandatory child.
pub fn missing_child_message(t: &SyntaxTree, n: usize, what: &str) -> (r: String)
    requires
        t.valid(n as int),
{
    let mut m = concat3("## ", t.nodes[n].kind.as_str(), ": missing mandatory child: ");
    string_push_str(&mut m, what);
    m
}

/// The first named child of a kind; an error when there is none.
pub fn c_by_k(t: &SyntaxTree, n: usize, kind: &str) -> (r: Result<usize, String>)
    requires
        t.wf(),
        t.valid(n as int),
    ensures
        r is Ok <==> kind_children(t, n as int, kind@).len() > 0,
        r matches Ok(c) ==> c == kind_children(t, n as int, kind@)[0],
        r matches Ok(c) ==> n < c < t.nodes@.len(),
{
    proof { lemma_selected_valid(t, n as int, kind_pred(t, n as int, kind@)); }
    match try_c_by_k(t, n, kind) {
        Some(c) => Ok(c),
        None => Err(missing_child_message(t, n, kind)),
    }
}

/// The first child with a field name; an error when there is none.
pub fn c_by_n(t: &SyntaxTree, n: usize, name: &str) -> (r: Result<usize, String>)
    requires
        t.wf(),
        t.valid(n as int),
    ensures
        r is Ok <==> field_children(t, n as int, name@).len() > 0,
        r matches Ok(c) ==> c == field_children(t, n as int, name@)[0],
        r matches Ok(c) ==> n < c < t.nodes@.len(),
{
    proof { lemma_selected_valid(t, n as int, field_pred(t, n as int, name@)); }
    match try_c_by_n(t, n, name) {
        Some(c) => Ok(c),
        None => Err(missing_child_message(t, n, name)),
    }
}

/// The children with a field name; an error when there is none.
pub fn cs_by_n(t: &SyntaxTree, n: usize, name: &str) -> (r: Result<Vec<usize>, String>)
    requires
        t.wf(),
        t.valid(n as int),
    ensures
        r is Ok <==> field_children(t, n as int, name@).len() > 0,
        r matches Ok(v) ==> v@ == field_children(t, n as int, name@),
        r matches Ok(v) ==> forall|i: int| 0 <= i < v@.len() ==> n < #[trigger] v@[i] < t.nodes@.len(),
{
    proof { lemma_selected_valid(t, n as int, field_pred(t, n as int, name@)); }
    let v = try_cs_by_n(t, n, name);
    if v.len() == 0 {
        Err(missing_child_message(t, n, name))
    } else {
        Ok(v)
    }
}

/// The named children of a kind; an error when there is none.
pub fn cs_by_k(t: &SyntaxTree, n: usize, kind: &str) -> (r: Result<Vec<usize>, String>)
    requires
        t.wf(),
        t.valid(n as int),
    ensures
        r is Ok <==> kind_children(t, n as int, kind@).len() > 0,
        r matches Ok(v) ==> v@ == kind_children(t, n as int, kind@),
        r matches Ok(v) ==> forall|i: int| 0 <= i < v@.len() ==> n < #[trigger] v@[i] < t.nodes@.len(),
{
    proof { lemma_selected_valid(t, n as int, kind_pred(t, n as int, kind@)); }
    let v = try_cs_by_k(t, n, kind);
    if v.len() == 0 {
        Err(missing_child_message(t, n, kind))
    } else {
        Ok(v)
    }
}

/// The first code child of a node, if any.
pub fn try_first_c(t: &SyntaxTree, n: usize) -> (r: Option<usize>)
    requires
        t.wf(),
        t.valid(n as int),
    ensures
        r == first_of(code_children(t, n as int)),
        r matches Some(c) ==> n < c < t.nodes@.len(),
{
    proof { lemma_selected_valid(t, n as int, code_pred(t, n as int)); }
    let v = collect_code(t, n);
    if v.len() > 0 {
        Some(v[0])
    } else {
        None
    }
}

/// The first code child of a node; an error when there is none.
pub fn first_c(t: &SyntaxTree, n: usize) -> (r: Result<usize, String>)
    requires
        t.wf(),
        t.valid(n as int),
    ensures
        r is Ok <==> code_children(t, n as int).len() > 0,
        r matches Ok(c) ==> c == code_children(t, n as int)[0],
        r matches Ok(c) ==> n < c < t.nodes@.len(),
{
    proof { lemma_selected_valid(t, n as int, code_pred(t, n as int)); }
    match try_first_c(t, n) {
        Some(c) => Ok(c),
        None => Err(concat2(t.nodes[n].kind.as_str(), ": missing a mandatory child in first_c().")),
    }
}

/// The text of the first child with a field name.
pub fn cvalue_by_n(t: &SyntaxTree, n: usize, name: &str) -> (r: Result<String, String>)
    requires
        t.wf(),
        t.valid(n as int),
    ensures
        r is Ok ==> field_children(t, n as int, name@).len() > 0,
        r matches Ok(s) ==> bytes_of(s@) == node_bytes(t, field_children(t, n as int, name@)[0] as int),
        r is Ok <==> field_children(t, n as int, name@).len() > 0 && readable(t, field_children(t, n as int, name@)[0] as int),
        r matches Ok(s) ==> s@ == node_text(t, field_children(t, n as int, name@)[0] as int),
{
    let c = c_by_n(t, n, name)?;
    proof { lemma_selected_valid(t, n as int, field_pred(t, n as int, name@)); }
    value(t, c)
}

/// The text of the first named child of a kind.
pub fn cvalue_by_k(t: &SyntaxTree, n: usize, kind: &str) -> (r: Result<String, String>)
    requires
        t.wf(),
        t.valid(n as int),
    ensures
        r is Ok ==> kind_children(t, n as int, kind@).len() > 0,
        r matches Ok(s) ==> bytes_of(s@) == node_bytes(t, kind_children(t, n as int, kind@)[0] as int),
        r is Ok <==> kind_children(t, n as int, kind@).len() > 0 && readable(t, kind_children(t, n as int, kind@)[0] as int),
        r matches Ok(s) ==> s@ == node_text(t, kind_children(t, n as int, kind@)[0] as int),
{
    let c = c_by_k(t, n, kind)?;
    proof { lemma_selected_valid(t, n as int, kind_pred(t, n as int, kind@)); }
    value(t, c)
}

// ---------------------------------------------------------------------------
// Siblings.
// ---------------------------------------------------------------------------
/// Whether node `c` passes a sibling search: named when `named_only`, code
/// when `code_only`.
pub open spec fn sib_ok(t: &SyntaxTree, c: int, named_only: bool, code_only: bool) -> bool {
    (!named_only || t.nodes@[c].is_named) && (!code_only || is_code(t, c))
}

/// The position, from position `from` on, of the first child of `p` that
/// passes the search, if any.
pub open spec fn first_sib_from(t: &SyntaxTree, p: int, from: int, named_only: bool, code_only: bool) -> Option<int>
    decreases t.kids(p).len() - from,
{
    if from < 0 || from >= t.kids(p).len() {
        None
    } else if sib_ok(t, t.kids(p)[from] as int, named_only, code_only) {
        Some(from)
    } else {
        first_sib_from(t, p, from + 1, named_only, code_only)
    }
}

/// The first sibling after `n` that passes the search.
pub open spec fn next_where(t: &SyntaxTree, n: int, named_only: bool, code_only: bool) -> Option<usize> {
    match t.nodes@[n].parent {
        Some(p) => match first_sib_from(t, p as int, t.nodes@[n].index_in_parent + 1, named_only, code_only) {
            Some(k) => Some(t.kids(p as int)[k]),
            None => None,
        },
        None => None,
    }
}

/// The position, before position `before`, of the last named child of `p`.
pub open spec fn last_named_before(t: &SyntaxTree, p: int, before: int) -> Option<int>
    decreases before,
{
    if before <= 0 || before > t.kids(p).len() {
        None
    } else if t.nodes@[t.kids(p)[before - 1] as int].is_named {
        Some(before - 1)
    } else {
        last_named_before(t, p, before - 1)
    }
}

/// The previous named sibling of `n`.
pub open spec fn prev_named(t: &SyntaxTree, n: int) -> Option<usize> {
    match t.nodes@[n].parent {
        Some(p) => match last_named_before(t, p as int, t.nodes@[n].index_in_parent as int) {
            Some(k) => Some(t.kids(p as int)[k]),
            None => None,
        },
        None => None,
    }
}

pub proof fn lemma_first_sib_from(t: &SyntaxTree, p: int, from: int, named_only: bool, code_only: bool)
    ensures
        first_sib_from(t, p, from, named_only, code_only) matches Some(k) ==> from <= k < t.kids(p).len()
            && sib_ok(t, t.kids(p)[k] as int, named_only, code_only),
    decreases t.kids(p).len() - from,
{
    if from >= 0 && from < t.kids(p).len() && !sib_ok(t, t.kids(p)[from] as int, named_only, code_only) {
        lemma_first_sib_from(t, p, from + 1, named_only, code_only);
    }
}

pub proof fn lemma_last_named_before(t: &SyntaxTree, p: int, before: int)
    ensures
        last_named_before(t, p, before) matches Some(k) ==> 0 <= k < before && k < t.kids(p).len()
            && t.nodes@[t.kids(p)[k] as int].is_named,
    decreases before,
{
    if before > 0 && before <= t.kids(p).len() && !t.nodes@[t.kids(p)[before - 1] as int].is_named {
        lemma_last_named_before(t, p, before - 1);
    }
}

/// Searches the siblings after `n` for the first that passes the search.
fn next_sibling_with(t: &SyntaxTree, n: usize, named_only: bool, code_only: bool) -> (r: Option<usize>)
    requires
        t.wf(),
        t.valid(n as int),
    ensures
        r == next_where(t, n as int, named_only, code_only),
        r matches Some(c) ==> t.valid(c as int) && sib_ok(t, c as int, named_only, code_only),
{
    match t.nodes[n].parent {
        None => None,
        Some(p) => {
            assert(t.nodes@[n as int].index_in_parent < t.nodes@[p as int].children@.len());
            let siblings = &t.nodes[p].children;
            let len = siblings.len();
            let start = t.nodes[n].index_in_parent + 1;
            let mut k = start;
            while k < siblings.len()
                invariant
                    t.wf(),
                    t.valid(n as int),
                    t.valid(p as int),
                    t.nodes@[n as int].parent == Some(p),
                    siblings == &t.nodes@[p as int].children,
                    start == t.nodes@[n as int].index_in_parent + 1,
                    start <= k <= siblings@.len(),
                    first_sib_from(t, p as int, start as int, named_only, code_only)
                        == first_sib_from(t, p as int, k as int, named_only, code_only),
                decreases siblings@.len() - k,
            {
                let c = siblings[k];
                assert(t.nodes@[p as int].children@[k as int] == c);
                let cn = &t.nodes[c];
                if (!named_only || cn.is_named) && (!code_only || (cn.is_named && !cn.is_extra)) {
                    return Some(c);
                }
                k = k + 1;
            }
            None
        },
    }
}

/// The next named sibling of a node (comments count), if any.
pub fn next_named_sibling(t: &SyntaxTree, n: usize) -> (r: Option<usize>)
    requires
        t.wf(),
        t.valid(n as int),
    ensures
        r == next_where(t, n as int, true, false),
        r matches Some(c) ==> t.valid(c as int) && t.nodes@[c as int].is_named,
{
    next_sibling_with(t, n, true, false)
}

/// The next sibling of a node, named or not, if any.
pub fn next_sibling(t: &SyntaxTree, n: usize) -> (r: Option<usize>)
    requires
        t.wf(),
        t.valid(n as int),
    ensures
        r == next_where(t, n as int, false, false),
        r matches Some(c) ==> t.valid(c as int),
{
    next_sibling_with(t, n, false, false)
}

/// The next code sibling of a node; an error when there is none.
pub fn next_named(t: &SyntaxTree, n: usize) -> (r: Result<usize, String>)
    requires
        t.wf(),
        t.valid(n as int),
    ensures
        r is Ok <==> next_where(t, n as int, true, true) is Some,
        r matches Ok(c) ==> next_where(t, n as int, true, true) == Some(c) && t.valid(c as int)
            && is_code(t, c as int),
{
    match next_sibling_with(t, n, true, true) {
        Some(c) => Ok(c),
        None => Err(concat3("## ", t.nodes[n].kind.as_str(), ": next_named node missing.")),
    }
}

/// The previous named sibling of a node (comments count), if any.
pub fn prev_named_sibling(t: &SyntaxTree, n: usize) -> (r: Option<usize>)
    requires
        t.wf(),
        t.valid(n as int),
    ensures
        r == prev_named(t, n as int),
        r matches Some(c) ==> t.valid(c as int) && t.nodes@[c as int].is_named,
{
    match t.nodes[n].parent {
        None => None,
        Some(p) => {
            let siblings = &t.nodes[p].children;
            let ip = t.nodes[n].index_in_parent;
            let mut k = ip;
            while k > 0
                invariant
                    t.wf(),
                    t.valid(n as int),
                    t.valid(p as int),
                    t.nodes@[n as int].parent == Some(p),
                    siblings == &t.nodes@[p as int].children,
                    ip == t.nodes@[n as int].index_in_parent,
                    ip < siblings@.len(),
                    k <= ip,
                    last_named_before(t, p as int, ip as int) == last_named_before(t, p as int, k as int),
                decreases k,
            {
                let c = siblings[k - 1];
                assert(t.nodes@[p as int].children@[k - 1] == c);
                if t.nodes[c].is_named {
                    return Some(c);
                }
                k = k - 1;
            }
            None
        },
    }
}

} // verus!
