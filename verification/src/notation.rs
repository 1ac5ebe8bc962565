//! A smaller layout notation in the style of Wadler's printer: texts, line
//! breaks, indentation, flattening, concatenation and choices, allocated in an
//! arena by `NBuilder`.
use crate::doc_builder::{arena_alloc, arena_new};
use crate::strs::owned;
use vstd::prelude::*;

verus! {

pub type NRef<'a> = &'a N<'a>;

/// One node of a notation.
pub enum N<'a> {
    Newline,
    /// Text holding no line break, with its width.
    Text(String, u32),
    Flat(NRef<'a>),
    Indent(u32, NRef<'a>),
    Concat(Vec<NRef<'a>>),
    Choice(NRef<'a>, NRef<'a>),
}

/// The number of nodes of a notation, counted as a tree.
pub open spec fn n_size(n: N) -> nat
    decreases n,
{
    match n {
        N::Flat(x) => 1 + n_size(*x),
        N::Indent(_, x) => 1 + n_size(*x),
        N::Choice(x, y) => 1 + n_size(*x) + n_size(*y),
        N::Concat(v) => 1 + ns_size(v@, v@.len() as int),
        _ => 1,
    }
}

/// The summed size of the first `k` notations of `s`.
pub open spec fn ns_size<'a>(s: Seq<NRef<'a>>, k: int) -> nat
    decreases s, k,
{
    if k <= 0 || k > s.len() {
        0
    } else {
        ns_size(s, k - 1) + n_size(*s[k - 1])
    }
}

/// The width of a text: its length in bytes, as the `u32` it is stored in.
pub open spec fn n_text_width(s: Seq<char>) -> u32 {
    (crate::strs::bytes_of(s).len() as usize) as u32
}

/// An arena of notation nodes.
pub struct NBuilder<'a> {
    arena: typed_arena::Arena<N<'a>>,
}

impl<'a> NBuilder<'a> {
    pub fn new() -> (r: NBuilder<'a>) {
        NBuilder { arena: arena_new() }
    }

    pub fn nl(&'a self) -> (r: NRef<'a>)
        ensures
            *r == N::Newline,
    {
        arena_alloc(&self.arena, N::Newline)
    }

    /// A text, with its byte length as width.
    pub fn txt(&'a self, text: &str) -> (r: NRef<'a>)
        ensures
            *r matches N::Text(s, w) && s@ == text@ && w == n_text_width(text@),
    {
        let string = owned(text);
        let width = text.len() as u32;
        arena_alloc(&self.arena, N::Text(string, width))
    }

    pub fn flat(&'a self, n_ref: NRef<'a>) -> (r: NRef<'a>)
        ensures
            *r == N::Flat(n_ref),
    {
        arena_alloc(&self.arena, N::Flat(n_ref))
    }

    pub fn indent(&'a self, indent: u32, n_ref: NRef<'a>) -> (r: NRef<'a>)
        ensures
            *r == N::Indent(indent, n_ref),
    {
        arena_alloc(&self.arena, N::Indent(indent, n_ref))
    }

    pub fn concat(&'a self, n_refs: Vec<NRef<'a>>) -> (r: NRef<'a>)
        ensures
            *r matches N::Concat(v) && v@ == n_refs@,
    {
        arena_alloc(&self.arena, N::Concat(n_refs))
    }

    pub fn choice(&'a self, first: NRef<'a>, second: NRef<'a>) -> (r: NRef<'a>)
        ensures
            *r == N::Choice(first, second),
    {
        arena_alloc(&self.arena, N::Choice(first, second))
    }
}

} // verus!
