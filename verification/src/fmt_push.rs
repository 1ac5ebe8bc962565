//! Appending pieces of text to an output while keeping the line offset of a
//! `Shape` up to date.
use crate::shape::Shape;
use crate::strs::{bytes_of, string_push, string_push_str};
use vstd::prelude::*;

verus! {

broadcast use {vstd::string::group_string_axioms, vstd::utf8::group_utf8_lib};

/// Something that can be appended to a `String`, reporting the width it took.
pub trait Pushable: Sized {
    /// The characters that pushing appends.
    spec fn pushed(&self) -> Seq<char>;

    /// The width that pushing reports.
    spec fn pushed_width(&self) -> nat;

    fn push_to_string(self, s: &mut String) -> (r: usize)
        ensures
            final(s)@ == old(s)@ + self.pushed(),
            r == self.pushed_width(),
    ;
}

/// A string slice takes its length in bytes.
impl<'a> Pushable for &'a str {
    open spec fn pushed(&self) -> Seq<char> {
        (*self)@
    }

    open spec fn pushed_width(&self) -> nat {
        (bytes_of((*self)@).len() as usize) as nat
    }

    fn push_to_string(self, s: &mut String) -> (r: usize) {
        let len = self.len();
        string_push_str(s, self);
        len
    }
}

/// A character takes one column.
impl Pushable for char {
    open spec fn pushed(&self) -> Seq<char> {
        seq![*self]
    }

    open spec fn pushed_width(&self) -> nat {
        1
    }

    fn push_to_string(self, s: &mut String) -> (r: usize) {
        string_push(s, self);
        1
    }
}

/// A string takes its length in bytes.
impl<'a> Pushable for &'a String {
    open spec fn pushed(&self) -> Seq<char> {
        (*self)@
    }

    open spec fn pushed_width(&self) -> nat {
        (bytes_of((*self)@).len() as usize) as nat
    }

    fn push_to_string(self, s: &mut String) -> (r: usize) {
        let len = self.as_str().len();
        string_push_str(s, self.as_str());
        len
    }
}

/// An output that text can be pushed to, moving the offset of a shape along.
pub trait FmtPush {
    /// The text held so far.
    spec fn text(&self) -> Seq<char>;

    fn fmt_push<P: Pushable>(&mut self, item: P, shape: &mut Shape)
        requires
            old(shape).offset + item.pushed_width() <= usize::MAX,
        ensures
            final(self).text() == old(self).text() + item.pushed(),
            *final(shape) == (Shape { offset: (old(shape).offset + item.pushed_width()) as usize, ..*old(shape) }),
    ;
}

impl FmtPush for String {
    open spec fn text(&self) -> Seq<char> {
        self@
    }

    fn fmt_push<P: Pushable>(&mut self, item: P, shape: &mut Shape) {
        let len = item.push_to_string(self);
        shape.offset = shape.offset + len;
    }
}

} // verus!
