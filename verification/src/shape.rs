//! Indentation levels and the room a line has left.
use crate::config::Config;
use crate::strs::string_push;
use vstd::prelude::*;

verus! {

/// A number of indentation levels.
#[derive(Clone, Copy, PartialEq, Eq, Structural)]
pub struct Indent {
    pub block_indent: usize,
}

impl Indent {
    pub fn default() -> (r: Indent)
        ensures
            r.block_indent == 0,
    {
        Indent::new(0)
    }

    pub fn new(block_indent: usize) -> (r: Indent)
        ensures
            r.block_indent == block_indent,
    {
        Indent { block_indent }
    }

    /// One level more.
    pub fn copy_with_increased_block_indent(&self) -> (r: Self)
        requires
            self.block_indent < usize::MAX,
        ensures
            r.block_indent == self.block_indent + 1,
    {
        Indent { block_indent: self.block_indent + 1 }
    }

    /// The indentation as spaces: `indent_size` for each level.
    pub fn as_string(&self, config: &Config) -> (r: String)
        requires
            self.block_indent * config.indent_size <= usize::MAX,
        ensures
            r@ == Seq::new((self.block_indent * config.indent_size) as nat, |i: int| ' '),
    {
        let n = self.block_indent * config.indent_size;
        let mut s = String::new();
        let mut i: usize = 0;
        while i < n
            invariant
                i <= n,
                s@ == Seq::new(i as nat, |k: int| ' '),
            decreases n - i,
        {
            string_push(&mut s, ' ');
            i = i + 1;
            assert(s@ =~= Seq::new(i as nat, |k: int| ' '));
        }
        s
    }
}

/// Where a piece of output stands: its indentation, the room taken on its
/// line, whether it stands alone, and whether it must fit one line.
#[derive(Clone, Copy, PartialEq, Eq, Structural)]
pub struct Shape {
    pub indent: Indent,
    pub offset: usize,
    pub standalone: bool,
    pub single_line_only: bool,
}

impl Shape {
    pub fn clone_with_standalone(&self, stand_alone: bool) -> (r: Self)
        ensures
            r == (Shape { standalone: stand_alone, ..*self }),
    {
        Shape {
            indent: self.indent,
            offset: self.offset,
            standalone: stand_alone,
            single_line_only: self.single_line_only,
        }
    }

    /// No indentation, nothing taken, standing alone, free to break.
    pub fn empty() -> (r: Self)
        ensures
            r.indent.block_indent == 0,
            r.offset == 0,
            r.standalone,
            !r.single_line_only,
    {
        Shape { indent: Indent::default(), offset: 0, standalone: true, single_line_only: false }
    }

    /// The same shape one indentation level deeper.
    pub fn clone_with_indent_increase(&self) -> (r: Self)
        requires
            self.indent.block_indent < usize::MAX,
        ensures
            r == (Shape { indent: Indent { block_indent: (self.indent.block_indent + 1) as usize }, ..*self }),
    {
        let indent = self.indent.copy_with_increased_block_indent();
        Shape { indent, offset: self.offset, standalone: self.standalone, single_line_only: self.single_line_only }
    }

    pub fn single_line_only(self, flag: bool) -> (r: Self)
        ensures
            r == (Shape { single_line_only: flag, ..self }),
    {
        let mut s = self;
        s.single_line_only = flag;
        s
    }

    pub fn standalone(self, flag: bool) -> (r: Self)
        ensures
            r == (Shape { standalone: flag, ..self }),
    {
        let mut s = self;
        s.standalone = flag;
        s
    }

    /// The columns the indentation takes.
    pub fn indent_len(&self, config: &Config) -> (r: usize)
        requires
            self.indent.block_indent * config.indent_size <= usize::MAX,
        ensures
            r == self.indent.block_indent * config.indent_size,
    {
        self.indent.block_indent * config.indent_size
    }
}

} // verus!
