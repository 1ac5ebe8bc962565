//! The document algebra and the width-aware pretty printer.
//!
//! A `Doc` describes a layout: text, line breaks of several kinds, indentation,
//! flattened groups and choices between a single-line and a multi-line variant.
//! `pretty_print` renders a `Doc` into a `String`, choosing for every `Choice`
//! the first variant whenever its first line fits in the remaining width.
use crate::doc_builder::concat_parts;
use crate::strs::{string_push, string_push_str};
use vstd::prelude::*;

verus! {

pub type DocRef<'a> = &'a Doc<'a>;

/// One node of the layout description.
pub enum Doc<'a> {
    Newline,
    NewlineWithNoIndent,
    /// Immediately uses the multi-line variant in an enclosing choice.
    ForceBreak,
    /// Text holding no line break, with its width in bytes.
    Text(String, u32),
    /// A space when flat, a newline otherwise.
    Softline,
    /// Nothing when flat, a newline otherwise.
    Maybeline,
    Flat(DocRef<'a>),
    Indent(u32, DocRef<'a>),
    Dedent(u32, DocRef<'a>),
    Concat(Vec<DocRef<'a>>),
    Choice(DocRef<'a>, DocRef<'a>),
}

/// Placement of opening braces.
#[derive(Clone, Copy, PartialEq, Eq, Structural, Debug)]
pub enum BraceStyle {
    KAndR,
    Allman,
}

/// Character used to materialise indentation.
#[derive(Clone, Copy, PartialEq, Eq, Structural, Debug)]
pub enum IndentStyle {
    Space,
    Tab,
}

/// Column of the continuation stars of a JavaDoc comment.
#[derive(Clone, Copy, PartialEq, Eq, Structural, Debug)]
pub enum JavadocStarColumn {
    Offset,
    Flush,
}

impl BraceStyle {
    pub fn default() -> (r: Self)
        ensures
            r == BraceStyle::KAndR,
    {
        BraceStyle::KAndR
    }
}

impl IndentStyle {
    pub fn default() -> (r: Self)
        ensures
            r == IndentStyle::Space,
    {
        IndentStyle::Space
    }
}

impl JavadocStarColumn {
    pub fn default() -> (r: Self)
        ensures
            r == JavadocStarColumn::Offset,
    {
        JavadocStarColumn::Offset
    }
}

/// The settings that the document builder and the printer read.
#[derive(Clone, Copy)]
pub struct PrettyConfig {
    pub indent_size: u32,
    pub brace_style: BraceStyle,
    pub wrap_single_statements: bool,
    pub indent_style: IndentStyle,
    pub javadoc_star_column: JavadocStarColumn,
    pub normalize_annotation_casing: bool,
}

impl PrettyConfig {
    pub open spec fn wf(self) -> bool {
        self.indent_size > 0
    }

    pub fn new(
        indent_size: u32,
        brace_style: BraceStyle,
        wrap_single_statements: bool,
        indent_style: IndentStyle,
        javadoc_star_column: JavadocStarColumn,
        normalize_annotation_casing: bool,
    ) -> (r: Self)
        requires
            indent_size > 0,
        ensures
            r.indent_size == indent_size,
            r.brace_style == brace_style,
            r.wrap_single_statements == wrap_single_statements,
            r.indent_style == indent_style,
            r.javadoc_star_column == javadoc_star_column,
            r.normalize_annotation_casing == normalize_annotation_casing,
            r.wf(),
    {
        PrettyConfig {
            indent_size,
            brace_style,
            wrap_single_statements,
            indent_style,
            javadoc_star_column,
            normalize_annotation_casing,
        }
    }
}

/// The widest indentation that is materialised on a line, in columns.
pub const MAX_MATERIALIZED_INDENT: u32 = 256;

// ---------------------------------------------------------------------------
// Sizes, for termination.
// ---------------------------------------------------------------------------
/// The number of nodes of a document, counted as a tree.
pub open spec fn doc_size(d: Doc) -> nat
    decreases d,
{
    match d {
        Doc::Flat(x) => 1 + doc_size(*x),
        Doc::Indent(_, x) => 1 + doc_size(*x),
        Doc::Dedent(_, x) => 1 + doc_size(*x),
        Doc::Choice(x, y) => 1 + doc_size(*x) + doc_size(*y),
        Doc::Concat(v) => 1 + docs_size(v@, v@.len() as int),
        _ => 1,
    }
}

/// The summed size of the first `n` documents of `s`.
pub open spec fn docs_size<'a>(s: Seq<DocRef<'a>>, n: int) -> nat
    decreases s, n,
{
    if n <= 0 || n > s.len() {
        0
    } else {
        docs_size(s, n - 1) + doc_size(*s[n - 1])
    }
}

/// A document to print together with the indentation and flatness in force.
#[derive(Clone, Copy)]
pub struct Chunk<'a> {
    pub doc_ref: DocRef<'a>,
    pub indent: u32,
    pub flat: bool,
}

pub open spec fn chunk_size(c: Chunk) -> nat {
    doc_size(*c.doc_ref)
}

pub open spec fn chunks_size<'a>(s: Seq<Chunk<'a>>) -> nat
    decreases s.len(),
{
    if s.len() == 0 {
        0
    } else {
        chunks_size(s.drop_last()) + chunk_size(s.last())
    }
}

pub open spec fn spec_with_doc<'a>(c: Chunk<'a>, d: DocRef<'a>) -> Chunk<'a> {
    Chunk { doc_ref: d, indent: c.indent, flat: c.flat }
}

pub open spec fn sat_add(a: u32, b: u32) -> u32 {
    if a + b > u32::MAX {
        u32::MAX
    } else {
        (a + b) as u32
    }
}

pub open spec fn sat_sub(a: u32, b: u32) -> u32 {
    if a >= b {
        (a - b) as u32
    } else {
        0
    }
}

/// The chunks that a concatenation leaves on the stack: its parts, last part
/// lowest, so that the first part is popped first.
pub open spec fn concat_chunks<'a>(c: Chunk<'a>, v: Seq<DocRef<'a>>) -> Seq<Chunk<'a>> {
    Seq::new(v.len(), |i: int| spec_with_doc(c, v[v.len() - 1 - i]))
}

// ---------------------------------------------------------------------------
// Lemmas on sizes.
// ---------------------------------------------------------------------------
pub proof fn lemma_chunks_size_append<'a>(s1: Seq<Chunk<'a>>, s2: Seq<Chunk<'a>>)
    ensures
        chunks_size(s1 + s2) == chunks_size(s1) + chunks_size(s2),
    decreases s2.len(),
{
    if s2.len() == 0 {
        assert(s1 + s2 =~= s1);
    } else {
        assert((s1 + s2).drop_last() =~= s1 + s2.drop_last());
        lemma_chunks_size_append(s1, s2.drop_last());
    }
}

pub proof fn lemma_chunks_size_push<'a>(s: Seq<Chunk<'a>>, c: Chunk<'a>)
    ensures
        chunks_size(s.push(c)) == chunks_size(s) + chunk_size(c),
{
    assert(s.push(c).drop_last() =~= s);
}

pub proof fn lemma_concat_chunks_size<'a>(c: Chunk<'a>, v: Seq<DocRef<'a>>)
    ensures
        chunks_size(concat_chunks(c, v)) == docs_size(v, v.len() as int),
    decreases v.len(),
{
    if v.len() == 0 {
    } else {
        let w = v.drop_last();
        lemma_concat_chunks_size(c, w);
        // concat_chunks(c, v) == [chunk(v.last())] + concat_chunks(c, w)
        let head = seq![spec_with_doc(c, v.last())];
        assert(concat_chunks(c, v) =~= head + concat_chunks(c, w));
        lemma_chunks_size_append(head, concat_chunks(c, w));
        assert(head.drop_last() =~= Seq::<Chunk>::empty());
        assert(chunks_size(Seq::<Chunk>::empty()) == 0);
        assert(chunks_size(head) == doc_size(*v.last()));
        lemma_docs_size_prefix(v, v.len() - 1);
        assert(w =~= v.subrange(0, v.len() - 1));
        assert(docs_size(v, v.len() as int) == docs_size(v, v.len() - 1) + doc_size(*v[v.len() - 1]));
    }
}

pub proof fn lemma_docs_size_prefix<'a>(v: Seq<DocRef<'a>>, n: int)
    requires
        0 <= n <= v.len(),
    ensures
        docs_size(v.subrange(0, n), n) == docs_size(v, n),
    decreases n,
{
    if n > 0 {
        lemma_docs_size_prefix(v, n - 1);
        lemma_docs_size_sub(v, n, n - 1);
    }
}

pub proof fn lemma_docs_size_sub<'a>(v: Seq<DocRef<'a>>, m: int, n: int)
    requires
        0 <= n <= m <= v.len(),
    ensures
        docs_size(v.subrange(0, m), n) == docs_size(v, n),
    decreases n,
{
    if n > 0 {
        lemma_docs_size_sub(v, m, n - 1);
    }
}

// ---------------------------------------------------------------------------
// The meaning of fitting and printing.
// ---------------------------------------------------------------------------
/// Whether the rest of the current line fits: `stack` is processed first, then
/// the printer's pending chunks `rest`, last first, until a line break.
pub open spec fn spec_fits<'a>(remaining: u32, stack: Seq<Chunk<'a>>, rest: Seq<Chunk<'a>>) -> bool
    decreases chunks_size(stack) + chunks_size(rest),
{
    if stack.len() == 0 && rest.len() == 0 {
        true
    } else {
        let from_stack = stack.len() > 0;
        let chunk = if from_stack {
            stack.last()
        } else {
            rest.last()
        };
        let stack2 = if from_stack {
            stack.drop_last()
        } else {
            stack
        };
        let rest2 = if from_stack {
            rest
        } else {
            rest.drop_last()
        };
        proof {
            if from_stack {
                assert(stack.drop_last().push(stack.last()) =~= stack);
                lemma_chunks_size_push(stack.drop_last(), stack.last());
            } else {
                assert(rest.drop_last().push(rest.last()) =~= rest);
                lemma_chunks_size_push(rest.drop_last(), rest.last());
            }
        }
        match *chunk.doc_ref {
            Doc::Newline | Doc::NewlineWithNoIndent => true,
            Doc::ForceBreak => false,
            Doc::Softline => {
                if chunk.flat {
                    if remaining >= 1 {
                        spec_fits((remaining - 1) as u32, stack2, rest2)
                    } else {
                        false
                    }
                } else {
                    true
                }
            },
            Doc::Maybeline => {
                if !chunk.flat {
                    true
                } else {
                    spec_fits(remaining, stack2, rest2)
                }
            },
            Doc::Text(_, w) => {
                if w <= remaining {
                    spec_fits((remaining - w) as u32, stack2, rest2)
                } else {
                    false
                }
            },
            Doc::Flat(x) => {
                let c = Chunk { doc_ref: x, indent: chunk.indent, flat: true };
                proof { lemma_chunks_size_push(stack2, c); }
                spec_fits(remaining, stack2.push(c), rest2)
            },
            Doc::Indent(i, x) => {
                let c = Chunk { doc_ref: x, indent: sat_add(chunk.indent, i), flat: chunk.flat };
                proof { lemma_chunks_size_push(stack2, c); }
                spec_fits(remaining, stack2.push(c), rest2)
            },
            Doc::Dedent(i, x) => {
                let c = Chunk { doc_ref: x, indent: sat_sub(chunk.indent, i), flat: chunk.flat };
                proof { lemma_chunks_size_push(stack2, c); }
                spec_fits(remaining, stack2.push(c), rest2)
            },
            Doc::Concat(v) => {
                proof {
                    lemma_concat_chunks_size(chunk, v@);
                    lemma_chunks_size_append(stack2, concat_chunks(chunk, v@));
                }
                spec_fits(remaining, stack2 + concat_chunks(chunk, v@), rest2)
            },
            Doc::Choice(x, y) => {
                let c = if chunk.flat {
                    spec_with_doc(chunk, x)
                } else {
                    spec_with_doc(chunk, y)
                };
                proof { lemma_chunks_size_push(stack2, c); }
                spec_fits(remaining, stack2.push(c), rest2)
            },
        }
    }
}

/// Whether `chunk`, followed by the pending chunks `rest`, fits on the current
/// line, starting at column `col` of a line at most `max_width` wide. A width of
/// zero never breaks a line.
pub open spec fn spec_fits_from<'a>(max_width: u32, col: u32, chunk: Chunk<'a>, rest: Seq<Chunk<'a>>) -> bool {
    max_width == 0 || spec_fits(sat_sub(max_width, col), seq![chunk], rest)
}

/// The columns of indentation actually written for a logical indentation.
pub open spec fn materialized_indent(indent: u32) -> u32 {
    if indent > MAX_MATERIALIZED_INDENT {
        MAX_MATERIALIZED_INDENT
    } else {
        indent
    }
}

/// The characters written for `indent` columns of indentation.
pub open spec fn indent_chars(cfg: PrettyConfig, indent: u32) -> Seq<char> {
    let cols = materialized_indent(indent);
    match cfg.indent_style {
        IndentStyle::Space => Seq::new(cols as nat, |i: int| ' '),
        IndentStyle::Tab => Seq::new((cols / cfg.indent_size) as nat, |i: int| '\t') + Seq::new(
            (cols % cfg.indent_size) as nat,
            |i: int| ' ',
        ),
    }
}

/// The state of the printer between two steps.
pub struct PrintState<'a> {
    pub chunks: Seq<Chunk<'a>>,
    pub col: u32,
    pub out: Seq<char>,
    pub pending: bool,
    pub pending_indent: u32,
}

/// A line break followed by the indentation of `indent`.
pub open spec fn newline_with_indent(cfg: PrettyConfig, out: Seq<char>, indent: u32) -> Seq<char> {
    out.push('\n') + indent_chars(cfg, indent)
}

/// Output and column after a pending line break, if any, is written.
pub open spec fn flush_out<'a>(cfg: PrettyConfig, s: PrintState<'a>) -> Seq<char> {
    if s.pending {
        newline_with_indent(cfg, s.out, s.pending_indent)
    } else {
        s.out
    }
}

pub open spec fn flush_col<'a>(s: PrintState<'a>) -> u32 {
    if s.pending {
        materialized_indent(s.pending_indent)
    } else {
        s.col
    }
}

pub open spec fn ends_with_space(s: Seq<char>) -> bool {
    s.len() > 0 && s.last() == ' '
}

/// One step of the printer: the top chunk is taken and acted on.
pub open spec fn print_step<'a>(cfg: PrettyConfig, max_width: u32, s: PrintState<'a>) -> PrintState<'a>
    recommends
        s.chunks.len() > 0,
{
    let chunk = s.chunks.last();
    let rest = s.chunks.drop_last();
    match *chunk.doc_ref {
        Doc::Newline => PrintState {
            chunks: rest,
            pending: true,
            pending_indent: chunk.indent,
            ..s
        },
        Doc::NewlineWithNoIndent => PrintState {
            chunks: rest,
            out: s.out.push('\n'),
            col: 0,
            pending: false,
            pending_indent: 0,
        },
        Doc::Softline => if chunk.flat {
            PrintState { chunks: rest, out: s.out.push(' '), col: sat_add(s.col, 1), ..s }
        } else {
            PrintState { chunks: rest, pending: true, pending_indent: chunk.indent, ..s }
        },
        Doc::Maybeline => if chunk.flat {
            PrintState { chunks: rest, ..s }
        } else {
            PrintState { chunks: rest, pending: true, pending_indent: chunk.indent, ..s }
        },
        Doc::ForceBreak => PrintState { chunks: rest, ..s },
        Doc::Text(t, w) => {
            let out1 = flush_out(cfg, s);
            let col1 = flush_col(s);
            if t@ == seq![' '] && ends_with_space(out1) {
                PrintState { chunks: rest, out: out1, col: col1, pending: false, pending_indent: 0 }
            } else {
                PrintState {
                    chunks: rest,
                    out: out1 + t@,
                    col: sat_add(col1, w),
                    pending: false,
                    pending_indent: 0,
                }
            }
        },
        Doc::Flat(x) => PrintState {
            chunks: rest.push(Chunk { doc_ref: x, indent: chunk.indent, flat: true }),
            ..s
        },
        Doc::Indent(i, x) => PrintState {
            chunks: rest.push(
                Chunk { doc_ref: x, indent: sat_add(chunk.indent, i), flat: chunk.flat },
            ),
            ..s
        },
        Doc::Dedent(i, x) => PrintState {
            chunks: rest.push(
                Chunk { doc_ref: x, indent: sat_sub(chunk.indent, i), flat: chunk.flat },
            ),
            ..s
        },
        Doc::Concat(v) => PrintState { chunks: rest + concat_chunks(chunk, v@), ..s },
        Doc::Choice(x, y) => {
            let out1 = flush_out(cfg, s);
            let col1 = flush_col(s);
            let pick = if chunk.flat || spec_fits_from(max_width, col1, spec_with_doc(chunk, x), rest) {
                x
            } else {
                y
            };
            PrintState {
                chunks: rest.push(spec_with_doc(chunk, pick)),
                out: out1,
                col: col1,
                pending: false,
                pending_indent: 0,
            }
        },
    }
}

pub proof fn lemma_print_step_decreases<'a>(cfg: PrettyConfig, max_width: u32, s: PrintState<'a>)
    requires
        s.chunks.len() > 0,
    ensures
        chunks_size(print_step(cfg, max_width, s).chunks) < chunks_size(s.chunks),
{
    let chunk = s.chunks.last();
    let rest = s.chunks.drop_last();
    assert(rest.push(chunk) =~= s.chunks);
    lemma_chunks_size_push(rest, chunk);
    match *chunk.doc_ref {
        Doc::Flat(x) => {
            lemma_chunks_size_push(rest, Chunk { doc_ref: x, indent: chunk.indent, flat: true });
        },
        Doc::Indent(i, x) => {
            lemma_chunks_size_push(
                rest,
                Chunk { doc_ref: x, indent: sat_add(chunk.indent, i), flat: chunk.flat },
            );
        },
        Doc::Dedent(i, x) => {
            lemma_chunks_size_push(
                rest,
                Chunk { doc_ref: x, indent: sat_sub(chunk.indent, i), flat: chunk.flat },
            );
        },
        Doc::Concat(v) => {
            lemma_concat_chunks_size(chunk, v@);
            lemma_chunks_size_append(rest, concat_chunks(chunk, v@));
        },
        Doc::Choice(x, y) => {
            lemma_chunks_size_push(rest, spec_with_doc(chunk, x));
            lemma_chunks_size_push(rest, spec_with_doc(chunk, y));
        },
        _ => {},
    }
}

/// The output of the printer from state `s` on: steps until no chunk is left,
/// then writes a pending line break.
pub open spec fn print_run<'a>(cfg: PrettyConfig, max_width: u32, s: PrintState<'a>) -> Seq<char>
    decreases chunks_size(s.chunks),
{
    if s.chunks.len() == 0 {
        flush_out(cfg, s)
    } else {
        proof { lemma_print_step_decreases(cfg, max_width, s); }
        print_run(cfg, max_width, print_step(cfg, max_width, s))
    }
}

pub open spec fn initial_state<'a>(doc_ref: DocRef<'a>) -> PrintState<'a> {
    PrintState {
        chunks: seq![Chunk { doc_ref, indent: 0, flat: false }],
        col: 0,
        out: Seq::empty(),
        pending: false,
        pending_indent: 0,
    }
}

/// What `pretty_print` writes for a document.
pub open spec fn spec_pretty_print<'a>(doc_ref: DocRef<'a>, max_width: u32, cfg: PrettyConfig) -> Seq<
    char,
> {
    print_run(cfg, max_width, initial_state(doc_ref))
}

// ---------------------------------------------------------------------------
// Executable printer.
// ---------------------------------------------------------------------------
/// Whether a text is exactly one space.
fn is_single_space(t: &String) -> (r: bool)
    ensures
        r == (t@ == seq![' ']),
{
    let s = t.as_str();
    if s.unicode_len() != 1 {
        return false;
    }
    let c = s.get_char(0);
    if c == ' ' {
        assert(t@ =~= seq![' ']);
        true
    } else {
        false
    }
}

/// Whether a text ends with a space.
fn text_ends_with_space(t: &String) -> (r: bool)
    ensures
        r == ends_with_space(t@),
{
    let s = t.as_str();
    let n = s.unicode_len();
    if n == 0 {
        false
    } else {
        s.get_char(n - 1) == ' '
    }
}

pub fn pretty_print<'a>(doc_ref: DocRef<'a>, max_width: u32, config: PrettyConfig) -> (r: String)
    requires
        config.wf(),
    ensures
        r@ == spec_pretty_print(doc_ref, max_width, config),
{
    let mut printer = PrettyPrinter::new(doc_ref, max_width, config);
    printer.print()
}

struct PrettyPrinter<'a> {
    max_width: u32,
    col: u32,
    chunks: Vec<Chunk<'a>>,
    config: PrettyConfig,
}

impl<'a> Chunk<'a> {
    fn with_doc(self, doc_ref: DocRef<'a>) -> (r: Self)
        ensures
            r == spec_with_doc(self, doc_ref),
    {
        Chunk { doc_ref, indent: self.indent, flat: self.flat }
    }

    fn indented(self, indent: u32, doc_ref: DocRef<'a>) -> (r: Self)
        ensures
            r == (Chunk { doc_ref, indent: sat_add(self.indent, indent), flat: self.flat }),
    {
        Chunk { doc_ref, indent: self.indent.saturating_add(indent), flat: self.flat }
    }

    fn dedented(self, indent: u32, doc_ref: DocRef<'a>) -> (r: Self)
        ensures
            r == (Chunk { doc_ref, indent: sat_sub(self.indent, indent), flat: self.flat }),
    {
        Chunk { doc_ref, indent: self.indent.saturating_sub(indent), flat: self.flat }
    }

    fn flat(self, doc_ref: DocRef<'a>) -> (r: Self)
        ensures
            r == (Chunk { doc_ref, indent: self.indent, flat: true }),
    {
        Chunk { doc_ref, indent: self.indent, flat: true }
    }
}

/// A line break waiting for the next text, with the indentation to write.
struct NewlineBuffer {
    has_pending_newline: bool,
    indent_level: u32,
}

impl NewlineBuffer {
    fn new() -> (r: Self)
        ensures
            !r.has_pending_newline,
            r.indent_level == 0,
    {
        NewlineBuffer { has_pending_newline: false, indent_level: 0 }
    }

    fn set_pending(&mut self, indent: u32)
        ensures
            final(self).has_pending_newline,
            final(self).indent_level == indent,
    {
        self.has_pending_newline = true;
        self.indent_level = indent;
    }

    fn clear(&mut self)
        ensures
            !final(self).has_pending_newline,
            final(self).indent_level == 0,
    {
        self.has_pending_newline = false;
        self.indent_level = 0;
    }

    fn is_pending(&self) -> (r: bool)
        ensures
            r == self.has_pending_newline,
    {
        self.has_pending_newline
    }

    fn get_indent(&self) -> (r: u32)
        ensures
            r == self.indent_level,
    {
        self.indent_level
    }
}

impl<'a> PrettyPrinter<'a> {
    fn new(doc_ref: DocRef<'a>, max_width: u32, config: PrettyConfig) -> (r: Self)
        ensures
            r.chunks@ == initial_state(doc_ref).chunks,
            r.col == 0,
            r.max_width == max_width,
            r.config == config,
    {
        let chunk = Chunk { doc_ref, indent: 0, flat: false };
        let mut chunks = Vec::new();
        chunks.push(chunk);
        PrettyPrinter { max_width, col: 0, chunks, config }
    }

    spec fn state(&self, out: Seq<char>, nb: NewlineBuffer) -> PrintState<'a> {
        PrintState {
            chunks: self.chunks@,
            col: self.col,
            out,
            pending: nb.has_pending_newline,
            pending_indent: nb.indent_level,
        }
    }

    fn insert_newline_with_indent(&mut self, result: &mut String, indent: u32, last_space: &mut bool)
        requires
            old(self).config.wf(),
            *old(last_space) == ends_with_space(old(result)@),
        ensures
            final(result)@ == newline_with_indent(old(self).config, old(result)@, indent),
            final(self).col == materialized_indent(indent),
            final(self).chunks == old(self).chunks,
            final(self).max_width == old(self).max_width,
            final(self).config == old(self).config,
            *final(last_space) == ends_with_space(final(result)@),
    {
        string_push(result, '\n');
        let cols = if indent > MAX_MATERIALIZED_INDENT {
            MAX_MATERIALIZED_INDENT
        } else {
            indent
        };
        let ghost base = result@;
        let (tabs, spaces) = match self.config.indent_style {
            IndentStyle::Space => (0u32, cols),
            IndentStyle::Tab => (cols / self.config.indent_size, cols % self.config.indent_size),
        };
        let mut i: u32 = 0;
        while i < tabs
            invariant
                i <= tabs,
                result@ == base + Seq::new(i as nat, |k: int| '\t'),
            decreases tabs - i,
        {
            string_push(result, '\t');
            i = i + 1;
            assert(result@ =~= base + Seq::new(i as nat, |k: int| '\t'));
        }
        let ghost base2 = result@;
        let mut j: u32 = 0;
        while j < spaces
            invariant
                j <= spaces,
                result@ == base2 + Seq::new(j as nat, |k: int| ' '),
            decreases spaces - j,
        {
            string_push(result, ' ');
            j = j + 1;
            assert(result@ =~= base2 + Seq::new(j as nat, |k: int| ' '));
        }
        proof {
            let cfg = self.config;
            match cfg.indent_style {
                IndentStyle::Space => {
                    assert(Seq::new(0, |k: int| '\t') =~= Seq::<char>::empty());
                    assert(result@ =~= newline_with_indent(cfg, old(result)@, indent));
                },
                IndentStyle::Tab => {
                    assert(result@ =~= newline_with_indent(cfg, old(result)@, indent));
                },
            }
        }
        *last_space = spaces > 0;
        proof {
            let r = result@;
            if spaces > 0 {
                assert(r.last() == ' ');
            } else {
                if tabs > 0 {
                    assert(r.last() == '\t');
                } else {
                    assert(r =~= old(result)@.push('\n'));
                    assert(r.last() == '\n');
                }
            }
        }
        self.col = cols;
    }

    fn print(&mut self) -> (r: String)
        requires
            old(self).config.wf(),
            old(self).col == 0,
        ensures
            r@ == print_run(
                old(self).config,
                old(self).max_width,
                PrintState {
                    chunks: old(self).chunks@,
                    col: 0,
                    out: Seq::empty(),
                    pending: false,
                    pending_indent: 0,
                },
            ),
    {
        let mut result = String::new();
        let mut newline_buffer = NewlineBuffer::new();
        let mut last_space = false;
        let ghost cfg = self.config;
        let ghost mw = self.max_width;
        let ghost total = print_run(cfg, mw, self.state(result@, newline_buffer));

        while self.chunks.len() > 0
            invariant
                self.config == cfg,
                self.max_width == mw,
                cfg.wf(),
                last_space == ends_with_space(result@),
                !newline_buffer.has_pending_newline ==> newline_buffer.indent_level == 0,
                print_run(cfg, mw, self.state(result@, newline_buffer)) == total,
            decreases chunks_size(self.chunks@),
        {
            let ghost before = self.state(result@, newline_buffer);
            proof { lemma_print_step_decreases(cfg, mw, before); }
            let chunk = self.chunks.pop().unwrap();
            assert(chunk == before.chunks.last());
            assert(self.chunks@ == before.chunks.drop_last());
            match chunk.doc_ref {
                Doc::Newline => {
                    newline_buffer.set_pending(chunk.indent);
                },
                Doc::NewlineWithNoIndent => {
                    newline_buffer.clear();
                    string_push(&mut result, '\n');
                    last_space = false;
                    self.col = 0;
                },
                Doc::Softline => {
                    if chunk.flat {
                        string_push(&mut result, ' ');
                        last_space = true;
                        self.col = self.col.saturating_add(1);
                    } else {
                        newline_buffer.set_pending(chunk.indent);
                    }
                },
                Doc::Maybeline => {
                    if !chunk.flat {
                        newline_buffer.set_pending(chunk.indent);
                    }
                },
                Doc::ForceBreak => {},
                Doc::Text(text, width) => {
                    if newline_buffer.is_pending() {
                        let ind = newline_buffer.get_indent();
                        self.insert_newline_with_indent(&mut result, ind, &mut last_space);
                        newline_buffer.clear();
                    }
                    if is_single_space(text) && last_space {
                        // a single space after a space is dropped
                    } else {
                        string_push_str(&mut result, text.as_str());
                        if text_ends_with_space(text) {
                            last_space = true;
                        } else if text.as_str().unicode_len() > 0 {
                            last_space = false;
                        }
                        self.col = self.col.saturating_add(*width);
                    }
                },
                Doc::Flat(x) => {
                    self.chunks.push(chunk.flat(*x));
                },
                Doc::Indent(i, x) => {
                    self.chunks.push(chunk.indented(*i, *x));
                },
                Doc::Dedent(i, x) => {
                    self.chunks.push(chunk.dedented(*i, *x));
                },
                Doc::Concat(seq) => {
                    let ghost base = self.chunks@;
                    let ghost col0 = self.col;
                    let mut k = seq.len();
                    while k > 0
                        invariant
                            k <= seq.len(),
                            self.config == cfg,
                            self.max_width == mw,
                            self.col == col0,
                            self.chunks@ == base + Seq::new(
                                (seq@.len() - k) as nat,
                                |i: int| spec_with_doc(chunk, seq@[seq@.len() - 1 - i]),
                            ),
                        decreases k,
                    {
                        k = k - 1;
                        self.chunks.push(chunk.with_doc(seq[k]));
                        assert(self.chunks@ =~= base + Seq::new(
                            (seq@.len() - k) as nat,
                            |i: int| spec_with_doc(chunk, seq@[seq@.len() - 1 - i]),
                        ));
                    }
                    assert(self.chunks@ =~= base + concat_chunks(chunk, seq@));
                },
                Doc::Choice(x, y) => {
                    if newline_buffer.is_pending() {
                        let ind = newline_buffer.get_indent();
                        self.insert_newline_with_indent(&mut result, ind, &mut last_space);
                        newline_buffer.clear();
                    }
                    if chunk.flat {
                        self.chunks.push(chunk.with_doc(*x));
                    } else {
                        if self.fits(chunk.with_doc(*x)) {
                            self.chunks.push(chunk.with_doc(*x));
                        } else {
                            self.chunks.push(chunk.with_doc(*y));
                        }
                    }
                },
            }
            proof {
                let after = self.state(result@, newline_buffer);
                let expected = print_step(cfg, mw, before);
                assert(after.chunks =~= expected.chunks);
                assert(after.out =~= expected.out);
                assert(after.col == expected.col);
                assert(after.pending == expected.pending);
                assert(after.pending_indent == expected.pending_indent);
                assert(after == expected);
            }
        }
        if newline_buffer.is_pending() {
            let ind = newline_buffer.get_indent();
            self.insert_newline_with_indent(&mut result, ind, &mut last_space);
            newline_buffer.clear();
        }
        result
    }

    /// Whether `chunk` and what follows it up to the next line break fits in
    /// the rest of the current line.
    fn fits(&self, chunk: Chunk<'a>) -> (r: bool)
        ensures
            r == spec_fits_from(self.max_width, self.col, chunk, self.chunks@),
    {
        if self.max_width == 0 {
            return true;
        }
        let mut remaining_width = self.max_width.saturating_sub(self.col);
        let mut stack: Vec<Chunk<'a>> = Vec::new();
        stack.push(chunk);
        let mut idx = self.chunks.len();
        assert(self.chunks@.subrange(0, idx as int) =~= self.chunks@);
        loop
            invariant
                self.max_width > 0,
                idx <= self.chunks@.len(),
                spec_fits(remaining_width, stack@, self.chunks@.subrange(0, idx as int))
                    == spec_fits(sat_sub(self.max_width, self.col), seq![chunk], self.chunks@),
            decreases chunks_size(stack@) + chunks_size(self.chunks@.subrange(0, idx as int)),
        {
            let ghost st0 = stack@;
            let ghost rest0 = self.chunks@.subrange(0, idx as int);
            let ghost rw0 = remaining_width;
            let c = if stack.len() > 0 {
                stack.pop().unwrap()
            } else if idx > 0 {
                idx = idx - 1;
                assert(rest0.drop_last() =~= self.chunks@.subrange(0, idx as int));
                self.chunks[idx]
            } else {
                return true;
            };
            proof {
                if st0.len() > 0 {
                    assert(st0.drop_last().push(st0.last()) =~= st0);
                    lemma_chunks_size_push(st0.drop_last(), st0.last());
                } else {
                    assert(rest0.drop_last().push(rest0.last()) =~= rest0);
                    lemma_chunks_size_push(rest0.drop_last(), rest0.last());
                }
            }
            match c.doc_ref {
                Doc::Newline | Doc::NewlineWithNoIndent => return true,
                Doc::ForceBreak => {
                    assert(!spec_fits(rw0, st0, rest0));
                    return false;
                },
                Doc::Softline => {
                    if c.flat {
                        if remaining_width >= 1 {
                            remaining_width = remaining_width - 1;
                        } else {
                            return false;
                        }
                    } else {
                        return true;
                    }
                },
                Doc::Maybeline => {
                    if !c.flat {
                        return true;
                    }
                },
                Doc::Text(_, text_width) => {
                    if *text_width <= remaining_width {
                        remaining_width = remaining_width - *text_width;
                    } else {
                        return false;
                    }
                },
                Doc::Flat(x) => {
                    let nc = c.flat(*x);
                    proof { lemma_chunks_size_push(stack@, nc); }
                    stack.push(nc);
                },
                Doc::Indent(i, x) => {
                    let nc = c.indented(*i, *x);
                    proof { lemma_chunks_size_push(stack@, nc); }
                    stack.push(nc);
                },
                Doc::Dedent(i, x) => {
                    let nc = c.dedented(*i, *x);
                    proof { lemma_chunks_size_push(stack@, nc); }
                    stack.push(nc);
                },
                Doc::Concat(seq) => {
                    let ghost base = stack@;
                    proof {
                        lemma_concat_chunks_size(c, seq@);
                        lemma_chunks_size_append(base, concat_chunks(c, seq@));
                    }
                    let mut k = seq.len();
                    while k > 0
                        invariant
                            k <= seq.len(),
                            stack@ == base + Seq::new(
                                (seq@.len() - k) as nat,
                                |i: int| spec_with_doc(c, seq@[seq@.len() - 1 - i]),
                            ),
                        decreases k,
                    {
                        k = k - 1;
                        stack.push(c.with_doc(seq[k]));
                        assert(stack@ =~= base + Seq::new(
                            (seq@.len() - k) as nat,
                            |i: int| spec_with_doc(c, seq@[seq@.len() - 1 - i]),
                        ));
                    }
                    assert(stack@ =~= base + concat_chunks(c, seq@));
                },
                Doc::Choice(x, y) => {
                    if c.flat {
                        let nc = c.with_doc(*x);
                        proof { lemma_chunks_size_push(stack@, nc); }
                        stack.push(nc);
                    } else {
                        let nc = c.with_doc(*y);
                        proof { lemma_chunks_size_push(stack@, nc); }
                        stack.push(nc);
                    }
                },
            }
        }
    }
}


// ---------------------------------------------------------------------------
// Laws of the printer.
// ---------------------------------------------------------------------------
/// With a width of zero no line is broken to fit: a choice always takes its
/// first, single-line variant.
pub proof fn law_zero_width_takes_first_variant<'a>(cfg: PrettyConfig, s: PrintState<'a>)
    requires
        s.chunks.len() > 0,
        *s.chunks.last().doc_ref is Choice,
    ensures
        print_step(cfg, 0, s).chunks == s.chunks.drop_last().push(
            spec_with_doc(s.chunks.last(), s.chunks.last().doc_ref->Choice_0),
        ),
{
}

/// A wider line never turns a fit into a non-fit: whatever fits in `narrow`
/// remaining columns also fits in `wide` remaining columns.
pub proof fn law_wider_line_keeps_fit<'a>(
    narrow: u32,
    wide: u32,
    stack: Seq<Chunk<'a>>,
    rest: Seq<Chunk<'a>>,
)
    requires
        narrow <= wide,
        spec_fits(narrow, stack, rest),
    ensures
        spec_fits(wide, stack, rest),
    decreases chunks_size(stack) + chunks_size(rest),
{
    if stack.len() > 0 || rest.len() > 0 {
        let from_stack = stack.len() > 0;
        let chunk = if from_stack {
            stack.last()
        } else {
            rest.last()
        };
        let stack2 = if from_stack {
            stack.drop_last()
        } else {
            stack
        };
        let rest2 = if from_stack {
            rest
        } else {
            rest.drop_last()
        };
        if from_stack {
            assert(stack.drop_last().push(stack.last()) =~= stack);
            lemma_chunks_size_push(stack.drop_last(), stack.last());
        } else {
            assert(rest.drop_last().push(rest.last()) =~= rest);
            lemma_chunks_size_push(rest.drop_last(), rest.last());
        }
        match *chunk.doc_ref {
            Doc::Softline => {
                if chunk.flat {
                    law_wider_line_keeps_fit((narrow - 1) as u32, (wide - 1) as u32, stack2, rest2);
                }
            },
            Doc::Maybeline => {
                if chunk.flat {
                    law_wider_line_keeps_fit(narrow, wide, stack2, rest2);
                }
            },
            Doc::Text(_, w) => {
                law_wider_line_keeps_fit((narrow - w) as u32, (wide - w) as u32, stack2, rest2);
            },
            Doc::Flat(x) => {
                let c = Chunk { doc_ref: x, indent: chunk.indent, flat: true };
                lemma_chunks_size_push(stack2, c);
                law_wider_line_keeps_fit(narrow, wide, stack2.push(c), rest2);
            },
            Doc::Indent(i, x) => {
                let c = Chunk { doc_ref: x, indent: sat_add(chunk.indent, i), flat: chunk.flat };
                lemma_chunks_size_push(stack2, c);
                law_wider_line_keeps_fit(narrow, wide, stack2.push(c), rest2);
            },
            Doc::Dedent(i, x) => {
                let c = Chunk { doc_ref: x, indent: sat_sub(chunk.indent, i), flat: chunk.flat };
                lemma_chunks_size_push(stack2, c);
                law_wider_line_keeps_fit(narrow, wide, stack2.push(c), rest2);
            },
            Doc::Concat(v) => {
                lemma_concat_chunks_size(chunk, v@);
                lemma_chunks_size_append(stack2, concat_chunks(chunk, v@));
                law_wider_line_keeps_fit(narrow, wide, stack2 + concat_chunks(chunk, v@), rest2);
            },
            Doc::Choice(x, y) => {
                let c = if chunk.flat {
                    spec_with_doc(chunk, x)
                } else {
                    spec_with_doc(chunk, y)
                };
                lemma_chunks_size_push(stack2, c);
                law_wider_line_keeps_fit(narrow, wide, stack2.push(c), rest2);
            },
            _ => {},
        }
    }
}

/// A wider configured line never turns a fit into a non-fit: with a positive
/// `max_width`, whatever fits from column `col` still fits when the width
/// grows.
pub proof fn law_wider_max_width_keeps_fit<'a>(
    narrow: u32,
    wide: u32,
    col: u32,
    chunk: Chunk<'a>,
    rest: Seq<Chunk<'a>>,
)
    requires
        0 < narrow <= wide,
        spec_fits_from(narrow, col, chunk, rest),
    ensures
        spec_fits_from(wide, col, chunk, rest),
{
    law_wider_line_keeps_fit(sat_sub(narrow, col), sat_sub(wide, col), seq![chunk], rest);
}

/// Every chunk of `s` is printed flat.
pub open spec fn all_flat<'a>(s: Seq<Chunk<'a>>) -> bool {
    forall|i: int| 0 <= i < s.len() ==> (#[trigger] s[i]).flat
}

/// Under `Flat` the width is never consulted: one step on a flat chunk is the
/// same whatever the width, a flat choice takes its first variant, and what
/// the step leaves on the stack in place of the chunk is flat too.
pub proof fn law_flat_step_ignores_width<'a>(
    cfg: PrettyConfig,
    w1: u32,
    w2: u32,
    s: PrintState<'a>,
)
    requires
        s.chunks.len() > 0,
        s.chunks.last().flat,
    ensures
        print_step(cfg, w1, s) == print_step(cfg, w2, s),
        *s.chunks.last().doc_ref is Choice ==> print_step(cfg, w1, s).chunks
            == s.chunks.drop_last().push(
            spec_with_doc(s.chunks.last(), s.chunks.last().doc_ref->Choice_0),
        ),
        all_flat(s.chunks) ==> all_flat(print_step(cfg, w1, s).chunks),
{
    let chunk = s.chunks.last();
    let rest = s.chunks.drop_last();
    if all_flat(s.chunks) {
        let t = print_step(cfg, w1, s).chunks;
        assert forall|i: int| 0 <= i < t.len() implies (#[trigger] t[i]).flat by {
            if i < rest.len() {
                assert(rest[i] == s.chunks[i]);
            }
        }
    }
}

/// Under `Flat` the width is never consulted: from a state whose pending
/// chunks are all flat, the printer writes the same text for every width.
pub proof fn law_flat_output_ignores_width<'a>(
    cfg: PrettyConfig,
    w1: u32,
    w2: u32,
    s: PrintState<'a>,
)
    requires
        all_flat(s.chunks),
    ensures
        print_run(cfg, w1, s) == print_run(cfg, w2, s),
    decreases chunks_size(s.chunks),
{
    if s.chunks.len() > 0 {
        law_flat_step_ignores_width(cfg, w1, w2, s);
        lemma_print_step_decreases(cfg, w1, s);
        law_flat_output_ignores_width(cfg, w1, w2, print_step(cfg, w1, s));
    }
}

/// The indentation written on a line never takes more than 256 characters,
/// whatever the logical indentation.
pub proof fn law_materialized_indent_is_capped(cfg: PrettyConfig, indent: u32)
    requires
        cfg.wf(),
    ensures
        indent_chars(cfg, indent).len() <= MAX_MATERIALIZED_INDENT,
        indent <= MAX_MATERIALIZED_INDENT ==> materialized_indent(indent) == indent,
{
    let cols = materialized_indent(indent);
    let n = cfg.indent_size;
    assert(cols / n + cols % n <= cols) by (nonlinear_arith)
        requires
            n >= 1,
    ;
}

/// With tabs, each tab stands for `indent_size` columns: the tabs and the
/// spaces after them make up exactly the (capped) logical indentation, with
/// fewer spaces than one tab.
pub proof fn law_tabs_represent_indent_size_columns(cfg: PrettyConfig, indent: u32)
    requires
        cfg.wf(),
        cfg.indent_style == IndentStyle::Tab,
    ensures
        ({
            let cols = materialized_indent(indent);
            let tabs = (cols / cfg.indent_size) as nat;
            let spaces = (cols % cfg.indent_size) as nat;
            &&& indent_chars(cfg, indent) == Seq::new(tabs, |i: int| '\t') + Seq::new(spaces, |i: int| ' ')
            &&& tabs * cfg.indent_size + spaces == cols
            &&& spaces < cfg.indent_size
        }),
{
    let cols = materialized_indent(indent);
    let n = cfg.indent_size;
    assert((cols / n) * n + cols % n == cols) by (nonlinear_arith)
        requires
            n >= 1,
    ;
}

proof fn lemma_print_step_extends<'a>(cfg: PrettyConfig, max_width: u32, s: PrintState<'a>)
    requires
        s.chunks.len() > 0,
    ensures
        s.out.is_prefix_of(print_step(cfg, max_width, s).out),
{
    let out1 = flush_out(cfg, s);
    assert(s.out.is_prefix_of(out1));
    let chunk = s.chunks.last();
    match *chunk.doc_ref {
        Doc::Text(t, w) => {
            assert(out1.is_prefix_of(out1 + t@));
        },
        Doc::NewlineWithNoIndent => {
            assert(s.out.is_prefix_of(s.out.push('\n')));
        },
        Doc::Softline => {
            assert(s.out.is_prefix_of(s.out.push(' ')));
        },
        _ => {},
    }
}

/// The printer only appends: whatever was written stays at the head of the
/// final output.
pub proof fn law_printing_only_appends<'a>(cfg: PrettyConfig, max_width: u32, s: PrintState<'a>)
    ensures
        s.out.is_prefix_of(print_run(cfg, max_width, s)),
    decreases chunks_size(s.chunks),
{
    if s.chunks.len() == 0 {
        assert(s.out.is_prefix_of(flush_out(cfg, s)));
    } else {
        lemma_print_step_decreases(cfg, max_width, s);
        lemma_print_step_extends(cfg, max_width, s);
        law_printing_only_appends(cfg, max_width, print_step(cfg, max_width, s));
    }
}


proof fn lemma_print_step_keeps_below<'a>(cfg: PrettyConfig, max_width: u32, s: PrintState<'a>)
    requires
        s.chunks.len() > 0,
    ensures
        print_step(cfg, max_width, s).chunks.len() >= s.chunks.len() - 1,
        print_step(cfg, max_width, s).chunks.subrange(0, s.chunks.len() - 1) == s.chunks.drop_last(),
{
    let chunk = s.chunks.last();
    let rest = s.chunks.drop_last();
    let t = print_step(cfg, max_width, s);
    match *chunk.doc_ref {
        Doc::Concat(v) => {
            assert(t.chunks.subrange(0, rest.len() as int) =~= rest);
        },
        Doc::Flat(_) | Doc::Indent(_, _) | Doc::Dedent(_, _) | Doc::Choice(_, _) => {
            assert(t.chunks.subrange(0, rest.len() as int) =~= rest);
        },
        _ => {
            assert(t.chunks.subrange(0, rest.len() as int) =~= rest);
        },
    }
}

/// Running the printer from `s` passes through a state whose pending chunks
/// are exactly the lowest `k` chunks of `s`, and ends as from that state.
proof fn lemma_run_reaches_base<'a>(cfg: PrettyConfig, max_width: u32, s: PrintState<'a>, k: int) -> (t:
    PrintState<'a>)
    requires
        0 <= k <= s.chunks.len(),
    ensures
        t.chunks == s.chunks.subrange(0, k),
        print_run(cfg, max_width, s) == print_run(cfg, max_width, t),
    decreases chunks_size(s.chunks),
{
    if s.chunks.len() == k {
        assert(s.chunks.subrange(0, k) =~= s.chunks);
        s
    } else {
        lemma_print_step_decreases(cfg, max_width, s);
        lemma_print_step_keeps_below(cfg, max_width, s);
        let s2 = print_step(cfg, max_width, s);
        let t = lemma_run_reaches_base(cfg, max_width, s2, k);
        assert(s2.chunks.subrange(0, k) =~= s.chunks.subrange(0, k)) by {
            assert(s2.chunks.subrange(0, k) =~= s2.chunks.subrange(0, s.chunks.len() - 1).subrange(0, k));
            assert(s.chunks.drop_last().subrange(0, k) =~= s.chunks.subrange(0, k));
        }
        t
    }
}

/// A document that ends with a line break is printed as text that ends with
/// a line break.
pub proof fn law_trailing_newline_ends_output<'a>(doc_ref: DocRef<'a>, max_width: u32, cfg: PrettyConfig)
    requires
        cfg.wf(),
        *doc_ref is Concat,
        concat_parts(*doc_ref).len() == 2,
        *concat_parts(*doc_ref)[1] == Doc::Newline,
    ensures
        spec_pretty_print(doc_ref, max_width, cfg).len() > 0,
        spec_pretty_print(doc_ref, max_width, cfg).last() == '\n',
{
    let s0 = initial_state(doc_ref);
    let c0 = s0.chunks.last();
    let v = concat_parts(*doc_ref);
    lemma_print_step_decreases(cfg, max_width, s0);
    let s1 = print_step(cfg, max_width, s0);
    assert(s0.chunks.drop_last() =~= Seq::<Chunk>::empty());
    assert(s1.chunks =~= concat_chunks(c0, v));
    assert(s1.chunks.len() == 2);
    let t = lemma_run_reaches_base(cfg, max_width, s1, 1);
    assert(t.chunks[0] == spec_with_doc(c0, v[1]));
    assert(t.chunks.drop_last() =~= Seq::<Chunk>::empty());
    lemma_print_step_decreases(cfg, max_width, t);
    let t2 = print_step(cfg, max_width, t);
    assert(t2.chunks.len() == 0);
    assert(t2.pending && t2.pending_indent == 0);
    let n = cfg.indent_size;
    assert(0u32 / n == 0 && 0u32 % n == 0) by (nonlinear_arith)
        requires
            n >= 1,
    ;
    assert(materialized_indent(0) == 0);
    assert(indent_chars(cfg, 0) =~= Seq::<char>::empty());
    assert(print_run(cfg, max_width, t2) == t2.out.push('\n') + indent_chars(cfg, 0));
}

} // verus!
