//! The printer for notations: it renders a notation into a `String`, taking for
//! every `Choice` its first variant when that variant's first line fits in
//! what is left of the line, and the second variant otherwise.
use crate::notation::{n_size, ns_size, NRef, N};
use crate::strs::{string_push, string_push_str};
use vstd::prelude::*;

verus! {

/// A notation to print, with the indentation and flatness in force.
#[derive(Clone, Copy)]
pub struct Chunk<'a> {
    pub n_ref: NRef<'a>,
    pub indent: u32,
    pub flat: bool,
}

pub open spec fn chunk_size(c: Chunk) -> nat {
    n_size(*c.n_ref)
}

pub open spec fn chunks_size<'a>(s: Seq<Chunk<'a>>) -> nat
    decreases s.len(),
{
    if s.len() == 0 {
        0
    } else {
        chunks_size(s.drop_last()) + chunk_size(s.last())
    }
}

pub open spec fn spec_with_n<'a>(c: Chunk<'a>, n: NRef<'a>) -> Chunk<'a> {
    Chunk { n_ref: n, indent: c.indent, flat: c.flat }
}

pub open spec fn spec_flat<'a>(c: Chunk<'a>, n: NRef<'a>) -> Chunk<'a> {
    Chunk { n_ref: n, indent: c.indent, flat: true }
}

/// Indentation adds up, and stops at the largest `u32`.
pub open spec fn spec_indented<'a>(c: Chunk<'a>, i: u32, n: NRef<'a>) -> Chunk<'a> {
    Chunk { n_ref: n, indent: sat_add(c.indent, i), flat: c.flat }
}

pub open spec fn sat_add(a: u32, b: u32) -> u32 {
    if a + b > u32::MAX {
        u32::MAX
    } else {
        (a + b) as u32
    }
}

pub open spec fn sat_sub(a: u32, b: u32) -> u32 {
    if a >= b {
        (a - b) as u32
    } else {
        0
    }
}

/// The chunks that a concatenation leaves on the stack: its parts, the last
/// one lowest, so that the first part is taken first.
pub open spec fn concat_chunks<'a>(c: Chunk<'a>, v: Seq<NRef<'a>>) -> Seq<Chunk<'a>> {
    Seq::new(v.len(), |i: int| spec_with_n(c, v[v.len() - 1 - i]))
}

pub proof fn lemma_chunks_size_append<'a>(s1: Seq<Chunk<'a>>, s2: Seq<Chunk<'a>>)
    ensures
        chunks_size(s1 + s2) == chunks_size(s1) + chunks_size(s2),
    decreases s2.len(),
{
    if s2.len() == 0 {
        assert(s1 + s2 =~= s1);
    } else {
        assert((s1 + s2).drop_last() =~= s1 + s2.drop_last());
        lemma_chunks_size_append(s1, s2.drop_last());
    }
}

pub proof fn lemma_chunks_size_push<'a>(s: Seq<Chunk<'a>>, c: Chunk<'a>)
    ensures
        chunks_size(s.push(c)) == chunks_size(s) + chunk_size(c),
{
    assert(s.push(c).drop_last() =~= s);
}

pub proof fn lemma_ns_size_sub<'a>(v: Seq<NRef<'a>>, m: int, k: int)
    requires
        0 <= k <= m <= v.len(),
    ensures
        ns_size(v.subrange(0, m), k) == ns_size(v, k),
    decreases k,
{
    if k > 0 {
        lemma_ns_size_sub(v, m, k - 1);
    }
}

pub proof fn lemma_concat_chunks_size<'a>(c: Chunk<'a>, v: Seq<NRef<'a>>)
    ensures
        chunks_size(concat_chunks(c, v)) == ns_size(v, v.len() as int),
    decreases v.len(),
{
    if v.len() > 0 {
        let w = v.drop_last();
        lemma_concat_chunks_size(c, w);
        let head = seq![spec_with_n(c, v.last())];
        assert(concat_chunks(c, v) =~= head + concat_chunks(c, w));
        lemma_chunks_size_append(head, concat_chunks(c, w));
        assert(head.drop_last() =~= Seq::<Chunk>::empty());
        assert(w =~= v.subrange(0, v.len() - 1));
        lemma_ns_size_sub(v, v.len() - 1, v.len() - 1);
        assert(chunks_size(Seq::<Chunk>::empty()) == 0);
        assert(chunks_size(head) == n_size(*v.last()));
        assert(ns_size(v, v.len() as int) == ns_size(v, v.len() - 1) + n_size(*v[v.len() - 1]));
    }
}

/// Whether the rest of the current line fits in `remaining` columns: the
/// chunks of `stack` come first, then the printer's pending chunks `rest`, the
/// last one first, up to the next line break. In flat mode a choice is read as
/// its first variant, otherwise as its second.
pub open spec fn spec_fits<'a>(remaining: u32, stack: Seq<Chunk<'a>>, rest: Seq<Chunk<'a>>) -> bool
    decreases chunks_size(stack) + chunks_size(rest),
{
    if stack.len() == 0 && rest.len() == 0 {
        true
    } else {
        let from_stack = stack.len() > 0;
        let chunk = if from_stack {
            stack.last()
        } else {
            rest.last()
        };
        let stack2 = if from_stack {
            stack.drop_last()
        } else {
            stack
        };
        let rest2 = if from_stack {
            rest
        } else {
            rest.drop_last()
        };
        proof {
            if from_stack {
                assert(stack.drop_last().push(stack.last()) =~= stack);
                lemma_chunks_size_push(stack.drop_last(), stack.last());
            } else {
                assert(rest.drop_last().push(rest.last()) =~= rest);
                lemma_chunks_size_push(rest.drop_last(), rest.last());
            }
        }
        match *chunk.n_ref {
            N::Newline => true,
            N::Text(_, w) => {
                if w <= remaining {
                    spec_fits((remaining - w) as u32, stack2, rest2)
                } else {
                    false
                }
            },
            N::Flat(x) => {
                proof { lemma_chunks_size_push(stack2, spec_flat(chunk, x)); }
                spec_fits(remaining, stack2.push(spec_flat(chunk, x)), rest2)
            },
            N::Indent(i, x) => {
                proof { lemma_chunks_size_push(stack2, spec_indented(chunk, i, x)); }
                spec_fits(remaining, stack2.push(spec_indented(chunk, i, x)), rest2)
            },
            N::Concat(v) => {
                proof {
                    lemma_concat_chunks_size(chunk, v@);
                    lemma_chunks_size_append(stack2, concat_chunks(chunk, v@));
                }
                spec_fits(remaining, stack2 + concat_chunks(chunk, v@), rest2)
            },
            N::Choice(x, y) => {
                let c = if chunk.flat {
                    spec_with_n(chunk, x)
                } else {
                    spec_with_n(chunk, y)
                };
                proof { lemma_chunks_size_push(stack2, c); }
                spec_fits(remaining, stack2.push(c), rest2)
            },
        }
    }
}

/// The state of the printer between two steps.
pub struct PrintState<'a> {
    pub chunks: Seq<Chunk<'a>>,
    pub col: u32,
    pub out: Seq<char>,
}

/// One step of the printer: the top chunk is taken and acted on.
pub open spec fn print_step<'a>(max_width: u32, s: PrintState<'a>) -> PrintState<'a>
    recommends
        s.chunks.len() > 0,
{
    let chunk = s.chunks.last();
    let rest = s.chunks.drop_last();
    match *chunk.n_ref {
        N::Newline => PrintState {
            chunks: rest,
            out: s.out.push('\n') + Seq::new(chunk.indent as nat, |i: int| ' '),
            col: chunk.indent,
        },
        N::Text(t, w) => PrintState { chunks: rest, out: s.out + t@, col: sat_add(s.col, w) },
        N::Flat(x) => PrintState { chunks: rest.push(spec_flat(chunk, x)), ..s },
        N::Indent(i, x) => PrintState { chunks: rest.push(spec_indented(chunk, i, x)), ..s },
        N::Concat(v) => PrintState { chunks: rest + concat_chunks(chunk, v@), ..s },
        N::Choice(x, y) => {
            let pick = if chunk.flat || spec_fits(
                sat_sub(max_width, s.col),
                seq![spec_with_n(chunk, x)],
                rest,
            ) {
                x
            } else {
                y
            };
            PrintState { chunks: rest.push(spec_with_n(chunk, pick)), ..s }
        },
    }
}

pub proof fn lemma_print_step_decreases<'a>(max_width: u32, s: PrintState<'a>)
    requires
        s.chunks.len() > 0,
    ensures
        chunks_size(print_step(max_width, s).chunks) < chunks_size(s.chunks),
{
    let chunk = s.chunks.last();
    let rest = s.chunks.drop_last();
    assert(rest.push(chunk) =~= s.chunks);
    lemma_chunks_size_push(rest, chunk);
    match *chunk.n_ref {
        N::Flat(x) => {
            lemma_chunks_size_push(rest, spec_flat(chunk, x));
        },
        N::Indent(i, x) => {
            lemma_chunks_size_push(rest, spec_indented(chunk, i, x));
        },
        N::Concat(v) => {
            lemma_concat_chunks_size(chunk, v@);
            lemma_chunks_size_append(rest, concat_chunks(chunk, v@));
        },
        N::Choice(x, y) => {
            lemma_chunks_size_push(rest, spec_with_n(chunk, x));
            lemma_chunks_size_push(rest, spec_with_n(chunk, y));
        },
        _ => {},
    }
}

/// The output of the printer from state `s` on, step by step until no chunk
/// is left.
pub open spec fn print_run<'a>(max_width: u32, s: PrintState<'a>) -> Seq<char>
    decreases chunks_size(s.chunks),
{
    if s.chunks.len() == 0 {
        s.out
    } else {
        proof { lemma_print_step_decreases(max_width, s); }
        print_run(max_width, print_step(max_width, s))
    }
}

/// What `pretty_print` writes for a notation.
pub open spec fn spec_pretty_print<'a>(n_ref: NRef<'a>, max_width: u32) -> Seq<char> {
    print_run(
        max_width,
        PrintState { chunks: seq![Chunk { n_ref, indent: 0, flat: false }], col: 0, out: Seq::empty() },
    )
}

/// Renders a notation in lines of at most `max_width` columns where the
/// choices allow it.
pub fn pretty_print(n_ref: NRef, max_width: u32) -> (r: String)
    ensures
        r@ == spec_pretty_print(n_ref, max_width),
{
    let mut printer = PrettyPrinter::new(n_ref, max_width);
    printer.print()
}

struct PrettyPrinter<'a> {
    max_width: u32,
    col: u32,
    chunks: Vec<Chunk<'a>>,
}

impl<'a> Chunk<'a> {
    fn with_n(self, n_ref: NRef<'a>) -> (r: Self)
        ensures
            r == spec_with_n(self, n_ref),
    {
        Chunk { n_ref, indent: self.indent, flat: self.flat }
    }

    fn indented(self, indent: u32, n_ref: NRef<'a>) -> (r: Self)
        ensures
            r == spec_indented(self, indent, n_ref),
    {
        Chunk { n_ref, indent: self.indent.saturating_add(indent), flat: self.flat }
    }

    fn flat(self, n_ref: NRef<'a>) -> (r: Self)
        ensures
            r == spec_flat(self, n_ref),
    {
        Chunk { n_ref, indent: self.indent, flat: true }
    }
}

impl<'a> PrettyPrinter<'a> {
    fn new(n_ref: NRef<'a>, width: u32) -> (r: Self)
        ensures
            r.chunks@ == seq![Chunk { n_ref, indent: 0, flat: false }],
            r.col == 0,
            r.max_width == width,
    {
        let chunk = Chunk { n_ref, indent: 0, flat: false };
        let mut chunks = Vec::new();
        chunks.push(chunk);
        assert(chunks@ =~= seq![chunk]);
        PrettyPrinter { max_width: width, col: 0, chunks }
    }

    spec fn state(&self, out: Seq<char>) -> PrintState<'a> {
        PrintState { chunks: self.chunks@, col: self.col, out }
    }

    fn print(&mut self) -> (r: String)
        ensures
            r@ == print_run(old(self).max_width, old(self).state(Seq::empty())),
    {
        let mut result = String::new();
        let ghost mw = self.max_width;
        let ghost total = print_run(mw, self.state(result@));
        while self.chunks.len() > 0
            invariant
                self.max_width == mw,
                print_run(mw, self.state(result@)) == total,
            decreases chunks_size(self.chunks@),
        {
            let ghost before = self.state(result@);
            proof { lemma_print_step_decreases(mw, before); }
            let chunk = self.chunks.pop().unwrap();
            assert(chunk == before.chunks.last());
            assert(self.chunks@ == before.chunks.drop_last());
            match chunk.n_ref {
                N::Newline => {
                    string_push(&mut result, '\n');
                    let ghost start = result@;
                    let mut k: u32 = 0;
                    while k < chunk.indent
                        invariant
                            k <= chunk.indent,
                            result@ == start + Seq::new(k as nat, |i: int| ' '),
                            self.chunks@ == before.chunks.drop_last(),
                            self.max_width == mw,
                        decreases chunk.indent - k,
                    {
                        string_push(&mut result, ' ');
                        k = k + 1;
                        assert(result@ =~= start + Seq::new(k as nat, |i: int| ' '));
                    }
                    self.col = chunk.indent;
                },
                N::Text(text, width) => {
                    string_push_str(&mut result, text.as_str());
                    self.col = self.col.saturating_add(*width);
                },
                N::Flat(x) => {
                    self.chunks.push(chunk.flat(*x));
                },
                N::Indent(i, x) => {
                    self.chunks.push(chunk.indented(*i, *x));
                },
                N::Concat(seq) => {
                    let ghost base = self.chunks@;
                    let ghost col0 = self.col;
                    let mut k = seq.len();
                    while k > 0
                        invariant
                            k <= seq.len(),
                            self.max_width == mw,
                            self.col == col0,
                            self.chunks@ == base + Seq::new(
                                (seq@.len() - k) as nat,
                                |i: int| spec_with_n(chunk, seq@[seq@.len() - 1 - i]),
                            ),
                        decreases k,
                    {
                        k = k - 1;
                        self.chunks.push(chunk.with_n(seq[k]));
                        assert(self.chunks@ =~= base + Seq::new(
                            (seq@.len() - k) as nat,
                            |i: int| spec_with_n(chunk, seq@[seq@.len() - 1 - i]),
                        ));
                    }
                    assert(self.chunks@ =~= base + concat_chunks(chunk, seq@));
                },
                N::Choice(x, y) => {
                    if chunk.flat || self.fits(chunk.with_n(*x)) {
                        self.chunks.push(chunk.with_n(*x));
                    } else {
                        self.chunks.push(chunk.with_n(*y));
                    }
                },
            }
            proof {
                let after = self.state(result@);
                let expected = print_step(mw, before);
                assert(after.chunks =~= expected.chunks);
                assert(after.out =~= expected.out);
                assert(after.col == expected.col);
                assert(after == expected);
            }
        }
        result
    }

    /// Whether `chunk` and what follows it up to the next line break fits in
    /// the rest of the current line.
    fn fits(&self, chunk: Chunk<'a>) -> (r: bool)
        ensures
            r == spec_fits(sat_sub(self.max_width, self.col), seq![chunk], self.chunks@),
    {
        let mut remaining_width = self.max_width.saturating_sub(self.col);
        let mut stack: Vec<Chunk<'a>> = Vec::new();
        stack.push(chunk);
        let mut idx = self.chunks.len();
        assert(self.chunks@.subrange(0, idx as int) =~= self.chunks@);
        assert(stack@ =~= seq![chunk]);
        loop
            invariant
                idx <= self.chunks@.len(),
                spec_fits(remaining_width, stack@, self.chunks@.subrange(0, idx as int))
                    == spec_fits(sat_sub(self.max_width, self.col), seq![chunk], self.chunks@),
            decreases chunks_size(stack@) + chunks_size(self.chunks@.subrange(0, idx as int)),
        {
            let ghost st0 = stack@;
            let ghost rest0 = self.chunks@.subrange(0, idx as int);
            let c = if stack.len() > 0 {
                stack.pop().unwrap()
            } else if idx > 0 {
                idx = idx - 1;
                assert(rest0.drop_last() =~= self.chunks@.subrange(0, idx as int));
                self.chunks[idx]
            } else {
                return true;
            };
            proof {
                if st0.len() > 0 {
                    assert(st0.drop_last().push(st0.last()) =~= st0);
                    lemma_chunks_size_push(st0.drop_last(), st0.last());
                } else {
                    assert(rest0.drop_last().push(rest0.last()) =~= rest0);
                    lemma_chunks_size_push(rest0.drop_last(), rest0.last());
                }
            }
            match c.n_ref {
                N::Newline => return true,
                N::Text(_, text_width) => {
                    if *text_width <= remaining_width {
                        remaining_width = remaining_width - *text_width;
                    } else {
                        return false;
                    }
                },
                N::Flat(x) => {
                    let nc = c.flat(*x);
                    proof { lemma_chunks_size_push(stack@, nc); }
                    stack.push(nc);
                },
                N::Indent(i, x) => {
                    let nc = c.indented(*i, *x);
                    proof { lemma_chunks_size_push(stack@, nc); }
                    stack.push(nc);
                },
                N::Concat(seq) => {
                    let ghost base = stack@;
                    proof {
                        lemma_concat_chunks_size(c, seq@);
                        lemma_chunks_size_append(base, concat_chunks(c, seq@));
                    }
                    let mut k = seq.len();
                    while k > 0
                        invariant
                            k <= seq.len(),
                            stack@ == base + Seq::new(
                                (seq@.len() - k) as nat,
                                |i: int| spec_with_n(c, seq@[seq@.len() - 1 - i]),
                            ),
                        decreases k,
                    {
                        k = k - 1;
                        stack.push(c.with_n(seq[k]));
                        assert(stack@ =~= base + Seq::new(
                            (seq@.len() - k) as nat,
                            |i: int| spec_with_n(c, seq@[seq@.len() - 1 - i]),
                        ));
                    }
                    assert(stack@ =~= base + concat_chunks(c, seq@));
                },
                N::Choice(x, y) => {
                    let nc = if c.flat {
                        c.with_n(*x)
                    } else {
                        c.with_n(*y)
                    };
                    proof { lemma_chunks_size_push(stack@, nc); }
                    stack.push(nc);
                },
            }
        }
    }
}


/// The printer only appends: whatever was written stays at the head of the
/// final output.
pub proof fn law_printing_only_appends<'a>(max_width: u32, s: PrintState<'a>)
    ensures
        s.out.is_prefix_of(print_run(max_width, s)),
    decreases chunks_size(s.chunks),
{
    if s.chunks.len() > 0 {
        lemma_print_step_decreases(max_width, s);
        let chunk = s.chunks.last();
        match *chunk.n_ref {
            N::Newline => {
                assert(s.out.is_prefix_of(s.out.push('\n') + Seq::new(chunk.indent as nat, |i: int| ' ')));
            },
            N::Text(t, w) => {
                assert(s.out.is_prefix_of(s.out + t@));
            },
            _ => {},
        }
        law_printing_only_appends(max_width, print_step(max_width, s));
    }
}

/// A line break starts the next line with exactly as many spaces as the
/// indentation in force, and the column is then that indentation.
pub proof fn law_newline_writes_indentation<'a>(max_width: u32, s: PrintState<'a>)
    requires
        s.chunks.len() > 0,
        *s.chunks.last().n_ref is Newline,
    ensures
        print_step(max_width, s).out == s.out.push('\n') + Seq::new(s.chunks.last().indent as nat, |i: int| ' '),
        print_step(max_width, s).col == s.chunks.last().indent,
{
}

} // verus!
