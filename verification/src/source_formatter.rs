//! The formatter's configuration and pipeline: check the configuration, parse
//! the source, locate a parse error, collect comments, build the data model
//! and its document, and print it.
use crate::accessor::value;
use crate::context::{code_at, comment_at, comment_placed, lemma_no_code_after, lemma_no_code_before, build_comment_map, comments_readable, first_unprinted, lemma_empty_map_all_printed, map_empty, map_wf, no_comment_nodes, BuildState, CommentMap};
use crate::data_model::{root_doc, root_reads, Root};
use crate::enum_def::root_member_tied;
use crate::doc::{pretty_print, spec_pretty_print, BraceStyle, DocRef, IndentStyle, JavadocStarColumn, PrettyConfig};
use crate::doc_builder::DocBuilder;
use crate::message_helper::{red, spec_red, spec_yellow, yellow};
use crate::strs::{concat2, owned, string_push_str};
use crate::syntax::{copies_node, copies_plain, parse_tree, plain_ok, PlainNode, SyntaxTree};
use crate::ts::apex_parse;
use crate::utility::{format_source_location, spec_last_error, spec_source_location, truncate_snippet, usize_to_string, decimal};
use vstd::prelude::*;

verus! {

/// The largest indentation size accepted.
pub const MAX_INDENT_SIZE: u32 = 256;

/// The configuration of the formatter.
#[derive(Clone, Copy, Debug)]
pub struct Config {
    /// The width lines are broken to fit; 0 never breaks a line.
    pub max_width: u32,
    /// The columns of one level of indentation, from 1 to 256.
    pub indent_size: u32,
    /// Where opening braces go.
    pub brace_style: BraceStyle,
    /// Whether bare `if`, `else` and loop bodies get braces.
    pub wrap_single_statements: bool,
    /// Spaces or tabs for indentation.
    pub indent_style: IndentStyle,
    /// Where the stars of Javadoc continuation lines go.
    pub javadoc_star_column: JavadocStarColumn,
    /// Whether known annotation names get their canonical casing.
    pub normalize_annotation_casing: bool,
}

/// The width lines are broken to fit, by default.
pub fn default_max_width() -> (r: u32)
    ensures
        r == 80,
{
    80
}

/// The indentation size, by default.
pub fn default_indent_size() -> (r: u32)
    ensures
        r == 2,
{
    2
}

impl Config {
    /// The default configuration: width 80, indentation 2 spaces, K&R braces,
    /// bare bodies kept, Javadoc stars offset, annotation casing kept.
    pub open spec fn spec_default() -> Config {
        Config {
            max_width: 80,
            indent_size: 2,
            brace_style: BraceStyle::KAndR,
            wrap_single_statements: false,
            indent_style: IndentStyle::Space,
            javadoc_star_column: JavadocStarColumn::Offset,
            normalize_annotation_casing: false,
        }
    }

    /// What a configuration is refused for, if anything.
    pub open spec fn spec_validate(self) -> Option<Seq<char>> {
        if self.indent_size == 0 {
            Some("indent_size must be at least 1"@)
        } else if self.indent_size > MAX_INDENT_SIZE {
            Some("indent_size must be at most 256"@)
        } else {
            None
        }
    }

    /// The default configuration with another width.
    pub fn new(max_width: u32) -> (r: Self)
        ensures
            r == (Config { max_width, ..Config::spec_default() }),
    {
        Config { max_width, ..Config::default() }
    }

    /// Checks that the indentation size is between 1 and 256.
    pub fn validate(&self) -> (r: Result<(), String>)
        ensures
            r is Ok <==> self.spec_validate() is None,
            r matches Err(e) ==> self.spec_validate() == Some(e@),
    {
        if self.indent_size == 0 {
            Err(owned("indent_size must be at least 1"))
        } else if self.indent_size > MAX_INDENT_SIZE {
            Err(owned("indent_size must be at most 256"))
        } else {
            Ok(())
        }
    }

    pub fn max_width(&self) -> (r: u32)
        ensures
            r == self.max_width,
    {
        self.max_width
    }

    pub fn indent_size(&self) -> (r: u32)
        ensures
            r == self.indent_size,
    {
        self.indent_size
    }

    /// The settings of the document printer, as a value.
    pub open spec fn spec_pretty_config(&self) -> PrettyConfig {
        PrettyConfig {
            indent_size: self.indent_size,
            brace_style: self.brace_style,
            wrap_single_statements: self.wrap_single_statements,
            indent_style: self.indent_style,
            javadoc_star_column: self.javadoc_star_column,
            normalize_annotation_casing: self.normalize_annotation_casing,
        }
    }

    /// The settings of the document printer.
    pub fn pretty_config(&self) -> (r: PrettyConfig)
        requires
            self.indent_size > 0,
        ensures
            r.indent_size == self.indent_size,
            r.brace_style == self.brace_style,
            r.wrap_single_statements == self.wrap_single_statements,
            r.indent_style == self.indent_style,
            r.javadoc_star_column == self.javadoc_star_column,
            r.normalize_annotation_casing == self.normalize_annotation_casing,
            r == self.spec_pretty_config(),
            r.wf(),
    {
        PrettyConfig::new(
            self.indent_size,
            self.brace_style,
            self.wrap_single_statements,
            self.indent_style,
            self.javadoc_star_column,
            self.normalize_annotation_casing,
        )
    }
}

impl Default for Config {
    fn default() -> (r: Self)
        ensures
            r == Config::spec_default(),
    {
        Config {
            max_width: 80,
            indent_size: 2,
            brace_style: BraceStyle::KAndR,
            wrap_single_statements: false,
            indent_style: IndentStyle::Space,
            javadoc_star_column: JavadocStarColumn::Offset,
            normalize_annotation_casing: false,
        }
    }
}

// ---------------------------------------------------------------------------
// Parsing.
// ---------------------------------------------------------------------------
/// A zero-based row or column counted from one.
pub open spec fn spec_one_based(x: usize) -> usize {
    if x < usize::MAX {
        (x + 1) as usize
    } else {
        x
    }
}

fn one_based(x: usize) -> (r: usize)
    ensures
        r == spec_one_based(x),
{
    if x < usize::MAX {
        x + 1
    } else {
        x
    }
}

/// Where node `n` starts, one-based, led by the origin when there is one.
pub open spec fn spec_node_location(t: &SyntaxTree, n: int, origin: Option<Seq<char>>) -> Seq<char> {
    spec_source_location(
        origin,
        spec_one_based(t.nodes@[n].start_row) as nat,
        spec_one_based(t.nodes@[n].start_column) as nat,
    )
}

pub open spec fn origin_view(origin: Option<&str>) -> Option<Seq<char>> {
    match origin {
        Some(o) => Some(o@),
        None => None,
    }
}

fn node_location(t: &SyntaxTree, n: usize, origin: Option<&str>) -> (r: String)
    requires
        t.valid(n as int),
    ensures
        r@ == spec_node_location(t, n as int, origin_view(origin)),
{
    let node = &t.nodes[n];
    format_source_location(origin, one_based(node.start_row), one_based(node.start_column))
}

/// Appends `kind, byte range and snippet` of a node to a diagnostic.
fn push_node_facts(t: &SyntaxTree, n: usize, m: &mut String)
    requires
        t.valid(n as int),
    ensures
        old(m)@.is_prefix_of(final(m)@),
        final(m)@ == old(m)@ + node_facts(t, n as int),
{
    let node = &t.nodes[n];
    let ghost m0 = m@;
    string_push_str(m, ", at byte range: ");
    let s = usize_to_string(node.start_byte);
    string_push_str(m, s.as_str());
    string_push_str(m, "-");
    let e = usize_to_string(node.end_byte);
    string_push_str(m, e.as_str());
    string_push_str(m, ", snippet: ");
    let snippet = match value(t, n) {
        Ok(v) => truncate_snippet(v.as_str()),
        Err(_) => String::new(),
    };
    string_push_str(m, snippet.as_str());
    assert(m0.is_prefix_of(m@)) by {
        assert(m@.subrange(0, m0.len() as int) =~= m0);
    }
    assert(m@ =~= m0 + node_facts(t, n as int));
}

/// `, at byte range: start-end, snippet: ` and the shortened source text.
pub open spec fn node_facts(t: &SyntaxTree, n: int) -> Seq<char> {
    ", at byte range: "@ + crate::utility::decimal(t.nodes@[n].start_byte as nat) + "-"@ + crate::utility::decimal(
        t.nodes@[n].end_byte as nat,
    ) + ", snippet: "@ + crate::utility::spec_truncate_snippet(crate::accessor::node_text(t, n))
}

/// What follows the location in the diagnostic of error node `e`: its kind
/// and facts, the same of its parent at its location, then the verdict.
pub open spec fn spec_diagnostic_tail(t: &SyntaxTree, e: int, origin: Option<Seq<char>>) -> Seq<char> {
    spec_yellow(t.nodes@[e].kind@) + node_facts(t, e) + (match t.nodes@[e].parent {
        Some(p) => "\nParent node kind: "@ + spec_yellow(t.nodes@[p as int].kind@) + ", at "@ + spec_node_location(
            t,
            p as int,
            origin,
        ) + node_facts(t, p as int),
        None => Seq::empty(),
    }) + "\n"@ + spec_red("Parser encounters an error node in the tree."@)
}

/// What follows the location in the diagnostic of error node `e`.
fn diagnostic_tail(t: &SyntaxTree, e: usize, origin: Option<&str>) -> (r: String)
    requires
        t.wf(),
        t.valid(e as int),
    ensures
        r@ == spec_diagnostic_tail(t, e as int, origin_view(origin)),
{
    let ghost o = origin_view(origin);
    let k = yellow(t.nodes[e].kind.as_str());
    let mut m = owned(k.as_str());
    push_node_facts(t, e, &mut m);
    let ghost m1 = m@;
    let node = &t.nodes[e];
    assert(node == &t.nodes@[e as int]);
    match node.parent {
        Some(p) => {
            string_push_str(&mut m, "\nParent node kind: ");
            let pk = yellow(t.nodes[p].kind.as_str());
            string_push_str(&mut m, pk.as_str());
            string_push_str(&mut m, ", at ");
            let pl = node_location(t, p, origin);
            string_push_str(&mut m, pl.as_str());
            push_node_facts(t, p, &mut m);
            assert(m@ =~= m1 + ("\nParent node kind: "@ + spec_yellow(t.nodes@[p as int].kind@) + ", at "@
                + spec_node_location(t, p as int, o) + node_facts(t, p as int)));
        },
        None => {
            assert(m@ =~= m1 + Seq::<char>::empty());
        },
    }
    let ghost m2 = m@;
    string_push_str(&mut m, "\n");
    let v = red("Parser encounters an error node in the tree.");
    string_push_str(&mut m, v.as_str());
    assert(m@ =~= m2 + "\n"@ + spec_red("Parser encounters an error node in the tree."@));
    m
}

/// The diagnostic of a tree with an error: the location of the last error
/// node, its kind, byte range and source, the same of its parent, then the
/// verdict in red; `None` for a tree without errors.
pub fn parse_diagnostic(t: &SyntaxTree, origin: Option<&str>) -> (r: Option<String>)
    requires
        t.wf(),
    ensures
        r is Some <==> crate::utility::spec_last_error(t, 0) is Some,
        r matches Some(m) ==> (spec_node_location(t, crate::utility::spec_last_error(t, 0)->0 as int, origin_view(origin))
            + ": parse error in node kind: "@).is_prefix_of(m@),
        r matches Some(m) ==> m@ == spec_parse_diagnostic(t, crate::utility::spec_last_error(t, 0)->0 as int, origin_view(origin)),
{
    let e = match crate::utility::find_last_error_node(t, 0) {
        Some(e) => e,
        None => {
            return None;
        },
    };
    let loc = node_location(t, e, origin);
    let mut m = concat2(loc.as_str(), ": parse error in node kind: ");
    let ghost head = m@;
    let tail = diagnostic_tail(t, e, origin);
    string_push_str(&mut m, tail.as_str());
    assert(head.is_prefix_of(m@)) by {
        assert(m@.subrange(0, head.len() as int) =~= head);
    }
    assert(m@ =~= spec_parse_diagnostic(t, e as int, origin_view(origin)));
    Some(m)
}

/// The diagnostic of error node `e`: its location, `: parse error in node
/// kind: ` and what follows (see `spec_diagnostic_tail`).
pub open spec fn spec_parse_diagnostic(t: &SyntaxTree, e: int, origin: Option<Seq<char>>) -> Seq<char> {
    spec_node_location(t, e, origin) + ": parse error in node kind: "@ + spec_diagnostic_tail(t, e, origin)
}

/// `t` is the syntax tree of `source` that the parser reports as `p`.
pub open spec fn parsed_as(t: &SyntaxTree, source: Seq<char>, p: Seq<PlainNode>) -> bool {
    t.wf() && t.source@ == source && copies_plain(t, p)
}

/// The tree of `source` reported as `p` holds no error node.
pub open spec fn parses_clean(source: Seq<char>, p: Seq<PlainNode>) -> bool {
    forall|t: SyntaxTree| #[trigger] parsed_as(&t, source, p) ==> spec_last_error(&t, 0) is None
}

/// `m` is the diagnostic of the last error node of the tree of `source`
/// reported as `p`, led by `origin`.
pub open spec fn parse_error_message(source: Seq<char>, p: Seq<PlainNode>, origin: Option<Seq<char>>, m: Seq<char>) -> bool {
    exists|t: SyntaxTree|
        #[trigger] parsed_as(&t, source, p) && spec_last_error(&t, 0) is Some && m == spec_parse_diagnostic(
            &t,
            spec_last_error(&t, 0)->0 as int,
            origin,
        )
}

/// What parsing `source` gives, as `try_parse` reports it: no tree, a list
/// of nodes that is no tree, the diagnostic of an error node, or a tree
/// without errors.
pub open spec fn parse_outcome(source: Seq<char>, origin: Option<Seq<char>>, r: Result<SyntaxTree, String>) -> bool {
    match apex_parse(source) {
        None => r matches Err(m) && m@ == "Formatting panicked: the parser returned no tree"@,
        Some(p) => if !plain_ok(p) {
            r matches Err(m) && m@ == "## malformed syntax tree"@
        } else if !parses_clean(source, p) {
            r matches Err(m) && parse_error_message(source, p, origin, m@)
        } else {
            r matches Ok(t) && parsed_as(&t, source, p) && spec_last_error(&t, 0) is None
        },
    }
}

/// Two trees copied from one list agree on their last error node.
proof fn lemma_last_error_of_copies(t1: &SyntaxTree, t2: &SyntaxTree, p: Seq<PlainNode>, n: int)
    requires
        t1.wf(),
        t2.wf(),
        copies_plain(t1, p),
        copies_plain(t2, p),
        0 <= n < p.len(),
    ensures
        spec_last_error(t1, n) == spec_last_error(t2, n),
    decreases t1.nodes@.len() - n, t1.kids(n).len() + 1,
{
    assert(copies_node(t1.nodes@[n], p, n) && copies_node(t2.nodes@[n], p, n));
    if t1.nodes@[n].has_error {
        lemma_last_error_from_copies(t1, t2, p, n, t1.kids(n).len() as int);
    }
}

proof fn lemma_last_error_from_copies(t1: &SyntaxTree, t2: &SyntaxTree, p: Seq<PlainNode>, n: int, k: int)
    requires
        t1.wf(),
        t2.wf(),
        copies_plain(t1, p),
        copies_plain(t2, p),
        0 <= n < p.len(),
        k <= t1.kids(n).len(),
    ensures
        crate::utility::last_error_from(t1, n, k) == crate::utility::last_error_from(t2, n, k),
    decreases t1.nodes@.len() - n, k,
{
    assert(copies_node(t1.nodes@[n], p, n) && copies_node(t2.nodes@[n], p, n));
    assert(t1.kids(n) == t2.kids(n));
    if k > 0 {
        let c = t1.kids(n)[k - 1] as int;
        assert(t1.nodes@[n].children@[k - 1] == t1.kids(n)[k - 1]);
        assert(copies_node(t1.nodes@[c], p, c) && copies_node(t2.nodes@[c], p, c));
        if t1.nodes@[c].has_error {
            lemma_last_error_of_copies(t1, t2, p, c);
        } else {
            lemma_last_error_from_copies(t1, t2, p, n, k - 1);
        }
    }
}

/// Parses Apex source with the Apex grammar into a syntax tree; fails with
/// the diagnostic of the tree's last error node when it has one.
pub fn try_parse(source_code: &str, origin: Option<&str>) -> (r: Result<SyntaxTree, String>)
    ensures
        parse_outcome(source_code@, origin_view(origin), r),
{
    let t = parse_tree(source_code)?;
    let ghost p = apex_parse(source_code@)->0;
    match parse_diagnostic(&t, origin) {
        Some(m) => {
            assert(parsed_as(&t, source_code@, p));
            assert(!parses_clean(source_code@, p));
            assert(parse_error_message(source_code@, p, origin_view(origin), m@));
            Err(m)
        },
        None => {
            assert forall|t2: SyntaxTree| #[trigger] parsed_as(&t2, source_code@, p) implies spec_last_error(&t2, 0) is None by {
                lemma_last_error_of_copies(&t, &t2, p, 0);
            }
            Ok(t)
        },
    }
}

// ---------------------------------------------------------------------------
// Formatting.
// ---------------------------------------------------------------------------
/// Formats a parsed tree: the document of its data model printed with the
/// configuration. Fails, as a panic of the formatter, where a comment cannot
/// be read, a node is not what the model expects, or a comment of the source
/// was not written. A tree that the model reads in full (`root_reads`) and
/// that has no comments is always formatted; with readable comments, such a
/// tree can only fail on a comment that was not written.
pub fn format_tree(t: &SyntaxTree, config: &Config) -> (r: Result<String, String>)
    requires
        t.wf(),
        config.spec_validate() is None,
    ensures
        r matches Err(e) ==> "Formatting panicked: "@.is_prefix_of(e@),
        r matches Ok(out) ==> out@.len() > 0 && out@.last() == '\n',
        r matches Ok(out) ==> renders_tree(*t, *config, out@),
        no_comment_nodes(t) && root_reads(t) ==> r is Ok,
        comments_readable(t) && root_reads(t) ==> (r matches Err(e) ==> exists|id: usize|
            e@ == "Formatting panicked: "@ + "comment was not printed: node "@ + decimal(id as nat)),
        lone_comments(t) ==> r is Err,
{
    let cm = match build_comment_map(t) {
        Ok(cm) => cm,
        Err(e) => {
            return Err(panicked(e.as_str()));
        },
    };
    let root = match Root::new(t, 0) {
        Ok(root) => root,
        Err(e) => {
            return Err(panicked(e.as_str()));
        },
    };
    let pc = config.pretty_config();
    let b = DocBuilder::new(pc);
    let mut st = BuildState::new(t.nodes.len());
    let ghost st0 = st.printed@;
    let doc = root.build(&b, &cm, &mut st);
    proof {
        if lone_comments(t) {
            let j = choose|j: int| 0 <= j < t.kids(0).len() && #[trigger] comment_at(t, 0, j);
            lemma_no_code_after(t, 0, j + 1);
            lemma_no_code_before(t, 0, t.kids(0).len() as int);
            assert(comment_placed(t, 0, j, &cm));
            let id = t.kids(0)[j];
            let q = choose|q: int| 0 <= q < cm.buckets@[0].dangling_comments@.len()
                && #[trigger] cm.buckets@[0].dangling_comments@[q].id == id;
            assert(t.nodes@[0].children@[j] == id);
            assert(!st.printed@[id as int]);
            assert(!crate::context::bucket_printed(&cm.buckets@[0], &st));
            assert(!crate::context::all_printed(&cm, &st));
        }
    }
    let out = pretty_print(doc, config.max_width, pc);
    assert(out@ == spec_pretty_print(doc, config.max_width, config.spec_pretty_config()) && root_doc(*doc, root, &cm, config.spec_pretty_config()));
    assert(renders_tree(*t, *config, out@));
    proof {
        crate::doc::law_trailing_newline_ends_output(doc, config.max_width, pc);
    }
    proof {
        if no_comment_nodes(t) {
            lemma_empty_map_all_printed(&cm, &st);
        }
    }
    match first_unprinted(&cm, &st) {
        Some(id) => {
            let mut m = owned("comment was not printed: node ");
            let s = usize_to_string(id);
            string_push_str(&mut m, s.as_str());
            let e = panicked(m.as_str());
            assert(e@ == "Formatting panicked: "@ + "comment was not printed: node "@ + decimal(id as nat));
            Err(e)
        },
        None => Ok(out),
    }
}

/// The source holds comments and no declaration: its root is code with
/// readable comments among its children and no code child.
pub open spec fn lone_comments(t: &SyntaxTree) -> bool {
    &&& comments_readable(t)
    &&& crate::accessor::is_code(t, 0)
    &&& forall|j: int| 0 <= j < t.kids(0).len() ==> !#[trigger] code_at(t, 0, j)
    &&& exists|j: int| 0 <= j < t.kids(0).len() && #[trigger] comment_at(t, 0, j)
}

/// `out` is what the document printer writes, at the configured width, for
/// a document of the tree's top-level declarations (see `root_doc`), one for
/// each declaration of the tree, in the tree's order. The documents nest as
/// the declarations do: a class's members, a method's body and a block's
/// statements each have their own documents, laid out by their kinds, read
/// against a comment map for the tree that is empty when the tree has no
/// comment. Each top-level declaration is read from its node: a class in
/// full, its heading, each member from the code child of its body at the
/// member's place, and within members, statements and expressions, each
/// part from the child that the grammar names for it (see
/// `root_member_tied`).
pub open spec fn renders_tree(t: SyntaxTree, config: Config, out: Seq<char>) -> bool {
    exists|doc: DocRef<'_>, root: Root, cm: CommentMap|
        #![trigger spec_pretty_print(doc, config.max_width, config.spec_pretty_config()), root_doc(*doc, root, &cm, config.spec_pretty_config())]
        out == spec_pretty_print(doc, config.max_width, config.spec_pretty_config()) && root_doc(
            *doc,
            root,
            &cm,
            config.spec_pretty_config(),
        ) && map_wf(&t, &cm) && (no_comment_nodes(&t) ==> map_empty(&cm)) && root.members@.len()
            == crate::accessor::code_children(&t, 0).len() && forall|k: int|
            0 <= k < root.members@.len() ==> (#[trigger] root.members@[k]).member.node_id() == crate::accessor::code_children(
                &t,
                0,
            )[k] && root_member_tied(&t, crate::accessor::code_children(&t, 0)[k] as int, root.members@[k].member)
}

/// `out` is the formatting of `source`: the rendering of the syntax tree
/// that the parser reports for that source, a tree without error nodes.
pub open spec fn formats_to(source: Seq<char>, config: Config, out: Seq<char>) -> bool {
    apex_parse(source) matches Some(p) && exists|t: SyntaxTree|
        #![trigger renders_tree(t, config, out)]
        parsed_as(&t, source, p) && spec_last_error(&t, 0) is None && renders_tree(t, config, out)
}

/// What formatting `source` gives: the refusal of the configuration; where
/// it is accepted, the failure of parsing as `parse_outcome` states it; and
/// for a source that parses without errors, the rendering of its tree or a
/// failure of the formatter, which `format_tree` rules out or narrows for
/// trees that the model reads in full.
pub open spec fn format_outcome(source: Seq<char>, config: Config, origin: Option<Seq<char>>, r: Result<String, String>) -> bool {
    match config.spec_validate() {
        Some(e) => r matches Err(m) && m@ == "Invalid formatter configuration: "@ + e,
        None => match apex_parse(source) {
            None => r matches Err(m) && m@ == "Formatting panicked: the parser returned no tree"@,
            Some(p) => if !plain_ok(p) {
                r matches Err(m) && m@ == "## malformed syntax tree"@
            } else if !parses_clean(source, p) {
                r matches Err(m) && parse_error_message(source, p, origin, m@)
            } else {
                &&& r matches Ok(out) ==> out@.len() > 0 && out@.last() == '\n' && formats_to(source, config, out@)
                &&& r matches Err(m) ==> "Formatting panicked: "@.is_prefix_of(m@)
                &&& (forall|t: SyntaxTree|
                    #[trigger] parsed_as(&t, source, p) ==> no_comment_nodes(&t) && root_reads(&t)) ==> r is Ok
                &&& (forall|t: SyntaxTree| #[trigger] parsed_as(&t, source, p) ==> lone_comments(&t)) ==> r is Err
                &&& (forall|t: SyntaxTree| #[trigger] parsed_as(&t, source, p) ==> comments_readable(&t) && root_reads(&t))
                    ==> (r matches Err(m) ==> exists|id: usize|
                    m@ == "Formatting panicked: "@ + "comment was not printed: node "@ + decimal(id as nat))
            },
        },
    }
}

/// The message of a failure inside the formatter.
fn panicked(message: &str) -> (r: String)
    ensures
        r@ == "Formatting panicked: "@ + message@,
{
    concat2("Formatting panicked: ", message)
}

/// Formats Apex source, its diagnostics led by `origin` where one is given:
/// a refused configuration, a parse error, or a failure of the formatter.
pub fn try_format_source_with_origin(source_code: &str, config: Config, origin: Option<&str>) -> (r: Result<String, String>)
    ensures
        format_outcome(source_code@, config, origin_view(origin), r),
        r matches Ok(out) ==> out@.len() > 0 && out@.last() == '\n' && formats_to(source_code@, config, out@),
{
    match config.validate() {
        Err(e) => {
            return Err(concat2("Invalid formatter configuration: ", e.as_str()));
        },
        Ok(()) => {},
    }
    let t = match try_parse(source_code, origin) {
        Ok(t) => t,
        Err(m) => {
            return Err(m);
        },
    };
    let r = format_tree(&t, &config);
    proof {
        let p = apex_parse(source_code@)->0;
        if let Ok(out) = &r {
            assert(renders_tree(t, config, out@));
            assert(formats_to(source_code@, config, out@));
        }
    }
    r
}

/// Formats Apex source; diagnostics carry no origin.
pub fn try_format_source(source_code: &str, config: Config) -> (r: Result<String, String>)
    ensures
        format_outcome(source_code@, config, None, r),
        r matches Ok(out) ==> out@.len() > 0 && out@.last() == '\n' && formats_to(source_code@, config, out@),
{
    try_format_source_with_origin(source_code, config, None)
}

} // verus!
