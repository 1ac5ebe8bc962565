//! Helpers of the formatter: operator precedence, blank lines after a node,
//! source locations in diagnostics, and facts about nodes.
use crate::accessor::{kind_is, try_c_by_k, try_c_by_n, value};
use crate::strs::{bytes_of, chars_of, concat2, concat3, string_of_chars, string_push, string_push_str};
use crate::syntax::SyntaxTree;
use crate::message_helper::{red, spec_red, spec_yellow, yellow};
use vstd::prelude::*;
use vstd::string::StringSliceAdditionalSpecFns;

verus! {

/// The precedence of an Apex operator, if it is one: assignments lowest,
/// unary operators highest.
pub open spec fn spec_precedence(op: Seq<char>) -> Option<u8> {
    if op == "="@ || op == "+="@ || op == "-="@ || op == "*="@ || op == "/="@ || op == "%="@ || op
        == "&="@ || op == "|="@ || op == "^="@ || op == "<<="@ || op == ">>="@ || op == ">>>="@ {
        Some(1)
    } else if op == "?"@ || op == ":"@ {
        Some(2)
    } else if op == "||"@ || op == "??"@ {
        Some(3)
    } else if op == "&&"@ {
        Some(5)
    } else if op == "|"@ {
        Some(6)
    } else if op == "^"@ {
        Some(7)
    } else if op == "&"@ {
        Some(8)
    } else if op == "=="@ || op == "!="@ || op == "==="@ || op == "!=="@ || op == "<>"@ {
        Some(9)
    } else if op == ">"@ || op == "<"@ || op == ">="@ || op == "<="@ || op == "instanceof"@ {
        Some(10)
    } else if op == "<<"@ || op == ">>"@ || op == ">>>"@ {
        Some(11)
    } else if op == "+"@ || op == "-"@ {
        Some(12)
    } else if op == "*"@ || op == "/"@ || op == "%"@ {
        Some(13)
    } else if op == "!"@ || op == "~"@ || op == "++"@ || op == "--"@ {
        Some(14)
    } else {
        None
    }
}

fn eq_any(op: &str, a: &str, b: &str, c: &str) -> (r: bool)
    ensures
        r == (op@ == a@ || op@ == b@ || op@ == c@),
{
    crate::strs::str_eq(op, a) || crate::strs::str_eq(op, b) || crate::strs::str_eq(op, c)
}

/// The precedence of an operator; an error for one that is not supported.
pub(crate) fn precedence_of(op: &str) -> (r: Result<u8, String>)
    ensures
        r is Ok <==> spec_precedence(op@) is Some,
        r matches Ok(p) ==> spec_precedence(op@) == Some(p),
{
    if eq_any(op, "=", "+=", "-=") || eq_any(op, "*=", "/=", "%=") || eq_any(op, "&=", "|=", "^=")
        || eq_any(op, "<<=", ">>=", ">>>=") {
        Ok(1)
    } else if eq_any(op, "?", ":", ":") {
        Ok(2)
    } else if eq_any(op, "||", "??", "??") {
        Ok(3)
    } else if eq_any(op, "&&", "&&", "&&") {
        Ok(5)
    } else if eq_any(op, "|", "|", "|") {
        Ok(6)
    } else if eq_any(op, "^", "^", "^") {
        Ok(7)
    } else if eq_any(op, "&", "&", "&") {
        Ok(8)
    } else if eq_any(op, "==", "!=", "===") || eq_any(op, "!==", "<>", "<>") {
        Ok(9)
    } else if eq_any(op, ">", "<", ">=") || eq_any(op, "<=", "instanceof", "instanceof") {
        Ok(10)
    } else if eq_any(op, "<<", ">>", ">>>") {
        Ok(11)
    } else if eq_any(op, "+", "-", "-") {
        Ok(12)
    } else if eq_any(op, "*", "/", "%") {
        Ok(13)
    } else if eq_any(op, "!", "~", "++") || eq_any(op, "--", "--", "--") {
        Ok(14)
    } else {
        Err(concat2("## Not supported operator: ", op))
    }
}

/// The precedence of a supported operator.
pub fn get_precedence(op: &str) -> (r: u8)
    requires
        spec_precedence(op@) is Some,
    ensures
        spec_precedence(op@) == Some(r),
{
    match precedence_of(op) {
        Ok(p) => p,
        Err(_) => 0,
    }
}

/// The bytes that follow `from` while they are spaces, tabs, carriage returns
/// or newlines.
pub open spec fn is_blank_byte(b: u8) -> bool {
    b == 32 || b == 9 || b == 13 || b == 10
}

/// The number of newlines, up to two, in the blank bytes from `i` on.
pub open spec fn newlines_ahead(s: Seq<u8>, i: int) -> nat
    decreases s.len() - i,
{
    if i < 0 || i >= s.len() || !is_blank_byte(s[i]) {
        0
    } else if s[i] == 10 {
        if newlines_ahead(s, i + 1) >= 1 {
            2
        } else {
            1
        }
    } else {
        newlines_ahead(s, i + 1)
    }
}

/// Whether an empty line follows a node: the white space after it holds two
/// newlines.
pub fn has_trailing_new_line(t: &SyntaxTree, n: usize) -> (r: bool)
    requires
        t.valid(n as int),
    ensures
        r == (t.nodes@[n as int].end_byte < bytes_of(t.source@).len() && newlines_ahead(
            bytes_of(t.source@),
            t.nodes@[n as int].end_byte as int,
        ) >= 2),
{
    let bytes = t.source.as_str().as_bytes();
    let index = t.nodes[n].end_byte;
    if index >= bytes.len() {
        return false;
    }
    let mut i = index;
    let mut count: usize = 0;
    while i < bytes.len()
        invariant
            bytes@ == bytes_of(t.source@),
            t.valid(n as int),
            index == t.nodes@[n as int].end_byte,
            index <= i <= bytes@.len(),
            count <= 1,
            newlines_ahead(bytes@, index as int) >= 2 <==> (count + newlines_ahead(bytes@, i as int)
                >= 2),
        decreases bytes@.len() - i,
    {
        let b = bytes[i];
        if b == 10 {
            if count >= 1 {
                return true;
            }
            count = count + 1;
        } else if b == 32 || b == 9 || b == 13 {
        } else {
            return false;
        }
        i = i + 1;
    }
    false
}

// ---------------------------------------------------------------------------
// Numbers and locations.
// ---------------------------------------------------------------------------
/// The decimal digits of a number.
pub open spec fn decimal(n: nat) -> Seq<char>
    decreases n,
{
    if n < 10 {
        seq![digit_char(n)]
    } else {
        decimal(n / 10).push(digit_char(n % 10))
    }
}

pub open spec fn digit_char(d: nat) -> char {
    if d == 0 {
        '0'
    } else if d == 1 {
        '1'
    } else if d == 2 {
        '2'
    } else if d == 3 {
        '3'
    } else if d == 4 {
        '4'
    } else if d == 5 {
        '5'
    } else if d == 6 {
        '6'
    } else if d == 7 {
        '7'
    } else if d == 8 {
        '8'
    } else {
        '9'
    }
}

fn digit(d: usize) -> (r: char)
    requires
        d < 10,
    ensures
        r == digit_char(d as nat),
{
    if d == 0 {
        '0'
    } else if d == 1 {
        '1'
    } else if d == 2 {
        '2'
    } else if d == 3 {
        '3'
    } else if d == 4 {
        '4'
    } else if d == 5 {
        '5'
    } else if d == 6 {
        '6'
    } else if d == 7 {
        '7'
    } else if d == 8 {
        '8'
    } else {
        '9'
    }
}

/// A number written in decimal.
pub fn usize_to_string(n: usize) -> (r: String)
    ensures
        r@ == decimal(n as nat),
    decreases n,
{
    if n < 10 {
        let mut s = String::new();
        string_push(&mut s, digit(n));
        assert(s@ =~= seq![digit_char(n as nat)]);
        s
    } else {
        let mut s = usize_to_string(n / 10);
        string_push(&mut s, digit(n % 10));
        s
    }
}

/// A one-based `line:column`, led by the origin of the source and a colon
/// when there is one.
pub open spec fn spec_source_location(origin: Option<Seq<char>>, line: nat, column: nat) -> Seq<char> {
    let lc = decimal(line) + ":"@ + decimal(column);
    match origin {
        Some(o) => o + ":"@ + lc,
        None => lc,
    }
}

pub fn format_source_location(origin: Option<&str>, line: usize, column: usize) -> (r: String)
    ensures
        r@ == spec_source_location(
            match origin {
                Some(o) => Some(o@),
                None => None,
            },
            line as nat,
            column as nat,
        ),
{
    let mut s = String::new();
    match origin {
        Some(o) => {
            string_push_str(&mut s, o);
            string_push_str(&mut s, ":");
        },
        None => {},
    }
    let l = usize_to_string(line);
    string_push_str(&mut s, l.as_str());
    string_push_str(&mut s, ":");
    let c = usize_to_string(column);
    string_push_str(&mut s, c.as_str());
    proof {
        match origin {
            Some(o) => {
                assert(s@ =~= o@ + ":"@ + (decimal(line as nat) + ":"@ + decimal(column as nat)));
            },
            None => {
                assert(s@ =~= decimal(line as nat) + ":"@ + decimal(column as nat));
            },
        }
    }
    s
}

/// The longest snippet of source quoted in a diagnostic, in characters.
pub const MAX_SNIPPET_CHARS: usize = 120;

/// A snippet of at most `MAX_SNIPPET_CHARS` characters: longer text is cut
/// and marked with `...`.
pub open spec fn spec_truncate_snippet(s: Seq<char>) -> Seq<char> {
    if s.len() <= MAX_SNIPPET_CHARS {
        s
    } else {
        s.subrange(0, MAX_SNIPPET_CHARS as int) + "..."@
    }
}

pub fn truncate_snippet(s: &str) -> (r: String)
    ensures
        r@ == spec_truncate_snippet(s@),
{
    let cs = chars_of(s);
    if cs.len() <= MAX_SNIPPET_CHARS {
        string_of_chars(cs.as_slice(), 0, cs.len())
    } else {
        let head = string_of_chars(cs.as_slice(), 0, MAX_SNIPPET_CHARS);
        concat2(head.as_str(), "...")
    }
}

// ---------------------------------------------------------------------------
// Error nodes.
// ---------------------------------------------------------------------------
/// The last error node under `n`, following the last child that holds an
/// error down to the deepest one: `None` when `n` holds no error.
pub open spec fn spec_last_error(t: &SyntaxTree, n: int) -> Option<usize>
    decreases t.nodes@.len() - n, t.kids(n).len() + 1,
{
    if !t.nodes@[n].has_error {
        None
    } else {
        last_error_from(t, n, t.kids(n).len() as int)
    }
}

/// The result of the search in the children of `n` before position `k`: the
/// last such child holding an error, searched in turn, or `n` itself.
pub open spec fn last_error_from(t: &SyntaxTree, n: int, k: int) -> Option<usize>
    decreases t.nodes@.len() - n, k,
{
    if k <= 0 || k > t.kids(n).len() || !t.wf() || !t.valid(n) {
        Some(n as usize)
    } else {
        let c = t.kids(n)[k - 1] as int;
        if t.nodes@[c].has_error {
            proof {
                assert(t.nodes@[n].children@[k - 1] == t.kids(n)[k - 1]);
            }
            spec_last_error(t, c)
        } else {
            last_error_from(t, n, k - 1)
        }
    }
}

/// The deepest last node with an error under `n`, `n` itself when no child
/// holds one, and `None` when `n` holds no error.
pub fn find_last_error_node(t: &SyntaxTree, n: usize) -> (r: Option<usize>)
    requires
        t.wf(),
        t.valid(n as int),
    ensures
        r == spec_last_error(t, n as int),
        r matches Some(e) ==> t.valid(e as int),
    decreases t.nodes@.len() - n,
{
    if !t.nodes[n].has_error {
        return None;
    }
    let node = &t.nodes[n];
    let mut k = node.children.len();
    while k > 0
        invariant
            t.wf(),
            t.valid(n as int),
            node == &t.nodes@[n as int],
            node.has_error,
            k <= node.children@.len(),
            last_error_from(t, n as int, node.children@.len() as int) == last_error_from(t, n as int, k as int),
        decreases k,
    {
        let c = node.children[k - 1];
        assert(t.nodes@[n as int].children@[k - 1] == c);
        if t.nodes[c].has_error {
            return find_last_error_node(t, c);
        }
        k = k - 1;
    }
    Some(n)
}

// ---------------------------------------------------------------------------
// Facts about nodes.
// ---------------------------------------------------------------------------
/// The source text of a node, on a line led by `## Source_code: `, where it
/// can be read.
pub open spec fn source_code_line(t: &SyntaxTree, n: int) -> Seq<char> {
    if crate::accessor::readable(t, n) {
        "\n## Source_code: "@ + crate::accessor::node_text(t, n)
    } else {
        Seq::empty()
    }
}

fn push_source_code_line(t: &SyntaxTree, n: usize, m: &mut String)
    requires
        t.valid(n as int),
    ensures
        final(m)@ == old(m)@ + source_code_line(t, n as int),
{
    match value(t, n) {
        Ok(v) => {
            string_push_str(m, "\n## Source_code: ");
            string_push_str(m, v.as_str());
        },
        Err(_) => {},
    }
}

/// The message of a node of a kind the formatter does not handle.
pub fn panic_unknown_node(t: &SyntaxTree, n: usize, name: &str) -> (r: String)
    requires
        t.valid(n as int),
    ensures
        r@ == "## unknown node: "@ + spec_red(t.nodes@[n as int].kind@) + " in "@ + name@ + source_code_line(t, n as int),
{
    let k = red(t.nodes[n].kind.as_str());
    let mut m = concat3("## unknown node: ", k.as_str(), " in ");
    string_push_str(&mut m, name);
    push_source_code_line(t, n, &mut m);
    m
}

/// Checks that a node is of the expected kind; else the message names the
/// expected kind in yellow, the found kind in red, and the node's source.
pub fn assert_check(t: &SyntaxTree, n: usize, expected_kind: &str) -> (r: Result<(), String>)
    requires
        t.valid(n as int),
    ensures
        r is Ok <==> t.nodes@[n as int].kind@ == expected_kind@,
        r matches Err(e) ==> e@ == "## Expected node kind '"@ + spec_yellow(expected_kind@) + "', found '"@ + spec_red(
            t.nodes@[n as int].kind@,
        ) + "'."@ + source_code_line(t, n as int),
{
    if kind_is(t, n, expected_kind) {
        Ok(())
    } else {
        let y = yellow(expected_kind);
        let k = red(t.nodes[n].kind.as_str());
        let mut m = concat3("## Expected node kind '", y.as_str(), "', found '");
        string_push_str(&mut m, k.as_str());
        string_push_str(&mut m, "'.");
        push_source_code_line(t, n, &mut m);
        Err(m)
    }
}

pub fn is_binary_exp(t: &SyntaxTree, n: usize) -> (r: bool)
    requires
        t.valid(n as int),
    ensures
        r == (t.nodes@[n as int].kind@ == "binary_expression"@),
{
    kind_is(t, n, "binary_expression")
}

pub fn is_query_expression(t: &SyntaxTree, n: usize) -> (r: bool)
    requires
        t.valid(n as int),
    ensures
        r == (t.nodes@[n as int].kind@ == "query_expression"@),
{
    kind_is(t, n, "query_expression")
}

pub open spec fn spec_is_chaining_kind(k: Seq<char>) -> bool {
    k == "method_invocation"@ || k == "array_access"@ || k == "field_access"@ || k
        == "query_expression"@
}

/// Whether a node takes part in a chain of calls and accesses.
pub fn is_a_chaining_node(t: &SyntaxTree, n: usize) -> (r: bool)
    requires
        t.valid(n as int),
    ensures
        r == spec_is_chaining_kind(t.nodes@[n as int].kind@),
{
    kind_is(t, n, "method_invocation") || kind_is(t, n, "array_access") || kind_is(
        t,
        n,
        "field_access",
    ) || kind_is(t, n, "query_expression")
}

/// Where a node stands in a chain: whether it tops the chain, and whether its
/// parent belongs to one.
#[derive(Clone, Copy, PartialEq, Eq, Structural, Debug)]
pub struct ChainingContext {
    pub is_top_most_in_a_chain: bool,
    pub is_parent_a_chaining_node: bool,
}

/// The chaining context of a node: `None` when neither its parent nor its
/// `object` child belongs to a chain.
pub fn build_chaining_context(t: &SyntaxTree, n: usize) -> (r: Result<Option<ChainingContext>, String>)
    requires
        t.wf(),
        t.valid(n as int),
    ensures
        r is Err <==> t.nodes@[n as int].parent is None,
{
    let parent = match t.nodes[n].parent {
        Some(p) => p,
        None => {
            return Err(concat2(t.nodes[n].kind.as_str(), ": node must have parent node in build_chaining_context()"));
        },
    };
    let is_parent_a_chaining_node = is_a_chaining_node(t, parent);
    let has_a_chaining_child = match try_c_by_n(t, n, "object") {
        Some(o) => {
            proof {
                crate::accessor::lemma_selected_valid(t, n as int, crate::accessor::field_pred(t, n as int, "object"@));
            }
            is_a_chaining_node(t, o)
        },
        None => false,
    };
    if !is_parent_a_chaining_node && !has_a_chaining_child {
        return Ok(None);
    }
    Ok(Some(ChainingContext {
        is_top_most_in_a_chain: has_a_chaining_child && !is_parent_a_chaining_node,
        is_parent_a_chaining_node,
    }))
}

} // verus!
