//! Text helpers: building strings, comparing them, slicing the source by byte
//! ranges, and trimming white space.
use vstd::prelude::*;
use vstd::string::StringSliceAdditionalSpecFns;
use vstd::utf8::*;

verus! {

broadcast use {vstd::string::group_string_axioms, vstd::utf8::group_utf8_lib};

/// `String::push`.
#[verifier::external_body]
pub(crate) fn string_push(s: &mut String, c: char)
    ensures
        final(s)@ == old(s)@.push(c),
{
    s.push(c);
}

/// `String::push_str`.
#[verifier::external_body]
pub(crate) fn string_push_str(s: &mut String, t: &str)
    ensures
        final(s)@ == old(s)@ + t@,
{
    s.push_str(t);
}

/// `str::to_lowercase`: Unicode lower case, which takes pages to state.
pub uninterp spec fn lowercase(s: Seq<char>) -> Seq<char>;

/// `str::to_uppercase`: Unicode upper case, which takes pages to state.
pub uninterp spec fn uppercase(s: Seq<char>) -> Seq<char>;

/// `str::to_lowercase`; its result is named `lowercase` of the argument.
#[verifier::external_body]
pub(crate) fn to_lowercase(s: &str) -> (r: String)
    ensures
        r@ == lowercase(s@),
{
    s.to_lowercase()
}

/// `str::to_uppercase`; its result is named `uppercase` of the argument.
#[verifier::external_body]
pub(crate) fn to_uppercase(s: &str) -> (r: String)
    ensures
        r@ == uppercase(s@),
{
    s.to_uppercase()
}

/// A new string holding `s`.
pub fn owned(s: &str) -> (r: String)
    ensures
        r@ == s@,
{
    let mut r = String::new();
    string_push_str(&mut r, s);
    assert(r@ =~= s@);
    r
}

/// `a` followed by `b`.
pub fn concat2(a: &str, b: &str) -> (r: String)
    ensures
        r@ == a@ + b@,
{
    let mut r = String::new();
    string_push_str(&mut r, a);
    string_push_str(&mut r, b);
    assert(r@ =~= a@ + b@);
    r
}

/// `a`, `b` and `c` in a row.
pub fn concat3(a: &str, b: &str, c: &str) -> (r: String)
    ensures
        r@ == a@ + b@ + c@,
{
    let mut r = String::new();
    string_push_str(&mut r, a);
    string_push_str(&mut r, b);
    string_push_str(&mut r, c);
    assert(r@ =~= a@ + b@ + c@);
    r
}

/// The characters of a string.
pub fn chars_of(s: &str) -> (r: Vec<char>)
    ensures
        r@ == s@,
{
    let n = s.unicode_len();
    let mut r: Vec<char> = Vec::new();
    let mut i: usize = 0;
    while i < n
        invariant
            n == s@.len(),
            i <= n,
            r@ == s@.subrange(0, i as int),
        decreases n - i,
    {
        r.push(s.get_char(i));
        i = i + 1;
        assert(r@ =~= s@.subrange(0, i as int));
    }
    assert(r@ =~= s@);
    r
}

/// A string of the characters of `cs[from..to]`.
pub fn string_of_chars(cs: &[char], from: usize, to: usize) -> (r: String)
    requires
        from <= to <= cs@.len(),
    ensures
        r@ == cs@.subrange(from as int, to as int),
{
    let mut r = String::new();
    let mut i = from;
    while i < to
        invariant
            from <= i <= to,
            to <= cs@.len(),
            r@ == cs@.subrange(from as int, i as int),
        decreases to - i,
    {
        string_push(&mut r, cs[i]);
        i = i + 1;
        assert(r@ =~= cs@.subrange(from as int, i as int));
    }
    r
}

pub proof fn lemma_encode_injective(a: Seq<char>, b: Seq<char>)
    requires
        encode_utf8(a) == encode_utf8(b),
    ensures
        a == b,
{
    encode_utf8_decode_utf8(a);
    encode_utf8_decode_utf8(b);
}

/// Whether two strings are equal.
pub fn str_eq(a: &str, b: &str) -> (r: bool)
    ensures
        r == (a@ == b@),
{
    let x = a.as_bytes();
    let y = b.as_bytes();
    if x.len() != y.len() {
        proof {
            if a@ == b@ {
                assert(x@ == y@);
            }
        }
        return false;
    }
    let mut i: usize = 0;
    while i < x.len()
        invariant
            x@.len() == y@.len(),
            x@ == a.spec_bytes(),
            y@ == b.spec_bytes(),
            i <= x@.len(),
            forall|k: int| 0 <= k < i ==> x@[k] == y@[k],
        decreases x@.len() - i,
    {
        if x[i] != y[i] {
            proof {
                if a@ == b@ {
                    assert(x@ == y@);
                }
            }
            return false;
        }
        i = i + 1;
    }
    assert(x@ =~= y@);
    proof {
        lemma_encode_injective(a@, b@);
    }
    true
}

/// The UTF-8 bytes of a string.
pub open spec fn bytes_of(s: Seq<char>) -> Seq<u8> {
    encode_utf8(s)
}

/// The text of `s` between two byte offsets, if both lie on character
/// boundaries in order.
pub fn byte_substring(s: &str, start: usize, end: usize) -> (r: Option<String>)
    ensures
        r matches Some(t) ==> start <= end <= bytes_of(s@).len() && bytes_of(t@) == bytes_of(
            s@,
        ).subrange(start as int, end as int) && is_char_boundary(bytes_of(s@), start as int)
            && is_char_boundary(bytes_of(s@), end as int),
        r is None ==> !(start <= end && is_char_boundary(
            bytes_of(s@),
            start as int,
        ) && is_char_boundary(bytes_of(s@), end as int)),
{
    if start > end {
        return None;
    }
    if !s.is_char_boundary(start) || !s.is_char_boundary(end) {
        return None;
    }
    let ghost bytes = s.spec_bytes();
    proof {
        encode_utf8_valid_utf8(s@);
        if end > bytes.len() {
            assert(!is_char_boundary(bytes, end as int));
        }
    }
    let (_, tail) = s.split_at(start);
    proof {
        assert(tail.spec_bytes() =~= bytes.subrange(start as int, bytes.len() as int));
        encode_utf8_valid_utf8(s@);
        lemma_boundary_shift(bytes, start as int, end as int);
    }
    let (mid, _) = tail.split_at(end - start);
    assert(mid.spec_bytes() =~= bytes.subrange(start as int, end as int));
    Some(owned(mid))
}

/// A boundary at `end` is still a boundary once the first `start` bytes, up to
/// a boundary, are dropped.
pub proof fn lemma_boundary_shift(bytes: Seq<u8>, start: int, end: int)
    requires
        valid_utf8(bytes),
        0 <= start <= end <= bytes.len(),
        is_char_boundary(bytes, start),
        is_char_boundary(bytes, end),
    ensures
        valid_utf8(bytes.subrange(start, bytes.len() as int)),
        is_char_boundary(bytes.subrange(start, bytes.len() as int), end - start),
{
    let tail = bytes.subrange(start, bytes.len() as int);
    valid_utf8_split(bytes, start);
    assert(bytes.subrange(start, bytes.len() as int) =~= tail);
    if end == bytes.len() {
        is_char_boundary_start_end_of_seq(tail);
    } else if end == start {
        is_char_boundary_start_end_of_seq(tail);
    } else {
        is_char_boundary_iff_not_is_continuation_byte(bytes, end);
        assert(tail[end - start] == bytes[end]);
        is_char_boundary_iff_not_is_continuation_byte(tail, end - start);
    }
}

// ---------------------------------------------------------------------------
// White space and trimming.
// ---------------------------------------------------------------------------
/// The characters with the Unicode `White_Space` property, which is what
/// `char::is_whitespace` tests.
pub open spec fn is_ws(c: char) -> bool {
    ||| c == '\t'
    ||| c == '\n'
    ||| c == '\u{0B}'
    ||| c == '\u{0C}'
    ||| c == '\r'
    ||| c == ' '
    ||| c == '\u{85}'
    ||| c == '\u{A0}'
    ||| c == '\u{1680}'
    ||| ('\u{2000}' <= c && c <= '\u{200A}')
    ||| c == '\u{2028}'
    ||| c == '\u{2029}'
    ||| c == '\u{202F}'
    ||| c == '\u{205F}'
    ||| c == '\u{3000}'
}

pub fn is_whitespace(c: char) -> (r: bool)
    ensures
        r == is_ws(c),
{
    c == '\t' || c == '\n' || c == '\u{0B}' || c == '\u{0C}' || c == '\r' || c == ' ' || c
        == '\u{85}' || c == '\u{A0}' || c == '\u{1680}' || ('\u{2000}' <= c && c <= '\u{200A}')
        || c == '\u{2028}' || c == '\u{2029}' || c == '\u{202F}' || c == '\u{205F}' || c
        == '\u{3000}'
}

/// `s` without its leading white space.
pub open spec fn trim_start(s: Seq<char>) -> Seq<char>
    decreases s.len(),
{
    if s.len() > 0 && is_ws(s[0]) {
        trim_start(s.drop_first())
    } else {
        s
    }
}

/// `s` without its trailing white space.
pub open spec fn trim_end(s: Seq<char>) -> Seq<char>
    decreases s.len(),
{
    if s.len() > 0 && is_ws(s.last()) {
        trim_end(s.drop_last())
    } else {
        s
    }
}

/// `s` without leading and trailing white space.
pub open spec fn trim(s: Seq<char>) -> Seq<char> {
    trim_end(trim_start(s))
}

/// The index of the first character of `s[from..to]` that is not white space,
/// or `to`.
pub fn skip_ws_forward(cs: &[char], from: usize, to: usize) -> (r: usize)
    requires
        from <= to <= cs@.len(),
    ensures
        from <= r <= to,
        trim_start(cs@.subrange(from as int, to as int)) == cs@.subrange(r as int, to as int),
        r < to ==> !is_ws(cs@[r as int]),
{
    let mut i = from;
    while i < to && is_whitespace(cs[i])
        invariant
            from <= i <= to,
            to <= cs@.len(),
            trim_start(cs@.subrange(from as int, to as int)) == trim_start(
                cs@.subrange(i as int, to as int),
            ),
        decreases to - i,
    {
        assert(cs@.subrange(i as int, to as int).drop_first() =~= cs@.subrange(
            i + 1,
            to as int,
        ));
        i = i + 1;
    }
    proof {
        let rest = cs@.subrange(i as int, to as int);
        if i < to {
            assert(rest[0] == cs@[i as int]);
        }
    }
    i
}

/// The end of `s[from..to]` once trailing white space is dropped.
pub fn skip_ws_backward(cs: &[char], from: usize, to: usize) -> (r: usize)
    requires
        from <= to <= cs@.len(),
    ensures
        from <= r <= to,
        trim_end(cs@.subrange(from as int, to as int)) == cs@.subrange(from as int, r as int),
{
    let mut j = to;
    while j > from && is_whitespace(cs[j - 1])
        invariant
            from <= j <= to,
            to <= cs@.len(),
            trim_end(cs@.subrange(from as int, to as int)) == trim_end(
                cs@.subrange(from as int, j as int),
            ),
        decreases j - from,
    {
        assert(cs@.subrange(from as int, j as int).drop_last() =~= cs@.subrange(
            from as int,
            j - 1,
        ));
        j = j - 1;
    }
    proof {
        let rest = cs@.subrange(from as int, j as int);
        if j > from {
            assert(rest.last() == cs@[j - 1]);
        }
    }
    j
}

/// The bounds of `trim(s[from..to])` within `s`.
pub fn trim_bounds(cs: &[char], from: usize, to: usize) -> (r: (usize, usize))
    requires
        from <= to <= cs@.len(),
    ensures
        from <= r.0 <= r.1 <= to,
        trim(cs@.subrange(from as int, to as int)) == cs@.subrange(r.0 as int, r.1 as int),
        r.0 < r.1 ==> !is_ws(cs@[r.0 as int]),
{
    let a = skip_ws_forward(cs, from, to);
    let b = skip_ws_backward(cs, a, to);
    proof { b_bounds(cs@, from as int, a as int, b as int, to as int); }
    (a, b)
}

proof fn b_bounds(s: Seq<char>, from: int, a: int, b: int, to: int)
    requires
        from <= a <= b <= to <= s.len(),
        trim_start(s.subrange(from, to)) == s.subrange(a, to),
        trim_end(s.subrange(a, to)) == s.subrange(a, b),
    ensures
        trim(s.subrange(from, to)) == s.subrange(a, b),
{
}

/// `trim(s)` as a new string.
pub fn trimmed(s: &str) -> (r: String)
    ensures
        r@ == trim(s@),
{
    let cs = chars_of(s);
    let (a, b) = trim_bounds(cs.as_slice(), 0, cs.len());
    assert(cs@.subrange(0, cs@.len() as int) =~= s@);
    string_of_chars(cs.as_slice(), a, b)
}

/// `trim_end(s)` as a new string.
pub fn trimmed_end(s: &str) -> (r: String)
    ensures
        r@ == trim_end(s@),
{
    let cs = chars_of(s);
    let b = skip_ws_backward(cs.as_slice(), 0, cs.len());
    assert(cs@.subrange(0, cs@.len() as int) =~= s@);
    string_of_chars(cs.as_slice(), 0, b)
}

/// Whether `s` starts with `p`.
pub fn starts_with(s: &[char], p: &str) -> (r: bool)
    ensures
        r == (p@.len() <= s@.len() && s@.subrange(0, p@.len() as int) == p@),
{
    let pc = chars_of(p);
    if pc.len() > s.len() {
        return false;
    }
    let mut i: usize = 0;
    while i < pc.len()
        invariant
            pc@ == p@,
            pc@.len() <= s@.len(),
            i <= pc@.len(),
            forall|k: int| 0 <= k < i ==> s@[k] == pc@[k],
        decreases pc@.len() - i,
    {
        if s[i] != pc[i] {
            proof {
                if s@.subrange(0, p@.len() as int) == p@ {
                    assert(s@.subrange(0, p@.len() as int)[i as int] == s@[i as int]);
                }
            }
            return false;
        }
        i = i + 1;
    }
    assert(s@.subrange(0, p@.len() as int) =~= p@);
    true
}

} // verus!
