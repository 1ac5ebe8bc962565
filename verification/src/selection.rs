//! Which files a run formats: Apex files found under the given inputs,
//! files given by name, the default exclusions, and the order in which the
//! files are processed.
use crate::strs::{chars_of, str_eq};
use vstd::prelude::*;

verus! {

/// `a` comes before `b`: at the first position where they differ, the
/// character of `a` is the smaller, or `a` is a proper prefix of `b`. This
/// is the order of Rust's `str`.
pub open spec fn seq_lt(a: Seq<char>, b: Seq<char>) -> bool
    decreases a.len(),
{
    if a.len() == 0 {
        b.len() > 0
    } else if b.len() == 0 {
        false
    } else if a[0] != b[0] {
        (a[0] as int) < (b[0] as int)
    } else {
        seq_lt(a.drop_first(), b.drop_first())
    }
}

/// No sequence comes before itself.
pub proof fn lemma_seq_lt_irreflexive(a: Seq<char>)
    ensures
        !seq_lt(a, a),
    decreases a.len(),
{
    if a.len() > 0 {
        lemma_seq_lt_irreflexive(a.drop_first());
    }
}

/// The order is transitive.
pub proof fn lemma_seq_lt_transitive(a: Seq<char>, b: Seq<char>, c: Seq<char>)
    requires
        seq_lt(a, b),
        seq_lt(b, c),
    ensures
        seq_lt(a, c),
    decreases a.len(),
{
    if a.len() > 0 && b.len() > 0 && c.len() > 0 && a[0] == b[0] && b[0] == c[0] {
        lemma_seq_lt_transitive(a.drop_first(), b.drop_first(), c.drop_first());
    }
}

/// Of two different sequences, one comes before the other.
pub proof fn lemma_seq_lt_total(a: Seq<char>, b: Seq<char>)
    requires
        a != b,
    ensures
        seq_lt(a, b) || seq_lt(b, a),
    decreases a.len(),
{
    if a.len() > 0 && b.len() > 0 && a[0] == b[0] {
        if a.drop_first() == b.drop_first() {
            assert(a =~= seq![a[0]] + a.drop_first());
            assert(b =~= seq![b[0]] + b.drop_first());
        }
        lemma_seq_lt_total(a.drop_first(), b.drop_first());
    } else if a.len() > 0 && b.len() > 0 {
        assert((a[0] as int) != (b[0] as int));
    } else if a.len() == 0 && b.len() == 0 {
        assert(a =~= b);
    }
}

/// Whether `a` comes before `b` in the order of `str`.
pub fn str_lt(a: &str, b: &str) -> (r: bool)
    ensures
        r == seq_lt(a@, b@),
{
    let x = chars_of(a);
    let y = chars_of(b);
    let mut i: usize = 0;
    assert(a@.subrange(0, a@.len() as int) =~= a@);
    assert(b@.subrange(0, b@.len() as int) =~= b@);
    while i < x.len() && i < y.len() && x[i] == y[i]
        invariant
            x@ == a@,
            y@ == b@,
            i <= x@.len(),
            i <= y@.len(),
            x@.subrange(0, i as int) == y@.subrange(0, i as int),
            seq_lt(a@, b@) == seq_lt(a@.subrange(i as int, a@.len() as int), b@.subrange(i as int, b@.len() as int)),
        decreases x@.len() - i,
    {
        proof {
            let s = a@.subrange(i as int, a@.len() as int);
            let t = b@.subrange(i as int, b@.len() as int);
            assert(s.drop_first() =~= a@.subrange(i + 1, a@.len() as int));
            assert(t.drop_first() =~= b@.subrange(i + 1, b@.len() as int));
            assert(x@.subrange(0, i + 1) =~= x@.subrange(0, i as int).push(x@[i as int]));
            assert(y@.subrange(0, i + 1) =~= y@.subrange(0, i as int).push(y@[i as int]));
        }
        i = i + 1;
    }
    proof {
        let s = a@.subrange(i as int, a@.len() as int);
        let t = b@.subrange(i as int, b@.len() as int);
        assert(s.len() == 0 ==> seq_lt(s, t) == (t.len() > 0));
    }
    if i == x.len() {
        i < y.len()
    } else if i == y.len() {
        false
    } else {
        x[i] < y[i]
    }
}

/// `p` ends with `s`.
pub open spec fn ends_with(p: Seq<char>, s: Seq<char>) -> bool {
    s.len() <= p.len() && p.subrange(p.len() - s.len(), p.len() as int) == s
}

/// A path with the extension of an Apex source: `.cls`, `.trigger`,
/// `.apex` or `.apexc`.
pub open spec fn is_apex_path(p: Seq<char>) -> bool {
    ends_with(p, ".cls"@) || ends_with(p, ".trigger"@) || ends_with(p, ".apex"@) || ends_with(p, ".apexc"@)
}

/// `name` is one of the `/`-separated components of `p`.
pub open spec fn has_component(p: Seq<char>, name: Seq<char>) -> bool {
    exists|i: int| #[trigger] component_at(p, name, i)
}

/// `name` is the component of `p` that starts at `i`.
pub open spec fn component_at(p: Seq<char>, name: Seq<char>, i: int) -> bool {
    &&& 0 <= i
    &&& i + name.len() <= p.len()
    &&& i == 0 || p[i - 1] == '/'
    &&& i + name.len() == p.len() || p[i + name.len()] == '/'
    &&& p.subrange(i, i + name.len()) == name
}

/// A path inside a directory that is left out by default: `.git`, `.sfdx`
/// or `node_modules`.
pub open spec fn is_excluded_path(p: Seq<char>) -> bool {
    has_component(p, ".git"@) || has_component(p, ".sfdx"@) || has_component(p, "node_modules"@)
}

/// Whether `cs` ends with `s`.
fn chars_end_with(cs: &[char], s: &str) -> (r: bool)
    ensures
        r == ends_with(cs@, s@),
{
    let t = chars_of(s);
    if t.len() > cs.len() {
        return false;
    }
    let off = cs.len() - t.len();
    let mut i: usize = 0;
    while i < t.len()
        invariant
            t@ == s@,
            off + t@.len() == cs@.len(),
            cs@.len() <= usize::MAX,
            i <= t@.len(),
            forall|k: int| 0 <= k < i ==> cs@[off + k] == t@[k],
        decreases t@.len() - i,
    {
        if cs[off + i] != t[i] {
            proof {
                if ends_with(cs@, s@) {
                    assert(cs@.subrange(off as int, cs@.len() as int)[i as int] == cs@[off + i]);
                }
            }
            return false;
        }
        i = i + 1;
    }
    assert(cs@.subrange(off as int, cs@.len() as int) =~= s@);
    true
}

/// Whether a path has the extension of an Apex source.
pub fn is_apex_file(path: &str) -> (r: bool)
    ensures
        r == is_apex_path(path@),
{
    let cs = chars_of(path);
    chars_end_with(cs.as_slice(), ".cls") || chars_end_with(cs.as_slice(), ".trigger") || chars_end_with(
        cs.as_slice(),
        ".apex",
    ) || chars_end_with(cs.as_slice(), ".apexc")
}

/// Whether `name` is the component of `cs` that starts at `i`.
fn component_matches(cs: &[char], name: &[char], i: usize) -> (r: bool)
    ensures
        r == component_at(cs@, name@, i as int),
{
    if name.len() > cs.len() || i > cs.len() - name.len() {
        return false;
    }
    if i > 0 && cs[i - 1] != '/' {
        return false;
    }
    let end = i + name.len();
    if end < cs.len() && cs[end] != '/' {
        return false;
    }
    let mut k: usize = 0;
    while k < name.len()
        invariant
            end == i + name@.len(),
            end <= cs@.len(),
            k <= name@.len(),
            forall|m: int| 0 <= m < k ==> cs@[i + m] == name@[m],
        decreases name@.len() - k,
    {
        if cs[i + k] != name[k] {
            proof {
                if component_at(cs@, name@, i as int) {
                    assert(cs@.subrange(i as int, end as int)[k as int] == cs@[i + k]);
                }
            }
            return false;
        }
        k = k + 1;
    }
    assert(cs@.subrange(i as int, end as int) =~= name@);
    true
}

/// Whether `name` is one of the components of `cs`.
fn has_component_chars(cs: &[char], name: &str) -> (r: bool)
    ensures
        r == has_component(cs@, name@),
{
    let n = chars_of(name);
    let mut i: usize = 0;
    while i < cs.len()
        invariant
            n@ == name@,
            i <= cs@.len(),
            forall|j: int| 0 <= j < i ==> !#[trigger] component_at(cs@, name@, j),
        decreases cs@.len() - i,
    {
        if component_matches(cs, n.as_slice(), i) {
            return true;
        }
        i = i + 1;
    }
    if component_matches(cs, n.as_slice(), cs.len()) {
        return true;
    }
    proof {
        assert forall|j: int| !#[trigger] component_at(cs@, name@, j) by {
            if 0 <= j && j < cs@.len() {
            }
        }
    }
    false
}

/// Whether a path lies in a directory left out by default.
pub fn is_excluded(path: &str) -> (r: bool)
    ensures
        r == is_excluded_path(path@),
{
    let cs = chars_of(path);
    has_component_chars(cs.as_slice(), ".git") || has_component_chars(cs.as_slice(), ".sfdx")
        || has_component_chars(cs.as_slice(), "node_modules")
}

/// The paths are in strictly increasing order, so none occurs twice.
pub open spec fn strictly_sorted(v: Seq<String>) -> bool {
    forall|i: int, j: int| 0 <= i < j < v.len() ==> seq_lt(#[trigger] v[i]@, #[trigger] v[j]@)
}

/// `p` is one of the paths.
pub open spec fn has_path(v: Seq<String>, p: Seq<char>) -> bool {
    exists|i: int| 0 <= i < v.len() && #[trigger] v[i]@ == p
}

/// Adds a path to a sorted list where it is not there yet, keeping the
/// order.
fn insert_sorted(v: &mut Vec<String>, s: String)
    requires
        strictly_sorted(old(v)@),
    ensures
        strictly_sorted(final(v)@),
        forall|p: Seq<char>| has_path(final(v)@, p) <==> (has_path(old(v)@, p) || p == s@),
{
    let mut k: usize = 0;
    while k < v.len() && str_lt(v[k].as_str(), s.as_str())
        invariant
            k <= v@.len(),
            forall|j: int| 0 <= j < k ==> seq_lt(#[trigger] v@[j]@, s@),
        decreases v@.len() - k,
    {
        k = k + 1;
    }
    if k < v.len() && str_eq(v[k].as_str(), s.as_str()) {
        assert(has_path(v@, s@));
        return;
    }
    let ghost old_v = v@;
    proof {
        if k < old_v.len() {
            lemma_seq_lt_total(old_v[k as int]@, s@);
        }
    }
    v.insert(k, s);
    proof {
        let nv = v@;
        assert(nv == old_v.insert(k as int, nv[k as int]));
        assert forall|i: int, j: int| 0 <= i < j < nv.len() implies seq_lt(#[trigger] nv[i]@, #[trigger] nv[j]@) by {
            if j < k {
                assert(nv[i] == old_v[i] && nv[j] == old_v[j]);
            } else if j == k {
                assert(nv[i] == old_v[i]);
            } else if i == k {
                assert(nv[j] == old_v[j - 1]);
                if j - 1 > k {
                    lemma_seq_lt_transitive(nv[k as int]@, old_v[k as int]@, old_v[j - 1]@);
                }
            } else if i < k {
                assert(nv[i] == old_v[i] && nv[j] == old_v[j - 1]);
            } else {
                assert(nv[i] == old_v[i - 1] && nv[j] == old_v[j - 1]);
            }
        }
        assert forall|p: Seq<char>| has_path(nv, p) <== (has_path(old_v, p) || p == nv[k as int]@) by {
            if has_path(old_v, p) {
                let i = choose|i: int| 0 <= i < old_v.len() && #[trigger] old_v[i]@ == p;
                if i < k {
                    assert(nv[i] == old_v[i]);
                } else {
                    assert(nv[i + 1] == old_v[i]);
                }
            }
        }
        assert forall|p: Seq<char>| has_path(nv, p) ==> (has_path(old_v, p) || p == nv[k as int]@) by {
            if has_path(nv, p) {
                let i = choose|i: int| 0 <= i < nv.len() && #[trigger] nv[i]@ == p;
                if i < k {
                    assert(nv[i] == old_v[i]);
                } else if i > k {
                    assert(nv[i] == old_v[i - 1]);
                }
            }
        }
    }
}

/// A prefix one longer holds the paths of the shorter one and the next.
proof fn lemma_has_path_prefix(v: Seq<String>, i: int, q: Seq<char>)
    requires
        0 <= i < v.len(),
    ensures
        has_path(v.subrange(0, i + 1), q) <==> (has_path(v.subrange(0, i), q) || q == v[i]@),
{
    let a = v.subrange(0, i);
    let b = v.subrange(0, i + 1);
    if has_path(b, q) {
        let k = choose|k: int| 0 <= k < b.len() && #[trigger] b[k]@ == q;
        if k < i {
            assert(a[k] == b[k]);
        }
    }
    if has_path(a, q) {
        let k = choose|k: int| 0 <= k < a.len() && #[trigger] a[k]@ == q;
        assert(b[k] == a[k]);
    }
    if q == v[i]@ {
        assert(b[i] == v[i]);
    }
}

/// The files a run formats, each once, in increasing order: the files given
/// by name, and the Apex files found inside the directories given; in both,
/// none that lies in a directory left out by default.
pub fn select_files(named: Vec<String>, found: Vec<String>) -> (r: Vec<String>)
    ensures
        strictly_sorted(r@),
        forall|p: Seq<char>|
            #[trigger] has_path(r@, p) <==> ((has_path(named@, p) || (has_path(found@, p) && is_apex_path(p)))
                && !is_excluded_path(p)),
{
    let mut r: Vec<String> = Vec::new();
    let mut i: usize = 0;
    while i < named.len()
        invariant
            i <= named@.len(),
            strictly_sorted(r@),
            forall|p: Seq<char>|
                #[trigger] has_path(r@, p) <==> (has_path(named@.subrange(0, i as int), p) && !is_excluded_path(p)),
        decreases named@.len() - i,
    {
        let ghost before = r@;
        let p = named[i].clone();
        let keep = !is_excluded(p.as_str());
        if keep {
            insert_sorted(&mut r, p);
        }
        proof {
            assert forall|q: Seq<char>|
                #[trigger] has_path(r@, q) <==> (has_path(named@.subrange(0, i + 1), q) && !is_excluded_path(q)) by {
                lemma_has_path_prefix(named@, i as int, q);
            }
        }
        i = i + 1;
    }
    assert(named@.subrange(0, named@.len() as int) =~= named@);
    assert(found@.subrange(0, 0) =~= Seq::<String>::empty());
    let mut j: usize = 0;
    while j < found.len()
        invariant
            j <= found@.len(),
            strictly_sorted(r@),
            forall|p: Seq<char>|
                #[trigger] has_path(r@, p) <==> ((has_path(named@, p) || (has_path(found@.subrange(0, j as int), p)
                    && is_apex_path(p))) && !is_excluded_path(p)),
        decreases found@.len() - j,
    {
        let p = found[j].clone();
        let keep = is_apex_file(p.as_str()) && !is_excluded(p.as_str());
        if keep {
            insert_sorted(&mut r, p);
        }
        proof {
            assert forall|q: Seq<char>|
                #[trigger] has_path(r@, q) <==> ((has_path(named@, q) || (has_path(found@.subrange(0, j + 1), q)
                    && is_apex_path(q))) && !is_excluded_path(q)) by {
                lemma_has_path_prefix(found@, j as int, q);
            }
        }
        j = j + 1;
    }
    assert(found@.subrange(0, found@.len() as int) =~= found@);
    r
}

/// A path without the `./` segments that lead it.
pub open spec fn without_dot_prefix(p: Seq<char>) -> Seq<char>
    decreases p.len(),
{
    if p.len() >= 2 && p[0] == '.' && p[1] == '/' {
        without_dot_prefix(p.subrange(2, p.len() as int))
    } else {
        p
    }
}

/// The path with the `./` segments that lead it removed, so that `./a.cls`
/// and `a.cls` name one input.
pub fn normalize_path(path: &str) -> (r: String)
    ensures
        r@ == without_dot_prefix(path@),
{
    let cs = chars_of(path);
    let mut k: usize = 0;
    assert(cs@.subrange(0, cs@.len() as int) =~= cs@);
    while cs.len() - k >= 2 && cs[k] == '.' && cs[k + 1] == '/'
        invariant
            cs@ == path@,
            k <= cs@.len(),
            without_dot_prefix(path@) == without_dot_prefix(cs@.subrange(k as int, cs@.len() as int)),
        decreases cs@.len() - k,
    {
        proof {
            let t = cs@.subrange(k as int, cs@.len() as int);
            assert(t.subrange(2, t.len() as int) =~= cs@.subrange(k + 2, cs@.len() as int));
        }
        k = k + 2;
    }
    crate::strs::string_of_chars(cs.as_slice(), k, cs.len())
}

} // verus!
