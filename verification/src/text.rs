//! Sequences of characters and bytes: case folding, lexicographic order,
//! substring predicates and wildcard patterns.

use vstd::prelude::*;
use vstd::std_specs::iter::IteratorSpec;

verus! {

/// The lowercase form of a string, as Rust's standard library computes it.
pub uninterp spec fn lowercase(s: Seq<char>) -> Seq<char>;

/// Calls `str::to_lowercase`. The result is the lowercase form of `s`, which
/// depends on the characters of `s` alone; nothing more is claimed of it.
#[verifier::external_body]
pub(crate) fn to_lowercase(s: &str) -> (r: String)
    ensures
        r@ == lowercase(s@),
{
    s.to_lowercase()
}

/// `a` and `b` hold the same characters before position `k`.
pub open spec fn text_agree(a: Seq<char>, b: Seq<char>, k: int) -> bool {
    forall|j: int| 0 <= j < k ==> a[j] == b[j]
}

/// `a` comes strictly before `b` in lexicographic order by code point: at the
/// first position where they part, `a` has ended or holds the smaller character.
pub open spec fn text_lt(a: Seq<char>, b: Seq<char>) -> bool {
    exists|k: int|
        0 <= k <= a.len() && k < b.len() && #[trigger] text_agree(a, b, k) && (k == a.len() || (
        a[k] as u32) < (b[k] as u32))
}

/// `a` and `b` hold the same bytes before position `k`.
pub open spec fn bytes_agree(a: Seq<u8>, b: Seq<u8>, k: int) -> bool {
    forall|j: int| 0 <= j < k ==> a[j] == b[j]
}

/// `a` comes strictly before `b` in lexicographic order of bytes.
pub open spec fn bytes_lt(a: Seq<u8>, b: Seq<u8>) -> bool {
    exists|k: int|
        0 <= k <= a.len() && k < b.len() && #[trigger] bytes_agree(a, b, k) && (k == a.len()
            || a[k] < b[k])
}

/// `p` occurs in `s` at position `at`.
pub open spec fn occurs_at(p: Seq<char>, s: Seq<char>, at: int) -> bool {
    0 <= at && at + p.len() <= s.len() && s.subrange(at, at + p.len()) == p
}

/// `s` begins with `p`.
pub open spec fn starts_with(s: Seq<char>, p: Seq<char>) -> bool {
    occurs_at(p, s, 0)
}

/// `s` ends with `p`.
pub open spec fn ends_with(s: Seq<char>, p: Seq<char>) -> bool {
    occurs_at(p, s, s.len() - p.len())
}

/// `p` occurs somewhere in `s`.
pub open spec fn contains(s: Seq<char>, p: Seq<char>) -> bool {
    exists|at: int| #[trigger] occurs_at(p, s, at)
}

/// The pattern `p` from position `i` on matches `s` from position `j` on:
/// `*` stands for any run of characters, the empty one too, `?` for exactly
/// one character, and any other character for itself. Nothing escapes the two.
pub open spec fn wild_from(p: Seq<char>, s: Seq<char>, i: int, j: int) -> bool
    decreases p.len() - i + s.len() - j,
{
    if i < 0 || j < 0 || j > s.len() {
        false
    } else if i >= p.len() {
        j == s.len()
    } else if p[i] == '*' {
        wild_from(p, s, i + 1, j) || (j < s.len() && wild_from(p, s, i, j + 1))
    } else {
        j < s.len() && (p[i] == '?' || p[i] == s[j]) && wild_from(p, s, i + 1, j + 1)
    }
}

/// The whole of `s` matches the wildcard pattern `p`.
pub open spec fn wild_matches(s: Seq<char>, p: Seq<char>) -> bool {
    wild_from(p, s, 0, 0)
}

/// The characters of a string, one by one.
pub fn chars_of(s: &str) -> (r: Vec<char>)
    ensures
        r@ == s@,
{
    broadcast use {vstd::string::axiom_spec_iter, vstd::string::next_postcondition};

    let mut rest = s.chars();
    let mut r: Vec<char> = Vec::new();
    loop
        invariant
            r@ + rest.remaining() == s@,
            rest.decrease() is Some,
        ensures
            r@ == s@,
        decreases rest.decrease()->0,
    {
        let ghost before = rest.remaining();
        match rest.next() {
            Some(c) => {
                r.push(c);
                assert(r@ + rest.remaining() =~= (r@.drop_last() + before));
            },
            None => {
                assert(r@ + before =~= r@);
                break ;
            },
        }
    }
    r
}

/// The characters of a string, in lowercase where `fold` is set.
pub fn folded_chars(s: &str, fold: bool) -> (r: Vec<char>)
    ensures
        r@ == (if fold {
            lowercase(s@)
        } else {
            s@
        }),
{
    if fold {
        let low = to_lowercase(s);
        chars_of(low.as_str())
    } else {
        chars_of(s)
    }
}

/// Whether two texts hold the same characters.
pub fn text_equal(a: &Vec<char>, b: &Vec<char>) -> (r: bool)
    ensures
        r == (a@ == b@),
{
    if a.len() != b.len() {
        return false;
    }
    let mut i: usize = 0;
    while i < a.len()
        invariant
            a.len() == b.len(),
            i <= a.len(),
            text_agree(a@, b@, i as int),
        decreases a.len() - i,
    {
        if a[i] != b[i] {
            return false;
        }
        i += 1;
    }
    assert(a@ =~= b@);
    true
}

/// Whether `a` comes strictly before `b` in lexicographic order.
pub fn text_less(a: &Vec<char>, b: &Vec<char>) -> (r: bool)
    ensures
        r == text_lt(a@, b@),
{
    let mut i: usize = 0;
    while i < a.len() && i < b.len()
        invariant
            i <= a.len(),
            i <= b.len(),
            text_agree(a@, b@, i as int),
        decreases a.len() - i,
    {
        if a[i] != b[i] {
            let below = (a[i] as u32) < (b[i] as u32);
            proof {
                if !below && text_lt(a@, b@) {
                    let k = choose|k: int|
                        0 <= k <= a.len() && k < b.len() && #[trigger] text_agree(a@, b@, k) && (k
                            == a.len() || (a@[k] as u32) < (b@[k] as u32));
                    assert(k <= i || a@[i as int] == b@[i as int]);
                    assert(k >= i || a@[k] == b@[k]);
                }
            }
            return below;
        }
        i += 1;
    }
    proof {
        if text_lt(a@, b@) {
            let k = choose|k: int|
                0 <= k <= a.len() && k < b.len() && #[trigger] text_agree(a@, b@, k) && (k
                    == a.len() || (a@[k] as u32) < (b@[k] as u32));
            assert(k >= i || a@[k] == b@[k]);
        }
    }
    i < b.len()
}

/// Whether two byte strings hold the same bytes.
pub fn bytes_equal(a: &Vec<u8>, b: &Vec<u8>) -> (r: bool)
    ensures
        r == (a@ == b@),
{
    if a.len() != b.len() {
        return false;
    }
    let mut i: usize = 0;
    while i < a.len()
        invariant
            a.len() == b.len(),
            i <= a.len(),
            bytes_agree(a@, b@, i as int),
        decreases a.len() - i,
    {
        if a[i] != b[i] {
            return false;
        }
        i += 1;
    }
    assert(a@ =~= b@);
    true
}

/// Whether `a` comes strictly before `b` in lexicographic order of bytes.
pub fn bytes_less(a: &Vec<u8>, b: &Vec<u8>) -> (r: bool)
    ensures
        r == bytes_lt(a@, b@),
{
    let mut i: usize = 0;
    while i < a.len() && i < b.len()
        invariant
            i <= a.len(),
            i <= b.len(),
            bytes_agree(a@, b@, i as int),
        decreases a.len() - i,
    {
        if a[i] != b[i] {
            let below = a[i] < b[i];
            proof {
                if !below && bytes_lt(a@, b@) {
                    let k = choose|k: int|
                        0 <= k <= a.len() && k < b.len() && #[trigger] bytes_agree(a@, b@, k) && (k
                            == a.len() || a@[k] < b@[k]);
                    assert(k <= i || a@[i as int] == b@[i as int]);
                    assert(k >= i || a@[k] == b@[k]);
                }
            }
            return below;
        }
        i += 1;
    }
    proof {
        if bytes_lt(a@, b@) {
            let k = choose|k: int|
                0 <= k <= a.len() && k < b.len() && #[trigger] bytes_agree(a@, b@, k) && (k
                    == a.len() || a@[k] < b@[k]);
            assert(k >= i || a@[k] == b@[k]);
        }
    }
    i < b.len()
}

/// Whether `p` stands in `s` at position `at`.
pub fn found_at(p: &Vec<char>, s: &Vec<char>, at: usize) -> (r: bool)
    ensures
        r == occurs_at(p@, s@, at as int),
{
    if at > s.len() || p.len() > s.len() - at {
        return false;
    }
    let mut i: usize = 0;
    while i < p.len()
        invariant
            at + p.len() <= s.len(),
            i <= p.len(),
            forall|j: int| 0 <= j < i ==> s@[at + j] == p@[j],
        decreases p.len() - i,
    {
        if s[at + i] != p[i] {
            assert(s@.subrange(at as int, at + p.len())[i as int] == s@[at + i]);
            return false;
        }
        i += 1;
    }
    assert(s@.subrange(at as int, at + p.len()) =~= p@);
    true
}

/// Whether `s` begins with `p`.
pub fn has_prefix(s: &Vec<char>, p: &Vec<char>) -> (r: bool)
    ensures
        r == starts_with(s@, p@),
{
    found_at(p, s, 0)
}

/// Whether `s` ends with `p`.
pub fn has_suffix(s: &Vec<char>, p: &Vec<char>) -> (r: bool)
    ensures
        r == ends_with(s@, p@),
{
    if p.len() > s.len() {
        return false;
    }
    found_at(p, s, s.len() - p.len())
}

/// Whether `p` occurs somewhere in `s`.
pub fn has_infix(s: &Vec<char>, p: &Vec<char>) -> (r: bool)
    ensures
        r == contains(s@, p@),
{
    if p.len() > s.len() {
        assert(forall|at: int| !occurs_at(p@, s@, at));
        return false;
    }
    let last: usize = s.len() - p.len();
    let mut at: usize = 0;
    while at < last
        invariant
            last == s.len() - p.len(),
            at <= last,
            forall|k: int| 0 <= k < at ==> !occurs_at(p@, s@, k),
        decreases last - at,
    {
        if found_at(p, s, at) {
            return true;
        }
        at += 1;
    }
    let r = found_at(p, s, last);
    assert(!r ==> forall|k: int| !occurs_at(p@, s@, k));
    r
}

/// Whether the whole of `s` matches the wildcard pattern `p`. The pattern is
/// walked from its end; for each of its positions one pass over `s` tells from
/// which positions of `s` the rest of the pattern matches.
pub fn wild_match(s: &Vec<char>, p: &Vec<char>) -> (r: bool)
    ensures
        r == wild_matches(s@, p@),
{
    let n: usize = s.len();
    let m: usize = p.len();
    let mut row: Vec<bool> = Vec::new();
    let mut k: usize = 0;
    while k < n
        invariant
            k <= n,
            n == s.len(),
            m == p.len(),
            row.len() == k,
            forall|j: int| 0 <= j < k ==> row@[j] == wild_from(p@, s@, m as int, j),
        decreases n - k,
    {
        row.push(false);
        k += 1;
    }
    let mut end: bool = true;
    let mut i: usize = m;
    while i > 0
        invariant
            i <= m,
            n == s.len(),
            m == p.len(),
            row.len() == n,
            forall|j: int| 0 <= j < n ==> row@[j] == wild_from(p@, s@, i as int, j),
            end == wild_from(p@, s@, i as int, n as int),
        decreases i,
    {
        i -= 1;
        let c = p[i];
        if c == '*' {
            let mut j: usize = n;
            while j > 0
                invariant
                    j <= n,
                    i < m,
                    n == s.len(),
                    m == p.len(),
                    row.len() == n,
                    c == p@[i as int],
                    c == '*',
                    forall|k: int| j <= k < n ==> row@[k] == wild_from(p@, s@, i as int, k),
                    forall|k: int| 0 <= k < j ==> row@[k] == wild_from(p@, s@, i + 1, k),
                    end == wild_from(p@, s@, i + 1, n as int),
                decreases j,
            {
                j -= 1;
                let next = if j + 1 < n {
                    row[j + 1]
                } else {
                    end
                };
                assert(wild_from(p@, s@, i as int, n as int) == end);
                assert(next == wild_from(p@, s@, i as int, j + 1));
                let v = row[j] || next;
                row.set(j, v);
            }
            assert(wild_from(p@, s@, i as int, n as int) == end);
        } else {
            let mut j: usize = 0;
            while j < n
                invariant
                    j <= n,
                    i < m,
                    n == s.len(),
                    m == p.len(),
                    row.len() == n,
                    c == p@[i as int],
                    c != '*',
                    forall|k: int| 0 <= k < j ==> row@[k] == wild_from(p@, s@, i as int, k),
                    forall|k: int| j <= k < n ==> row@[k] == wild_from(p@, s@, i + 1, k),
                    end == wild_from(p@, s@, i + 1, n as int),
                decreases n - j,
            {
                let next = if j + 1 < n {
                    row[j + 1]
                } else {
                    end
                };
                assert(next == wild_from(p@, s@, i + 1, j + 1));
                let v = (c == '?' || c == s[j]) && next;
                row.set(j, v);
                j += 1;
            }
            end = false;
            assert(!wild_from(p@, s@, i as int, n as int));
        }
    }
    if n == 0 {
        end
    } else {
        row[0]
    }
}

} // verus!
