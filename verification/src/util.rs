//! String scanning helpers shared by the address and device-list grammars.

use vstd::prelude::*;
use vstd::string::*;

verus! {

/// `p` occurs in `s` at position `i`.
pub open spec fn occurs_at(s: Seq<char>, p: Seq<char>, i: int) -> bool {
    0 <= i && i + p.len() <= s.len() && s.subrange(i, i + p.len()) == p
}

/// `p` is a prefix of `s`.
pub open spec fn is_prefix_of(p: Seq<char>, s: Seq<char>) -> bool {
    occurs_at(s, p, 0)
}

/// The first position at which `p` occurs in `s`, or -1 when it does not occur.
pub open spec fn find_sub(s: Seq<char>, p: Seq<char>) -> int
    decreases s.len(),
{
    if p.len() > s.len() {
        -1
    } else if s.subrange(0, p.len() as int) == p {
        0
    } else if s.len() == 0 {
        -1
    } else {
        let r = find_sub(s.drop_first(), p);
        if r < 0 {
            -1
        } else {
            1 + r
        }
    }
}

/// The last position at which `p` occurs in `s`, or -1 when it does not occur.
pub open spec fn rfind_sub(s: Seq<char>, p: Seq<char>) -> int
    decreases s.len(),
{
    if p.len() > s.len() {
        -1
    } else if s.len() == 0 {
        0
    } else {
        let r = rfind_sub(s.drop_first(), p);
        if r >= 0 {
            1 + r
        } else if s.subrange(0, p.len() as int) == p {
            0
        } else {
            -1
        }
    }
}

proof fn lemma_occurs_shift(s: Seq<char>, p: Seq<char>, i: int)
    requires
        s.len() > 0,
        i >= 1,
    ensures
        occurs_at(s, p, i) <==> occurs_at(s.drop_first(), p, i - 1),
{
    if i + p.len() <= s.len() {
        assert(s.drop_first().subrange(i - 1, i - 1 + p.len() as int) =~= s.subrange(
            i,
            i + p.len() as int,
        ));
    }
}

/// `find_sub` names the first occurrence.
pub proof fn lemma_find_sub_correct(s: Seq<char>, p: Seq<char>)
    ensures
        find_sub(s, p) == -1 ==> forall|i: int| !occurs_at(s, p, i),
        find_sub(s, p) >= 0 ==> occurs_at(s, p, find_sub(s, p)) && (forall|i: int|
            0 <= i < find_sub(s, p) ==> !occurs_at(s, p, i)),
    decreases s.len(),
{
    if p.len() > s.len() {
        assert(forall|i: int| !occurs_at(s, p, i));
    } else if s.subrange(0, p.len() as int) == p {
        assert(occurs_at(s, p, 0));
    } else if s.len() == 0 {
        assert(p.len() == 0);
        assert(s.subrange(0, 0) =~= p);
        assert(false);
    } else {
        lemma_find_sub_correct(s.drop_first(), p);
        let r = find_sub(s.drop_first(), p);
        if r < 0 {
            assert forall|i: int| !occurs_at(s, p, i) by {
                if i == 0 {
                    assert(!occurs_at(s, p, 0));
                } else if i >= 1 {
                    lemma_occurs_shift(s, p, i);
                }
            }
        } else {
            lemma_occurs_shift(s, p, 1 + r);
            assert forall|i: int| 0 <= i < 1 + r implies !occurs_at(s, p, i) by {
                if i == 0 {
                    assert(!occurs_at(s, p, 0));
                } else {
                    lemma_occurs_shift(s, p, i);
                }
            }
        }
    }
}

/// `rfind_sub` names the last occurrence.
pub proof fn lemma_rfind_sub_correct(s: Seq<char>, p: Seq<char>)
    ensures
        rfind_sub(s, p) == -1 ==> forall|i: int| !occurs_at(s, p, i),
        rfind_sub(s, p) >= 0 ==> occurs_at(s, p, rfind_sub(s, p)) && (forall|i: int|
            i > rfind_sub(s, p) ==> !occurs_at(s, p, i)),
    decreases s.len(),
{
    if p.len() > s.len() {
        assert(forall|i: int| !occurs_at(s, p, i));
    } else if s.len() == 0 {
        assert(s.subrange(0, 0) =~= p);
        assert(occurs_at(s, p, 0));
        assert(forall|i: int| i > 0 ==> !occurs_at(s, p, i));
    } else {
        lemma_rfind_sub_correct(s.drop_first(), p);
        let r = rfind_sub(s.drop_first(), p);
        if r >= 0 {
            lemma_occurs_shift(s, p, 1 + r);
            assert forall|i: int| i > 1 + r implies !occurs_at(s, p, i) by {
                lemma_occurs_shift(s, p, i);
            }
        } else {
            assert forall|i: int| i >= 1 implies !occurs_at(s, p, i) by {
                lemma_occurs_shift(s, p, i);
            }
        }
    }
}

/// A position that holds an occurrence with none before it is the first.
pub proof fn lemma_find_sub_exact(s: Seq<char>, p: Seq<char>, i: int)
    requires
        occurs_at(s, p, i),
        forall|q: int| 0 <= q < i ==> !occurs_at(s, p, q),
    ensures
        find_sub(s, p) == i,
{
    lemma_find_sub_correct(s, p);
    let f = find_sub(s, p);
    if f == -1 {
        assert(!occurs_at(s, p, i));
    } else if f < i {
        assert(!occurs_at(s, p, f));
    } else if f > i {
        assert(!occurs_at(s, p, i));
    }
}

/// A position that holds an occurrence with none after it is the last.
pub proof fn lemma_rfind_sub_exact(s: Seq<char>, p: Seq<char>, i: int)
    requires
        occurs_at(s, p, i),
        forall|q: int| q > i ==> !occurs_at(s, p, q),
    ensures
        rfind_sub(s, p) == i,
{
    lemma_rfind_sub_correct(s, p);
    let f = rfind_sub(s, p);
    if f == -1 {
        assert(!occurs_at(s, p, i));
    } else if f < i {
        assert(!occurs_at(s, p, i));
    } else if f > i {
        assert(!occurs_at(s, p, f));
    }
}

/// Compares `p` against the characters of `s` starting at `i`.
pub fn matches_at(s: &str, n: usize, p: &str, m: usize, i: usize) -> (b: bool)
    requires
        n == s@.len(),
        m == p@.len(),
        i + m <= n,
    ensures
        b == occurs_at(s@, p@, i as int),
{
    let mut k: usize = 0;
    while k < m
        invariant
            n == s@.len(),
            m == p@.len(),
            i + m <= n,
            k <= m,
            forall|q: int| 0 <= q < k ==> s@[i + q] == p@[q],
        decreases m - k,
    {
        if s.get_char(i + k) != p.get_char(k) {
            proof {
                assert(s@.subrange(i as int, i as int + m as int)[k as int] == s@[i + k]);
            }
            return false;
        }
        k = k + 1;
    }
    proof {
        assert(s@.subrange(i as int, i as int + m as int) =~= p@);
    }
    true
}

/// Whether `s` starts with `prefix`.
pub fn starts_with(s: &str, prefix: &str) -> (b: bool)
    ensures
        b == is_prefix_of(prefix@, s@),
{
    let n = s.unicode_len();
    let m = prefix.unicode_len();
    if m > n {
        return false;
    }
    matches_at(s, n, prefix, m, 0)
}

/// Checks whether `s` starts with `prefix`, and returns the rest of `s` if so.
pub fn consume_prefix<'a>(s: &'a str, prefix: &str) -> (r: Option<&'a str>)
    ensures
        is_prefix_of(prefix@, s@) ==> (r matches Some(t) && t@ == s@.skip(prefix@.len() as int)),
        !is_prefix_of(prefix@, s@) ==> r is None,
{
    let n = s.unicode_len();
    let m = prefix.unicode_len();
    if m > n {
        return None;
    }
    if matches_at(s, n, prefix, m, 0) {
        Some(s.substring_char(m, n))
    } else {
        None
    }
}

/// Splits `s` at the first occurrence of `pattern`, which is removed;
/// the pieces are returned in text order.
pub fn split_once<'a>(s: &'a str, pattern: &str) -> (r: Option<(&'a str, &'a str)>)
    ensures
        (find_sub(s@, pattern@) >= 0) == (r is Some),
        r matches Some(ab) ==> (ab.0@ == s@.take(find_sub(s@, pattern@)) && ab.1@ == s@.skip(
            find_sub(s@, pattern@) + pattern@.len(),
        )),
{
    let n = s.unicode_len();
    let m = pattern.unicode_len();
    proof {
        lemma_find_sub_correct(s@, pattern@);
    }
    if m > n {
        return None;
    }
    let mut i: usize = 0;
    loop
        invariant
            n == s@.len(),
            m == pattern@.len(),
            m <= n,
            i <= n - m,
            forall|q: int| 0 <= q < i ==> !occurs_at(s@, pattern@, q),
        decreases n - m - i,
    {
        if matches_at(s, n, pattern, m, i) {
            proof {
                lemma_find_sub_correct(s@, pattern@);
                assert(find_sub(s@, pattern@) == i);
            }
            return Some((s.substring_char(0, i), s.substring_char(i + m, n)));
        }
        if i == n - m {
            proof {
                assert(forall|q: int| !occurs_at(s@, pattern@, q));
                lemma_find_sub_correct(s@, pattern@);
            }
            return None;
        }
        i = i + 1;
    }
}

/// Splits `s` at the last occurrence of `pattern`, which is removed;
/// the piece after the pattern comes first, as the legacy callers expect.
pub fn rsplit_once<'a>(s: &'a str, pattern: &str) -> (r: Option<(&'a str, &'a str)>)
    ensures
        (rfind_sub(s@, pattern@) >= 0) == (r is Some),
        r matches Some(ab) ==> (ab.0@ == s@.skip(rfind_sub(s@, pattern@) + pattern@.len())
            && ab.1@ == s@.take(rfind_sub(s@, pattern@))),
{
    let n = s.unicode_len();
    let m = pattern.unicode_len();
    proof {
        lemma_rfind_sub_correct(s@, pattern@);
    }
    if m > n {
        return None;
    }
    let mut i: usize = n - m;
    loop
        invariant
            n == s@.len(),
            m == pattern@.len(),
            m <= n,
            i <= n - m,
            forall|q: int| q > i ==> !occurs_at(s@, pattern@, q),
        decreases i,
    {
        if matches_at(s, n, pattern, m, i) {
            proof {
                lemma_rfind_sub_correct(s@, pattern@);
                assert(rfind_sub(s@, pattern@) == i);
            }
            return Some((s.substring_char(i + m, n), s.substring_char(0, i)));
        }
        if i == 0 {
            proof {
                assert(forall|q: int| !occurs_at(s@, pattern@, q));
                lemma_rfind_sub_correct(s@, pattern@);
            }
            return None;
        }
        i = i - 1;
    }
}

/// The first position of the character `c` in `s`, or -1 when it is absent.
pub open spec fn find_char_at(s: Seq<char>, c: char) -> int
    decreases s.len(),
{
    if s.len() == 0 {
        -1
    } else if s[0] == c {
        0
    } else {
        let r = find_char_at(s.drop_first(), c);
        if r < 0 {
            -1
        } else {
            1 + r
        }
    }
}

/// `find_char_at` names the first occurrence of the character.
pub proof fn lemma_find_char_at_correct(s: Seq<char>, c: char)
    ensures
        find_char_at(s, c) == -1 ==> forall|i: int| 0 <= i < s.len() ==> s[i] != c,
        find_char_at(s, c) >= 0 ==> find_char_at(s, c) < s.len() && s[find_char_at(s, c)] == c
            && (forall|i: int| 0 <= i < find_char_at(s, c) ==> s[i] != c),
    decreases s.len(),
{
    if s.len() == 0 {
    } else if s[0] == c {
    } else {
        lemma_find_char_at_correct(s.drop_first(), c);
        assert(forall|i: int| 1 <= i < s.len() ==> s[i] == s.drop_first()[i - 1]);
    }
}

/// Finds the first occurrence of the character `c` in `s`.
pub fn find_char(s: &str, c: char) -> (r: Option<usize>)
    ensures
        r matches Some(i) ==> i == find_char_at(s@, c),
        r is None ==> find_char_at(s@, c) == -1,
{
    let n = s.unicode_len();
    let mut i: usize = 0;
    while i < n
        invariant
            n == s@.len(),
            i <= n,
            forall|q: int| 0 <= q < i ==> s@[q] != c,
        decreases n - i,
    {
        if s.get_char(i) == c {
            proof {
                lemma_find_char_at_correct(s@, c);
            }
            return Some(i);
        }
        i = i + 1;
    }
    proof {
        lemma_find_char_at_correct(s@, c);
    }
    None
}

/// The number of leading space characters of `s`.
pub open spec fn leading_spaces(s: Seq<char>) -> int
    decreases s.len(),
{
    if s.len() > 0 && s[0] == ' ' {
        1 + leading_spaces(s.drop_first())
    } else {
        0
    }
}

proof fn lemma_leading_spaces_exact(s: Seq<char>, i: int)
    requires
        0 <= i <= s.len(),
        forall|q: int| 0 <= q < i ==> s[q] == ' ',
        i == s.len() || s[i] != ' ',
    ensures
        leading_spaces(s) == i,
    decreases i,
{
    if i == 0 {
    } else {
        assert(s[0] == ' ');
        assert forall|q: int| 0 <= q < i - 1 implies s.drop_first()[q] == ' ' by {
            assert(s.drop_first()[q] == s[q + 1]);
        }
        lemma_leading_spaces_exact(s.drop_first(), i - 1);
    }
}

/// Removes leading space characters, as the device list's column padding asks.
pub fn trim_start_spaces<'a>(s: &'a str) -> (r: &'a str)
    ensures
        r@ == s@.skip(leading_spaces(s@)),
{
    let n = s.unicode_len();
    let mut i: usize = 0;
    while i < n && s.get_char(i) == ' '
        invariant
            n == s@.len(),
            i <= n,
            forall|q: int| 0 <= q < i ==> s@[q] == ' ',
        decreases n - i,
    {
        i = i + 1;
    }
    proof {
        lemma_leading_spaces_exact(s@, i as int);
    }
    s.substring_char(i, n)
}

} // verus!
