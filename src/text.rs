//! Character-level helpers on strings, with their mathematical models.
use vstd::prelude::*;

verus! {

/// Position of the first `c` in `s` at or after `from`, or -1.
pub open spec fn find_first(s: Seq<char>, c: char, from: int) -> int
    decreases s.len() - from,
{
    if from < 0 || from >= s.len() {
        -1
    } else if s[from] == c {
        from
    } else {
        find_first(s, c, from + 1)
    }
}

/// Position of the last `c` in `s` before `to`, or -1.
pub open spec fn find_last(s: Seq<char>, c: char, to: int) -> int
    decreases to,
{
    if to <= 0 || to > s.len() {
        -1
    } else if s[to - 1] == c {
        to - 1
    } else {
        find_last(s, c, to - 1)
    }
}

/// `find_first` lands on the first `c` after a stretch without one.
pub proof fn lemma_find_first_at(s: Seq<char>, c: char, from: int, k: int)
    requires
        0 <= from <= k < s.len(),
        s[k] == c,
        forall|j: int| from <= j < k ==> s[j] != c,
    ensures
        find_first(s, c, from) == k,
    decreases k - from,
{
    if from < k {
        lemma_find_first_at(s, c, from + 1, k);
    }
}

/// `find_first` reports -1 when no `c` follows `from`.
pub proof fn lemma_find_first_none(s: Seq<char>, c: char, from: int)
    requires
        0 <= from <= s.len(),
        forall|j: int| from <= j < s.len() ==> s[j] != c,
    ensures
        find_first(s, c, from) == -1,
    decreases s.len() - from,
{
    if from < s.len() {
        lemma_find_first_none(s, c, from + 1);
    }
}

/// `find_last` lands on the last `c` before a stretch without one.
pub proof fn lemma_find_last_at(s: Seq<char>, c: char, to: int, k: int)
    requires
        0 <= k < to <= s.len(),
        s[k] == c,
        forall|j: int| k < j < to ==> s[j] != c,
    ensures
        find_last(s, c, to) == k,
    decreases to - k,
{
    if k + 1 < to {
        lemma_find_last_at(s, c, to - 1, k);
    }
}

/// `find_last` reports -1 when no `c` precedes `to`.
pub proof fn lemma_find_last_none(s: Seq<char>, c: char, to: int)
    requires
        0 <= to <= s.len(),
        forall|j: int| 0 <= j < to ==> s[j] != c,
    ensures
        find_last(s, c, to) == -1,
    decreases to,
{
    if to > 0 {
        lemma_find_last_none(s, c, to - 1);
    }
}

/// An owned copy of `s`.
pub fn text_of(s: &str) -> (r: String)
    ensures
        r@ == s@,
{
    String::from_str(s)
}

/// Index of the first `c` in `s`, if any.
pub fn index_of_first(s: &str, c: char) -> (r: Option<usize>)
    ensures
        match r {
            Some(i) => find_first(s@, c, 0) == i as int && i < s@.len() && s@[i as int] == c,
            None => find_first(s@, c, 0) == -1,
        },
{
    let n = s.unicode_len();
    let mut i: usize = 0;
    while i < n
        invariant
            n == s@.len(),
            i <= n,
            forall|j: int| 0 <= j < i ==> s@[j] != c,
        decreases n - i,
    {
        if s.get_char(i) == c {
            proof {
                lemma_find_first_at(s@, c, 0, i as int);
            }
            return Some(i);
        }
        i = i + 1;
    }
    proof {
        lemma_find_first_none(s@, c, 0);
    }
    None
}

/// Index of the last `c` in `s`, if any.
pub fn index_of_last(s: &str, c: char) -> (r: Option<usize>)
    ensures
        match r {
            Some(i) => find_last(s@, c, s@.len() as int) == i as int && i < s@.len() && s@[i as int]
                == c,
            None => find_last(s@, c, s@.len() as int) == -1,
        },
{
    let n = s.unicode_len();
    let mut i: usize = n;
    while i > 0
        invariant
            n == s@.len(),
            i <= n,
            forall|j: int| i <= j < n ==> s@[j] != c,
        decreases i,
    {
        if s.get_char(i - 1) == c {
            proof {
                lemma_find_last_at(s@, c, n as int, i - 1);
            }
            return Some(i - 1);
        }
        i = i - 1;
    }
    proof {
        lemma_find_last_none(s@, c, n as int);
    }
    None
}

/// Whether `s` holds the character `c`.
pub fn has_char(s: &str, c: char) -> (r: bool)
    ensures
        r == s@.contains(c),
{
    let n = s.unicode_len();
    let mut i: usize = 0;
    while i < n
        invariant
            n == s@.len(),
            i <= n,
            forall|j: int| 0 <= j < i ==> s@[j] != c,
        decreases n - i,
    {
        if s.get_char(i) == c {
            return true;
        }
        i = i + 1;
    }
    false
}

/// Character-wise equality of two strings.
pub fn same_text(a: &str, b: &str) -> (r: bool)
    ensures
        r == (a@ == b@),
{
    let n = a.unicode_len();
    let m = b.unicode_len();
    if n != m {
        return false;
    }
    let mut i: usize = 0;
    while i < n
        invariant
            n == a@.len(),
            m == b@.len(),
            n == m,
            i <= n,
            forall|j: int| 0 <= j < i ==> a@[j] == b@[j],
        decreases n - i,
    {
        if a.get_char(i) != b.get_char(i) {
            return false;
        }
        i = i + 1;
    }
    assert(a@ =~= b@);
    true
}

/// Whether `s` begins with `prefix`.
pub fn begins_with(s: &str, prefix: &str) -> (r: bool)
    ensures
        r == (prefix@.len() <= s@.len() && s@.take(prefix@.len() as int) == prefix@),
{
    let n = s.unicode_len();
    let m = prefix.unicode_len();
    if m > n {
        return false;
    }
    let mut i: usize = 0;
    while i < m
        invariant
            n == s@.len(),
            m == prefix@.len(),
            m <= n,
            i <= m,
            forall|j: int| 0 <= j < i ==> s@[j] == prefix@[j],
        decreases m - i,
    {
        if s.get_char(i) != prefix.get_char(i) {
            assert(s@.take(m as int)[i as int] != prefix@[i as int]);
            return false;
        }
        i = i + 1;
    }
    assert(s@.take(m as int) =~= prefix@);
    true
}

} // verus!
