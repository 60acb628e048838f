//! Verified text utilities: whitespace trimming, string equality and
//! code-point-wise lexicographic comparison, all specified over `Seq<char>`
//! views.

use vstd::prelude::*;

verus! {

/// The white-space characters that trimming removes (the Unicode
/// `White_Space` set).
pub open spec fn is_space_char(c: char) -> bool {
    let u = c as u32;
    u == 0x20 || (0x09 <= u && u <= 0x0d) || u == 0x85 || u == 0xa0 || u == 0x1680 || (0x2000 <= u
        && u <= 0x200a) || u == 0x2028 || u == 0x2029 || u == 0x202f || u == 0x205f || u == 0x3000
}

/// Whether `c` is white space.
pub fn is_space(c: char) -> (b: bool)
    ensures
        b == is_space_char(c),
{
    let u = c as u32;
    u == 0x20 || (0x09 <= u && u <= 0x0d) || u == 0x85 || u == 0xa0 || u == 0x1680 || (0x2000 <= u
        && u <= 0x200a) || u == 0x2028 || u == 0x2029 || u == 0x202f || u == 0x205f || u == 0x3000
}

/// The index of the first non-space character at or after `i`, or the
/// length when only spaces follow.
pub open spec fn first_non_space_from(s: Seq<char>, i: int) -> int
    decreases s.len() - i,
{
    if i < 0 {
        0
    } else if i >= s.len() {
        s.len() as int
    } else if is_space_char(s[i]) {
        first_non_space_from(s, i + 1)
    } else {
        i
    }
}

/// The index one past the last non-space character strictly below `j`, or
/// zero when only spaces precede.
pub open spec fn trim_end_idx(s: Seq<char>, j: int) -> int
    decreases j,
{
    if j <= 0 {
        0
    } else if is_space_char(s[j - 1]) {
        trim_end_idx(s, j - 1)
    } else {
        j
    }
}

/// `s` with leading and trailing white space removed.
pub open spec fn trim_spec(s: Seq<char>) -> Seq<char> {
    let a = first_non_space_from(s, 0);
    let b = trim_end_idx(s, s.len() as int);
    if b <= a {
        Seq::empty()
    } else {
        s.subrange(a, b)
    }
}

/// A name counts as blank when nothing but white space remains.
pub open spec fn is_blank(s: Seq<char>) -> bool {
    trim_spec(s).len() == 0
}

pub proof fn lemma_first_non_space_bounds(s: Seq<char>, i: int)
    requires
        0 <= i <= s.len(),
    ensures
        i <= first_non_space_from(s, i) <= s.len(),
    decreases s.len() - i,
{
    if i < s.len() && is_space_char(s[i]) {
        lemma_first_non_space_bounds(s, i + 1);
    }
}

pub proof fn lemma_trim_end_bounds(s: Seq<char>, j: int)
    requires
        0 <= j <= s.len(),
    ensures
        0 <= trim_end_idx(s, j) <= j,
    decreases j,
{
    if j > 0 && is_space_char(s[j - 1]) {
        lemma_trim_end_bounds(s, j - 1);
    }
}

/// Removes leading and trailing white space.
pub fn trim_str(s: &str) -> (r: String)
    ensures
        r@ == trim_spec(s@),
{
    let n = s.unicode_len();
    let mut i: usize = 0;
    while i < n && is_space(s.get_char(i))
        invariant
            0 <= i <= n,
            n == s@.len(),
            first_non_space_from(s@, 0) == first_non_space_from(s@, i as int),
        decreases n - i,
    {
        assert(first_non_space_from(s@, i as int) == first_non_space_from(s@, i + 1));
        i = i + 1;
    }
    let start = i;
    proof {
        if start == n {
            assert(first_non_space_from(s@, start as int) == n);
        } else {
            assert(first_non_space_from(s@, start as int) == start);
        }
    }
    let mut j: usize = n;
    while j > start && is_space(s.get_char(j - 1))
        invariant
            start <= j <= n,
            n == s@.len(),
            trim_end_idx(s@, n as int) == trim_end_idx(s@, j as int),
        decreases j,
    {
        assert(trim_end_idx(s@, j as int) == trim_end_idx(s@, j - 1));
        j = j - 1;
    }
    if j <= start {
        proof {
            lemma_trim_end_bounds(s@, j as int);
            assert(trim_end_idx(s@, n as int) <= first_non_space_from(s@, 0));
        }
        String::new()
    } else {
        assert(trim_end_idx(s@, j as int) == j);
        let piece = s.substring_char(start, j);
        piece.to_owned()
    }
}

/// Whether two strings hold the same characters.
pub fn str_eq(a: &str, b: &str) -> (r: bool)
    ensures
        r == (a@ == b@),
{
    let n = a.unicode_len();
    let m = b.unicode_len();
    if n != m {
        return false;
    }
    let mut i: usize = 0;
    while i < n
        invariant
            0 <= i <= n,
            n == a@.len(),
            n == b@.len(),
            forall|k: int| 0 <= k < i ==> a@[k] == b@[k],
        decreases n - i,
    {
        if a.get_char(i) != b.get_char(i) {
            return false;
        }
        i = i + 1;
    }
    proof {
        assert(a@ =~= b@);
    }
    true
}

/// Strict lexicographic order on character sequences, by code point.
pub open spec fn lex_lt(a: Seq<char>, b: Seq<char>) -> bool
    decreases a.len(),
{
    if b.len() == 0 {
        false
    } else if a.len() == 0 {
        true
    } else if a[0] < b[0] {
        true
    } else if b[0] < a[0] {
        false
    } else {
        lex_lt(a.subrange(1, a.len() as int), b.subrange(1, b.len() as int))
    }
}

/// Whether `a` orders strictly before `b`, by code point.
pub fn str_lt(a: &str, b: &str) -> (r: bool)
    ensures
        r == lex_lt(a@, b@),
{
    let n = a.unicode_len();
    let m = b.unicode_len();
    let mut i: usize = 0;
    proof {
        assert(a@.subrange(0, n as int) =~= a@);
        assert(b@.subrange(0, m as int) =~= b@);
    }
    loop
        invariant
            0 <= i <= n,
            i <= m,
            n == a@.len(),
            m == b@.len(),
            lex_lt(a@, b@) == lex_lt(a@.subrange(i as int, n as int), b@.subrange(i as int, m as int)),
        decreases n - i,
    {
        proof {
            assert(a@.subrange(i as int, n as int).len() == n - i);
            assert(b@.subrange(i as int, m as int).len() == m - i);
        }
        if i == m {
            return false;
        }
        if i == n {
            return true;
        }
        let ca = a.get_char(i);
        let cb = b.get_char(i);
        proof {
            assert(a@.subrange(i as int, n as int)[0] == a@[i as int]);
            assert(b@.subrange(i as int, m as int)[0] == b@[i as int]);
        }
        if ca < cb {
            return true;
        }
        if cb < ca {
            return false;
        }
        proof {
            assert(a@.subrange(i as int, n as int).subrange(1, (n - i) as int) =~= a@.subrange(
                i + 1,
                n as int,
            ));
            assert(b@.subrange(i as int, m as int).subrange(1, (m - i) as int) =~= b@.subrange(
                i + 1,
                m as int,
            ));
        }
        i = i + 1;
    }
}

/// Distinct sequences order one way or the other.
pub proof fn lemma_lex_lt_total(a: Seq<char>, b: Seq<char>)
    requires
        a != b,
    ensures
        lex_lt(a, b) || lex_lt(b, a),
    decreases a.len(),
{
    if a.len() == 0 && b.len() == 0 {
        assert(a =~= b);
    } else if a.len() > 0 && b.len() > 0 && a[0] == b[0] {
        let a1 = a.subrange(1, a.len() as int);
        let b1 = b.subrange(1, b.len() as int);
        if a1 == b1 {
            assert(a1.len() == b1.len());
            assert forall|k: int| 0 <= k < a.len() implies a[k] == b[k] by {
                if k > 0 {
                    assert(a1[k - 1] == a[k]);
                    assert(b1[k - 1] == b[k]);
                    assert(a1[k - 1] == b1[k - 1]);
                }
            }
            assert(a =~= b);
        }
        lemma_lex_lt_total(a1, b1);
    }
}

/// The order is transitive.
pub proof fn lemma_lex_lt_transitive(a: Seq<char>, b: Seq<char>, c: Seq<char>)
    requires
        lex_lt(a, b),
        lex_lt(b, c),
    ensures
        lex_lt(a, c),
    decreases a.len(),
{
    if a.len() > 0 && b.len() > 0 && c.len() > 0 && a[0] == b[0] && b[0] == c[0] {
        lemma_lex_lt_transitive(
            a.subrange(1, a.len() as int),
            b.subrange(1, b.len() as int),
            c.subrange(1, c.len() as int),
        );
    }
}


/// Scanning from `i`, the first non-space index is at most any later
/// non-space position.
pub proof fn lemma_first_le_nonspace(s: Seq<char>, i: int, k: int)
    requires
        0 <= i <= k < s.len(),
        !is_space_char(s[k]),
    ensures
        first_non_space_from(s, i) <= k,
    decreases s.len() - i,
{
    if i < k && is_space_char(s[i]) {
        lemma_first_le_nonspace(s, i + 1, k);
    }
}

/// Scanning down from `j`, the end of the trimmed range stays above any
/// non-space position below `j`.
pub proof fn lemma_end_gt_nonspace(s: Seq<char>, j: int, k: int)
    requires
        0 <= k < j <= s.len(),
        !is_space_char(s[k]),
    ensures
        trim_end_idx(s, j) >= k + 1,
    decreases j,
{
    if j > k + 1 && is_space_char(s[j - 1]) {
        lemma_end_gt_nonspace(s, j - 1, k);
    }
}

/// Only spaces at and after `i` scan through to the end.
pub proof fn lemma_first_all_spaces(s: Seq<char>, i: int)
    requires
        0 <= i <= s.len(),
        forall|k: int| i <= k < s.len() ==> is_space_char(s[k]),
    ensures
        first_non_space_from(s, i) == s.len(),
    decreases s.len() - i,
{
    if i < s.len() {
        lemma_first_all_spaces(s, i + 1);
    }
}

/// A string is blank exactly when every character is white space.
pub proof fn lemma_blank_iff(s: Seq<char>)
    ensures
        is_blank(s) <==> (forall|k: int| 0 <= k < s.len() ==> is_space_char(s[k])),
{
    if forall|k: int| 0 <= k < s.len() ==> is_space_char(s[k]) {
        lemma_first_all_spaces(s, 0);
        lemma_trim_end_bounds(s, s.len() as int);
        assert(trim_spec(s) =~= Seq::empty());
    } else {
        let k = choose|k: int| 0 <= k < s.len() && !is_space_char(s[k]);
        lemma_first_non_space_bounds(s, 0);
        lemma_trim_end_bounds(s, s.len() as int);
        lemma_first_le_nonspace(s, 0, k);
        lemma_end_gt_nonspace(s, s.len() as int, k);
        assert(trim_spec(s).len() > 0);
    }
}

/// Whether nothing but white space remains after trimming.
pub fn is_blank_str(s: &str) -> (b: bool)
    ensures
        b == is_blank(s@),
{
    let n = s.unicode_len();
    let mut i: usize = 0;
    while i < n
        invariant
            0 <= i <= n,
            n == s@.len(),
            forall|k: int| 0 <= k < i ==> is_space_char(s@[k]),
        decreases n - i,
    {
        if !is_space(s.get_char(i)) {
            proof {
                lemma_blank_iff(s@);
            }
            return false;
        }
        i = i + 1;
    }
    proof {
        lemma_blank_iff(s@);
    }
    true
}

} // verus!
