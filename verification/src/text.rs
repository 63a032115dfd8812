//! Character-level string utilities shared by the crawler core: exact
//! equality, case-insensitive comparison, searching, and decimal rendering.

use vstd::prelude::*;
use vstd::string::StrSliceExecFns;
use vstd::string::StringExecFns;

verus! {

/// ASCII lowercasing of a single character; everything outside `A`..`Z`
/// is left unchanged.
pub open spec fn lower_char(c: char) -> char {
    if 'A' <= c && c <= 'Z' {
        ((c as u8) + 32) as char
    } else {
        c
    }
}

/// ASCII lowercasing of a character sequence.
pub open spec fn lower_seq(s: Seq<char>) -> Seq<char> {
    Seq::new(s.len(), |i: int| lower_char(s[i]))
}

/// The decimal digit character for `d` (meaningful for `0 <= d <= 9`).
pub open spec fn digit_char(d: int) -> char {
    ((48 + d) as u8) as char
}

/// The decimal rendering of `n`, most significant digit first.
pub open spec fn dec_seq(n: nat) -> Seq<char>
    decreases n,
{
    if n < 10 {
        seq![digit_char(n as int)]
    } else {
        dec_seq(n / 10).push(digit_char((n % 10) as int))
    }
}

/// True when `hay` contains `needle` as a contiguous subsequence.
pub open spec fn contains_seq(hay: Seq<char>, needle: Seq<char>) -> bool {
    exists|i: int|
        0 <= i && i + needle.len() <= hay.len() && #[trigger] hay.subrange(i, i + needle.len())
            == needle
}

pub fn str_eq(a: &str, b: &str) -> (r: bool)
    ensures
        r == (a@ == b@),
{
    let n = a.unicode_len();
    if n != b.unicode_len() {
        return false;
    }
    let mut i: usize = 0;
    while i < n
        invariant
            0 <= i <= n,
            n == a@.len(),
            n == b@.len(),
            forall|j: int| 0 <= j < i ==> a@[j] == b@[j],
        decreases n - i,
    {
        if a.get_char(i) != b.get_char(i) {
            return false;
        }
        i = i + 1;
    }
    proof {
        assert(a@ =~= b@);
    }
    true
}

pub fn string_eq(a: &String, b: &String) -> (r: bool)
    ensures
        r == (a@ == b@),
{
    a.eq(b)
}

pub fn eq_ignore_case(a: &str, b: &str) -> (r: bool)
    ensures
        r == (lower_seq(a@) == lower_seq(b@)),
{
    let n = a.unicode_len();
    if n != b.unicode_len() {
        assert(lower_seq(a@).len() != lower_seq(b@).len());
        return false;
    }
    let mut i: usize = 0;
    while i < n
        invariant
            0 <= i <= n,
            n == a@.len(),
            n == b@.len(),
            forall|j: int| 0 <= j < i ==> lower_char(a@[j]) == lower_char(b@[j]),
        decreases n - i,
    {
        let ca = lower_char_exec(a.get_char(i));
        let cb = lower_char_exec(b.get_char(i));
        if ca != cb {
            assert(lower_seq(a@)[i as int] != lower_seq(b@)[i as int]);
            return false;
        }
        i = i + 1;
    }
    proof {
        assert(lower_seq(a@) =~= lower_seq(b@));
    }
    true
}

pub fn lower_char_exec(c: char) -> (r: char)
    ensures
        r == lower_char(c),
{
    if 'A' <= c && c <= 'Z' {
        ((c as u8) + 32) as char
    } else {
        c
    }
}

pub fn starts_with(s: &str, prefix: &str) -> (r: bool)
    ensures
        r == (s@.len() >= prefix@.len() && s@.subrange(0, prefix@.len() as int) == prefix@),
{
    let n = prefix.unicode_len();
    if s.unicode_len() < n {
        return false;
    }
    let mut i: usize = 0;
    while i < n
        invariant
            0 <= i <= n,
            n == prefix@.len(),
            s@.len() >= n,
            forall|j: int| 0 <= j < i ==> s@[j] == prefix@[j],
        decreases n - i,
    {
        if s.get_char(i) != prefix.get_char(i) {
            assert(s@.subrange(0, n as int)[i as int] != prefix@[i as int]);
            return false;
        }
        i = i + 1;
    }
    proof {
        assert(s@.subrange(0, n as int) =~= prefix@);
    }
    true
}

/// The length of the longest prefix of `s` free of `c`; equivalently the
/// index of the first occurrence of `c`, or `s.len()` when there is none.
pub open spec fn prefix_len_until(s: Seq<char>, c: char) -> int
    decreases s.len(),
{
    if s.len() == 0 {
        0
    } else if s[0] == c {
        0
    } else {
        1 + prefix_len_until(s.skip(1), c)
    }
}

/// A position with no occurrence of `c` before it and `c` at it (or the
/// end of `s`) is exactly the `c`-free prefix length.
pub proof fn lemma_prefix_len_until_unique(s: Seq<char>, c: char, k: int)
    requires
        0 <= k <= s.len(),
        forall|j: int| 0 <= j < k ==> s[j] != c,
        k < s.len() ==> s[k] == c,
    ensures
        prefix_len_until(s, c) == k,
    decreases s.len(),
{
    if s.len() == 0 {
    } else if k == 0 {
    } else {
        assert(s[0] != c);
        assert forall|j: int| 0 <= j < k - 1 implies s.skip(1)[j] != c by {
            assert(s.skip(1)[j] == s[j + 1]);
        }
        lemma_prefix_len_until_unique(s.skip(1), c, k - 1);
    }
}

/// The position of the first occurrence of `x` in `s`; `s.len()` when
/// there is none.
pub open spec fn spec_index_of(s: Seq<Seq<char>>, x: Seq<char>) -> int
    decreases s.len(),
{
    if s.len() == 0 {
        0
    } else if s[0] == x {
        0
    } else {
        1 + spec_index_of(s.skip(1), x)
    }
}

pub proof fn lemma_index_of(s: Seq<Seq<char>>, x: Seq<char>)
    ensures
        0 <= spec_index_of(s, x) <= s.len(),
        forall|j: int| 0 <= j < spec_index_of(s, x) ==> s[j] != x,
        spec_index_of(s, x) < s.len() ==> s[spec_index_of(s, x)] == x,
    decreases s.len(),
{
    if s.len() == 0 {
    } else if s[0] == x {
    } else {
        lemma_index_of(s.skip(1), x);
        assert forall|j: int| 0 <= j < spec_index_of(s, x) implies s[j] != x by {
            if j > 0 {
                assert(s.skip(1)[j - 1] != x);
            }
        }
    }
}

pub proof fn lemma_index_of_unique(s: Seq<Seq<char>>, x: Seq<char>, k: int)
    requires
        0 <= k <= s.len(),
        forall|j: int| 0 <= j < k ==> s[j] != x,
        k < s.len() ==> s[k] == x,
    ensures
        spec_index_of(s, x) == k,
    decreases s.len(),
{
    if s.len() == 0 {
    } else if k == 0 {
    } else {
        assert(s[0] != x);
        assert forall|j: int| 0 <= j < k - 1 implies s.skip(1)[j] != x by {
            assert(s.skip(1)[j] == s[j + 1]);
        }
        lemma_index_of_unique(s.skip(1), x, k - 1);
    }
}

/// ASCII whitespace, the characters the parser trims.
pub open spec fn is_space(c: char) -> bool {
    c == ' ' || c == '\t' || c == '\n' || c == '\r' || c == '\x0c'
}

pub fn is_space_exec(c: char) -> (r: bool)
    ensures
        r == is_space(c),
{
    c == ' ' || c == '\t' || c == '\n' || c == '\r' || c == '\x0c'
}

/// How many whitespace characters `s` begins with.
pub open spec fn ws_prefix_len(s: Seq<char>) -> int
    decreases s.len(),
{
    if s.len() == 0 {
        0
    } else if !is_space(s[0]) {
        0
    } else {
        1 + ws_prefix_len(s.skip(1))
    }
}

/// How many whitespace characters `s` ends with.
pub open spec fn ws_suffix_len(s: Seq<char>) -> int
    decreases s.len(),
{
    if s.len() == 0 {
        0
    } else if !is_space(s.last()) {
        0
    } else {
        1 + ws_suffix_len(s.drop_last())
    }
}

/// `s` with leading and trailing whitespace dropped.
pub open spec fn spec_trim(s: Seq<char>) -> Seq<char> {
    if ws_prefix_len(s) == s.len() {
        Seq::<char>::empty()
    } else {
        s.subrange(ws_prefix_len(s), s.len() - ws_suffix_len(s))
    }
}

/// A position with only whitespace before it and a non-whitespace character
/// at it (or the end) is exactly the whitespace prefix length.
pub proof fn lemma_ws_prefix_unique(s: Seq<char>, k: int)
    requires
        0 <= k <= s.len(),
        forall|j: int| 0 <= j < k ==> is_space(s[j]),
        k < s.len() ==> !is_space(s[k]),
    ensures
        ws_prefix_len(s) == k,
    decreases s.len(),
{
    if s.len() == 0 {
    } else if k == 0 {
    } else {
        assert(is_space(s[0]));
        assert forall|j: int| 0 <= j < k - 1 implies is_space(s.skip(1)[j]) by {
            assert(s.skip(1)[j] == s[j + 1]);
        }
        lemma_ws_prefix_unique(s.skip(1), k - 1);
    }
}

pub proof fn lemma_ws_suffix_unique(s: Seq<char>, k: int)
    requires
        0 <= k <= s.len(),
        forall|j: int| s.len() - k <= j < s.len() ==> is_space(s[j]),
        k < s.len() ==> !is_space(s[s.len() - k - 1]),
    ensures
        ws_suffix_len(s) == k,
    decreases s.len(),
{
    if s.len() == 0 {
    } else if k == 0 {
    } else {
        assert(is_space(s.last()));
        assert forall|j: int| s.drop_last().len() - (k - 1) <= j < s.drop_last().len() implies
            is_space(s.drop_last()[j]) by {
            assert(s.drop_last()[j] == s[j]);
        }
        lemma_ws_suffix_unique(s.drop_last(), k - 1);
    }
}

/// The bounds of `s` with surrounding whitespace dropped:
/// `s@.subrange(r.0, r.1)` is the trimmed text.
pub fn trim_bounds(s: &str) -> (r: (usize, usize))
    ensures
        r.0 <= r.1 <= s@.len(),
        s@.subrange(r.0 as int, r.1 as int) == spec_trim(s@),
{
    let n = s.unicode_len();
    let mut a: usize = 0;
    while a < n && is_space_exec(s.get_char(a))
        invariant
            0 <= a <= n,
            n == s@.len(),
            forall|j: int| 0 <= j < a ==> is_space(s@[j]),
        decreases n - a,
    {
        a = a + 1;
    }
    proof {
        lemma_ws_prefix_unique(s@, a as int);
    }
    if a == n {
        proof {
            assert(s@.subrange(a as int, a as int) =~= spec_trim(s@));
        }
        return (a, a);
    }
    let mut b: usize = n;
    while b > a && is_space_exec(s.get_char(b - 1))
        invariant
            a < b <= n,
            n == s@.len(),
            a < n,
            !is_space(s@[a as int]),
            forall|j: int| b <= j < n ==> is_space(s@[j]),
        decreases b,
    {
        b = b - 1;
    }
    proof {
        assert(b > a);
        lemma_ws_suffix_unique(s@, n - b);
        assert(s@.subrange(a as int, b as int) =~= spec_trim(s@));
    }
    (a, b)
}

pub fn find_char(s: &str, c: char) -> (r: Option<usize>)
    ensures
        match r {
            Some(i) => 0 <= i < s@.len() && s@[i as int] == c && (forall|j: int|
                0 <= j < i ==> s@[j] != c),
            None => forall|j: int| 0 <= j < s@.len() ==> s@[j] != c,
        },
{
    let n = s.unicode_len();
    let mut i: usize = 0;
    while i < n
        invariant
            0 <= i <= n,
            n == s@.len(),
            forall|j: int| 0 <= j < i ==> s@[j] != c,
        decreases n - i,
    {
        if s.get_char(i) == c {
            return Some(i);
        }
        i = i + 1;
    }
    None
}

/// True when `needle`, lowercased, occurs in `hay` at offset `i`.
fn matches_at(hay: &str, needle: &str, i: usize) -> (r: bool)
    requires
        i + needle@.len() <= hay@.len(),
    ensures
        r == (lower_seq(hay@).subrange(i as int, i + needle@.len()) == lower_seq(needle@)),
{
    let hn = hay.unicode_len();
    let nn = needle.unicode_len();
    let mut j: usize = 0;
    while j < nn
        invariant
            0 <= j <= nn,
            i + nn <= hn,
            hn == hay@.len(),
            nn == needle@.len(),
            forall|t: int| 0 <= t < j ==> lower_char(hay@[i + t]) == lower_char(needle@[t]),
        decreases nn - j,
    {
        let ca = lower_char_exec(hay.get_char(i + j));
        let cb = lower_char_exec(needle.get_char(j));
        if ca != cb {
            assert(lower_seq(hay@).subrange(i as int, i + nn as int)[j as int] != lower_seq(
                needle@,
            )[j as int]);
            return false;
        }
        j = j + 1;
    }
    proof {
        assert(lower_seq(hay@).subrange(i as int, i + nn as int) =~= lower_seq(needle@));
    }
    true
}

/// The first occurrence of `c` in `s` at or after position `from`.
pub fn find_char_from(s: &str, c: char, from: usize) -> (r: Option<usize>)
    requires
        from <= s@.len(),
    ensures
        match r {
            Some(i) => from <= i < s@.len() && s@[i as int] == c && (forall|j: int|
                from <= j < i ==> s@[j] != c),
            None => forall|j: int| from <= j < s@.len() ==> s@[j] != c,
        },
{
    let n = s.unicode_len();
    let mut i: usize = from;
    while i < n
        invariant
            from <= i <= n,
            n == s@.len(),
            forall|j: int| from <= j < i ==> s@[j] != c,
        decreases n - i,
    {
        if s.get_char(i) == c {
            return Some(i);
        }
        i = i + 1;
    }
    None
}

/// Case-insensitive substring search, used for content-type sniffing.
pub fn contains_ignore_case(hay: &str, needle: &str) -> (r: bool)
    ensures
        r == contains_seq(lower_seq(hay@), lower_seq(needle@)),
{
    let hn = hay.unicode_len();
    let nn = needle.unicode_len();
    if nn > hn {
        return false;
    }
    if nn == 0 {
        proof {
            assert(lower_seq(hay@).subrange(0, 0 + lower_seq(needle@).len() as int) =~= lower_seq(
                needle@,
            ));
        }
        return true;
    }
    let mut i: usize = 0;
    while i <= hn - nn
        invariant
            0 <= i <= hn - nn + 1,
            1 <= nn <= hn,
            hn == hay@.len(),
            nn == needle@.len(),
            forall|k: int|
                0 <= k < i ==> #[trigger] lower_seq(hay@).subrange(k, k + nn as int) != lower_seq(
                    needle@,
                ),
        decreases hn - i,
    {
        if matches_at(hay, needle, i) {
            proof {
                assert(lower_seq(hay@).subrange(i as int, i + lower_seq(needle@).len() as int)
                    == lower_seq(needle@));
            }
            return true;
        }
        i = i + 1;
    }
    false
}

/// The characters of `s` as a vector.
pub fn to_chars(s: &str) -> (r: Vec<char>)
    ensures
        r@ == s@,
{
    let n = s.unicode_len();
    let mut r: Vec<char> = Vec::new();
    let mut i: usize = 0;
    while i < n
        invariant
            0 <= i <= n,
            n == s@.len(),
            r@ =~= s@.subrange(0, i as int),
        decreases n - i,
    {
        r.push(s.get_char(i));
        i = i + 1;
    }
    proof {
        assert(r@ =~= s@);
    }
    r
}

/// Renders `n` in decimal.
pub fn u64_to_string(n: u64) -> (r: String)
    ensures
        r@ == dec_seq(n as nat),
    decreases n,
{
    let digits = "0123456789";
    proof {
        reveal_strlit("0123456789");
    }
    if n < 10 {
        let m = n as usize;
        let d = digits.substring_char(m, m + 1);
        proof {
            assert(d@ =~= seq![digit_char(n as int)]);
        }
        d.to_owned()
    } else {
        let mut prefix = u64_to_string(n / 10);
        let m = (n % 10) as usize;
        let d = digits.substring_char(m, m + 1);
        proof {
            assert(d@ =~= seq![digit_char((n % 10) as int)]);
        }
        prefix.append(d);
        prefix
    }
}

} // verus!
