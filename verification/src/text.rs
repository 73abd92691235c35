//! Scanning of text: finding a character, splitting at it, skipping
//! whitespace, comparing.

use vstd::prelude::*;
use vstd::string::StrSliceExecFns;
use vstd::string::StringSliceAdditionalSpecFns;

verus! {

/// The position of the first `c` in `s`, or the length of `s` when it
/// holds none.
pub open spec fn first_index_of(s: Seq<char>, c: char) -> int
    decreases s.len(),
{
    if s.len() == 0 || s[0] == c {
        0
    } else {
        1 + first_index_of(s.skip(1), c)
    }
}

/// What stands before the first `c` in `s`: all of `s` when it holds none.
pub open spec fn before_first(s: Seq<char>, c: char) -> Seq<char> {
    s.take(first_index_of(s, c))
}

/// What stands behind the first `c` in `s`: nothing when it holds none.
pub open spec fn after_first(s: Seq<char>, c: char) -> Seq<char> {
    if first_index_of(s, c) < s.len() {
        s.skip(first_index_of(s, c) + 1)
    } else {
        Seq::empty()
    }
}

/// The characters that Unicode counts as white space.
pub open spec fn is_whitespace(c: char) -> bool {
    let code = c as u32;
    ||| 0x09 <= code <= 0x0D
    ||| code == 0x20
    ||| code == 0x85
    ||| code == 0xA0
    ||| code == 0x1680
    ||| 0x2000 <= code <= 0x200A
    ||| code == 0x2028
    ||| code == 0x2029
    ||| code == 0x202F
    ||| code == 0x205F
    ||| code == 0x3000
}

/// The number of whitespace characters at the start of `s`.
pub open spec fn leading_whitespace(s: Seq<char>) -> int
    decreases s.len(),
{
    if s.len() > 0 && is_whitespace(s[0]) {
        1 + leading_whitespace(s.skip(1))
    } else {
        0
    }
}

/// `s` without the whitespace at its start.
pub open spec fn trimmed_start(s: Seq<char>) -> Seq<char> {
    s.skip(leading_whitespace(s))
}

/// The first `c` of `s` is at `i` when no `c` stands before `i` and `i` is
/// the end of `s` or holds one.
pub proof fn lemma_first_index_of(s: Seq<char>, c: char, i: int)
    requires
        0 <= i <= s.len(),
        forall|j: int| 0 <= j < i ==> s[j] != c,
        i < s.len() ==> s[i] == c,
    ensures
        first_index_of(s, c) == i,
    decreases s.len(),
{
    if s.len() == 0 || s[0] == c {
    } else {
        let rest = s.skip(1);
        assert forall|j: int| 0 <= j < i - 1 implies rest[j] != c by {
            assert(rest[j] == s[j + 1]);
        }
        lemma_first_index_of(rest, c, i - 1);
    }
}

/// The first `c` of `s` lies in `s` or at its end, and nothing before it
/// is a `c`.
pub proof fn lemma_first_index_of_bounds(s: Seq<char>, c: char)
    ensures
        0 <= first_index_of(s, c) <= s.len(),
        first_index_of(s, c) < s.len() ==> s[first_index_of(s, c)] == c,
        forall|j: int| 0 <= j < first_index_of(s, c) ==> s[j] != c,
    decreases s.len(),
{
    if s.len() == 0 || s[0] == c {
    } else {
        let rest = s.skip(1);
        lemma_first_index_of_bounds(rest, c);
        assert forall|j: int| 0 <= j < first_index_of(s, c) implies s[j] != c by {
            if j > 0 {
                assert(rest[j - 1] == s[j]);
            }
        }
    }
}

/// `s` starts with `n` whitespace characters when the first `n` are
/// whitespace and the next one, if there is one, is not.
pub proof fn lemma_leading_whitespace(s: Seq<char>, n: int)
    requires
        0 <= n <= s.len(),
        forall|j: int| 0 <= j < n ==> is_whitespace(s[j]),
        n < s.len() ==> !is_whitespace(s[n]),
    ensures
        leading_whitespace(s) == n,
    decreases s.len(),
{
    if s.len() > 0 && is_whitespace(s[0]) {
        let rest = s.skip(1);
        assert forall|j: int| 0 <= j < n - 1 implies is_whitespace(rest[j]) by {
            assert(rest[j] == s[j + 1]);
        }
        lemma_leading_whitespace(rest, n - 1);
    }
}

/// The whitespace at the start of `s` is no longer than `s`.
pub proof fn lemma_leading_whitespace_bounds(s: Seq<char>)
    ensures
        0 <= leading_whitespace(s) <= s.len(),
    decreases s.len(),
{
    if s.len() > 0 && is_whitespace(s[0]) {
        lemma_leading_whitespace_bounds(s.skip(1));
    }
}

/// Whether Unicode counts `c` as white space.
pub fn char_is_whitespace(c: char) -> (b: bool)
    ensures
        b == is_whitespace(c),
{
    let code: u32 = c as u32;
    (0x09 <= code && code <= 0x0D) || code == 0x20 || code == 0x85 || code == 0xA0 || code
        == 0x1680 || (0x2000 <= code && code <= 0x200A) || code == 0x2028 || code == 0x2029
        || code == 0x202F || code == 0x205F || code == 0x3000
}

/// The position of the first `c` in `s`, counted in characters, or the
/// number of characters of `s` when it holds none.
pub fn find_char(s: &str, c: char) -> (i: usize)
    ensures
        i == first_index_of(s@, c),
        i <= s@.len(),
{
    let len: usize = s.unicode_len();
    let mut i: usize = 0;
    for ch in iter: s.chars()
        invariant
            i == iter.index(),
            iter.seq() == s@,
            len == s@.len(),
            forall|j: int| 0 <= j < i ==> s@[j] != c,
    {
        if ch == c {
            proof {
                lemma_first_index_of(s@, c, i as int);
            }
            return i;
        }
        i += 1;
    }
    proof {
        lemma_first_index_of(s@, c, i as int);
    }
    i
}

/// Splits `s` at its first `c`, which belongs to neither part. `None` when
/// `s` holds no `c`.
pub fn split_at_first<'a>(s: &'a str, c: char) -> (parts: Option<(&'a str, &'a str)>)
    ensures
        parts is Some <==> first_index_of(s@, c) < s@.len(),
        parts matches Some((before, after)) ==> before@ == before_first(s@, c) && after@
            == after_first(s@, c),
{
    let len: usize = s.unicode_len();
    let at: usize = find_char(s, c);
    if at < len {
        Some((s.substring_char(0, at), s.substring_char(at + 1, len)))
    } else {
        None
    }
}

/// `s` without the whitespace at its start.
pub fn trim_start<'a>(s: &'a str) -> (trimmed: &'a str)
    ensures
        trimmed@ == trimmed_start(s@),
{
    let len: usize = s.unicode_len();
    let mut n: usize = 0;
    for ch in iter: s.chars()
        invariant
            n == iter.index(),
            iter.seq() == s@,
            len == s@.len(),
            forall|j: int| 0 <= j < n ==> is_whitespace(s@[j]),
    {
        if !char_is_whitespace(ch) {
            proof {
                lemma_leading_whitespace(s@, n as int);
            }
            return s.substring_char(n, len);
        }
        n += 1;
    }
    proof {
        lemma_leading_whitespace(s@, n as int);
    }
    s.substring_char(n, len)
}

/// Whether two texts hold the same characters.
pub fn str_eq(a: &str, b: &str) -> (same: bool)
    ensures
        same == (a@ == b@),
{
    broadcast use vstd::utf8::encode_utf8_decode_utf8;

    let x = a.as_bytes();
    let y = b.as_bytes();
    if x.len() != y.len() {
        return false;
    }
    let mut i: usize = 0;
    while i < x.len()
        invariant
            i <= x.len(),
            x.len() == y.len(),
            x@ == a.spec_bytes(),
            y@ == b.spec_bytes(),
            forall|j: int| 0 <= j < i ==> x@[j] == y@[j],
        decreases x.len() - i,
    {
        if x[i] != y[i] {
            return false;
        }
        i += 1;
    }
    proof {
        assert(x@ =~= y@);
        assert(vstd::utf8::decode_utf8(vstd::utf8::encode_utf8(a@)) == a@);
        assert(vstd::utf8::decode_utf8(vstd::utf8::encode_utf8(b@)) == b@);
    }
    true
}

} // verus!
