//! Character-level helpers: whitespace trimming for secret values read from
//! files, and splitting a mail address at its first `@`.

use vstd::prelude::*;
use vstd::string::StrSliceExecFns;

verus! {

/// The characters that trimming removes (the Unicode `White_Space` set).
pub open spec fn is_space(c: char) -> bool {
    c == ' ' || c == '\t' || c == '\n' || c == '\u{0B}' || c == '\u{0C}' || c == '\r'
        || c == '\u{85}' || c == '\u{A0}' || c == '\u{1680}'
        || ('\u{2000}' <= c && c <= '\u{200A}')
        || c == '\u{2028}' || c == '\u{2029}' || c == '\u{202F}' || c == '\u{205F}'
        || c == '\u{3000}'
}

/// Executable twin of [`is_space`].
pub fn space(c: char) -> (b: bool)
    ensures
        b == is_space(c),
{
    c == ' ' || c == '\t' || c == '\n' || c == '\u{0B}' || c == '\u{0C}' || c == '\r'
        || c == '\u{85}' || c == '\u{A0}' || c == '\u{1680}'
        || ('\u{2000}' <= c && c <= '\u{200A}')
        || c == '\u{2028}' || c == '\u{2029}' || c == '\u{202F}' || c == '\u{205F}'
        || c == '\u{3000}'
}

/// `s` without its leading whitespace.
pub open spec fn trim_start_of(s: Seq<char>) -> Seq<char>
    decreases s.len(),
{
    if s.len() > 0 && is_space(s[0]) {
        trim_start_of(s.skip(1))
    } else {
        s
    }
}

/// `s` without its trailing whitespace.
pub open spec fn trim_end_of(s: Seq<char>) -> Seq<char>
    decreases s.len(),
{
    if s.len() > 0 && is_space(s.last()) {
        trim_end_of(s.drop_last())
    } else {
        s
    }
}

/// `s` without leading and trailing whitespace.
pub open spec fn trim_of(s: Seq<char>) -> Seq<char> {
    trim_end_of(trim_start_of(s))
}

/// Copy of `s` with leading and trailing whitespace removed.
pub fn trim(s: &str) -> (r: String)
    ensures
        r@ == trim_of(s@),
{
    let n: usize = s.unicode_len();
    let mut a: usize = 0;
    proof {
        assert(s@.skip(0) =~= s@);
    }
    while a < n && space(s.get_char(a))
        invariant
            n == s@.len(),
            a <= n,
            trim_start_of(s@) == trim_start_of(s@.skip(a as int)),
        decreases n - a,
    {
        proof {
            assert(s@.skip(a as int).len() > 0);
            assert(s@.skip(a as int)[0] == s@[a as int]);
            assert(s@.skip(a as int).skip(1) =~= s@.skip(a as int + 1));
        }
        a = a + 1;
    }
    proof {
        // The loop stopped at the first non-space character (or the end), so
        // nothing more is trimmed from the front.
        if a < n {
            assert(s@.skip(a as int)[0] == s@[a as int]);
        }
        assert(trim_start_of(s@.skip(a as int)) == s@.skip(a as int));
    }
    let ghost t: Seq<char> = s@.skip(a as int);
    let mut b: usize = n;
    proof {
        assert(t.take(n - a) =~= t);
    }
    while b > a && space(s.get_char(b - 1))
        invariant
            n == s@.len(),
            a <= b <= n,
            t == s@.skip(a as int),
            trim_end_of(t) == trim_end_of(t.take(b - a)),
        decreases b,
    {
        proof {
            let m = t.take(b - a);
            assert(m.len() > 0);
            assert(m.last() == s@[b - 1]);
            assert(m.drop_last() =~= t.take(b - 1 - a));
        }
        b = b - 1;
    }
    proof {
        let m = t.take(b - a);
        if b > a {
            assert(m.last() == s@[b - 1]);
        }
        assert(trim_end_of(t.take(b - a)) == t.take(b - a));
        assert(t.take(b - a) =~= s@.subrange(a as int, b as int));
    }
    let piece: &str = s.substring_char(a, b);
    piece.to_owned()
}

/// Position of the first occurrence of `c` in `s`.
pub open spec fn find_char(s: Seq<char>, c: char) -> Option<int>
    decreases s.len(),
{
    if s.len() == 0 {
        None
    } else if s[0] == c {
        Some(0int)
    } else {
        match find_char(s.skip(1), c) {
            None => None,
            Some(i) => Some(i + 1),
        }
    }
}

/// [`find_char`] returns the first occurrence and `None` exactly when `c`
/// does not occur.
pub proof fn lemma_find_char(s: Seq<char>, c: char)
    ensures
        match find_char(s, c) {
            Some(i) => 0 <= i < s.len() && s[i] == c && forall|j: int| 0 <= j < i ==> s[j] != c,
            None => forall|j: int| 0 <= j < s.len() ==> s[j] != c,
        },
    decreases s.len(),
{
    if s.len() == 0 {
    } else if s[0] == c {
    } else {
        lemma_find_char(s.skip(1), c);
        match find_char(s.skip(1), c) {
            None => {
                assert forall|j: int| 0 <= j < s.len() implies s[j] != c by {
                    if j > 0 {
                        assert(s.skip(1)[j - 1] == s[j]);
                    }
                }
            },
            Some(i) => {
                assert(s.skip(1)[i] == s[i + 1]);
                assert forall|j: int| 0 <= j < i + 1 implies s[j] != c by {
                    if j > 0 {
                        assert(s.skip(1)[j - 1] == s[j]);
                    }
                }
            },
        }
    }
}

/// The part of `s` after its first `@`; meaningful only when `s` has one.
pub open spec fn domain_of(s: Seq<char>) -> Seq<char> {
    match find_char(s, '@') {
        Some(i) => s.subrange(i + 1, s.len() as int),
        None => s,
    }
}

/// The domain part of `addr`: what follows the first `@`, or `None` when the
/// address has no `@` at all.
pub fn domain_part(addr: &String) -> (r: Option<String>)
    ensures
        match r {
            Some(d) => find_char(addr@, '@') is Some && d@ == domain_of(addr@),
            None => find_char(addr@, '@') is None,
        },
{
    let s: &str = addr.as_str();
    let n: usize = s.unicode_len();
    let mut i: usize = 0;
    while i < n && s.get_char(i) != '@'
        invariant
            n == s@.len(),
            i <= n,
            forall|j: int| 0 <= j < i ==> s@[j] != '@',
        decreases n - i,
    {
        i = i + 1;
    }
    proof {
        lemma_find_char(addr@, '@');
    }
    if i == n {
        None
    } else {
        let piece: &str = s.substring_char(i + 1, n);
        Some(piece.to_owned())
    }
}

} // verus!
