//! Character-level helpers on strings.
use vstd::prelude::*;

verus! {

/// Position of the first `c` in `s`, or the length when there is none.
pub open spec fn char_index(s: Seq<char>, c: char) -> int
    decreases s.len(),
{
    if s.len() == 0 {
        0
    } else if s[0] == c {
        0
    } else {
        1 + char_index(s.drop_first(), c)
    }
}

pub proof fn lemma_char_index_found(s: Seq<char>, c: char, i: int)
    requires
        0 <= i < s.len(),
        s[i] == c,
        forall|j: int| 0 <= j < i ==> #[trigger] s[j] != c,
    ensures
        char_index(s, c) == i,
    decreases i,
{
    if i > 0 {
        assert forall|j: int| 0 <= j < i - 1 implies #[trigger] s.drop_first()[j] != c by {
            assert(s.drop_first()[j] == s[j + 1]);
        }
        lemma_char_index_found(s.drop_first(), c, i - 1);
    }
}

pub proof fn lemma_char_index_absent(s: Seq<char>, c: char)
    requires
        forall|j: int| 0 <= j < s.len() ==> #[trigger] s[j] != c,
    ensures
        char_index(s, c) == s.len(),
    decreases s.len(),
{
    if s.len() > 0 {
        assert forall|j: int| 0 <= j < s.len() - 1 implies #[trigger] s.drop_first()[j] != c by {
            assert(s.drop_first()[j] == s[j + 1]);
        }
        lemma_char_index_absent(s.drop_first(), c);
    }
}

pub proof fn lemma_char_index_bounds(s: Seq<char>, c: char)
    ensures
        0 <= char_index(s, c) <= s.len(),
        char_index(s, c) < s.len() ==> s[char_index(s, c)] == c,
        forall|j: int| 0 <= j < char_index(s, c) ==> #[trigger] s[j] != c,
    decreases s.len(),
{
    if s.len() > 0 {
        lemma_char_index_bounds(s.drop_first(), c);
        assert forall|j: int| 0 <= j < char_index(s, c) implies #[trigger] s[j] != c by {
            if j > 0 {
                assert(s[j] == s.drop_first()[j - 1]);
            }
        }
        let i = char_index(s, c);
        if 0 < i < s.len() {
            assert(s[i] == s.drop_first()[i - 1]);
        }
    }
}

/// The position of the first `c` in `s`, or its length.
pub fn find_char(s: &str, c: char) -> (r: usize)
    ensures
        r == char_index(s@, c),
        r <= s@.len(),
{
    let n = s.unicode_len();
    let mut i: usize = 0;
    while i < n
        invariant
            n == s@.len(),
            i <= n,
            forall|j: int| 0 <= j < i ==> #[trigger] s@[j] != c,
        decreases n - i,
    {
        if s.get_char(i) == c {
            proof {
                lemma_char_index_found(s@, c, i as int);
            }
            return i;
        }
        i = i + 1;
    }
    proof {
        lemma_char_index_absent(s@, c);
    }
    i
}

/// The characters of `s` from position `from` up to, not including, `to`.
pub fn slice_chars(s: &str, from: usize, to: usize) -> (r: String)
    requires
        from <= to <= s@.len(),
    ensures
        r@ == s@.subrange(from as int, to as int),
{
    s.substring_char(from, to).to_owned()
}

pub open spec fn is_ascii_digit_spec(c: char) -> bool {
    '0' <= c <= '9'
}

pub open spec fn is_ascii_alphanumeric_spec(c: char) -> bool {
    ('0' <= c <= '9') || ('a' <= c <= 'z') || ('A' <= c <= 'Z')
}

/// Whether `c` may stand in an identifier: an ASCII letter or digit, or `_`.
pub open spec fn is_word_char(c: char) -> bool {
    is_ascii_alphanumeric_spec(c) || c == '_'
}

pub fn is_ascii_digit(c: char) -> (r: bool)
    ensures
        r == is_ascii_digit_spec(c),
{
    '0' <= c && c <= '9'
}

pub fn is_word(c: char) -> (r: bool)
    ensures
        r == is_word_char(c),
{
    ('0' <= c && c <= '9') || ('a' <= c && c <= 'z') || ('A' <= c && c <= 'Z') || c == '_'
}

} // verus!

verus! {

/// The first `Some` among `f(0), ..., f(n - 1)`.
pub open spec fn first_some<T>(f: spec_fn(int) -> Option<T>, n: nat) -> Option<T>
    decreases n,
{
    if n == 0 {
        None
    } else {
        match first_some(f, (n - 1) as nat) {
            Some(e) => Some(e),
            None => f(n - 1),
        }
    }
}

pub proof fn lemma_first_some_stable<T>(f: spec_fn(int) -> Option<T>, n: nat, m: nat)
    requires
        n <= m,
        first_some(f, n) is Some,
    ensures
        first_some(f, m) == first_some(f, n),
    decreases m,
{
    if m > n {
        lemma_first_some_stable(f, n, (m - 1) as nat);
    }
}

pub proof fn lemma_first_some_none<T>(f: spec_fn(int) -> Option<T>, n: nat)
    requires
        forall|i: int| 0 <= i < n ==> #[trigger] f(i) is None,
    ensures
        first_some(f, n) is None,
    decreases n,
{
    if n > 0 {
        lemma_first_some_none(f, (n - 1) as nat);
    }
}

pub proof fn lemma_first_some_none_prefix<T>(f: spec_fn(int) -> Option<T>, n: nat, i: int)
    requires
        first_some(f, n) is None,
        0 <= i < n,
    ensures
        f(i) is None,
    decreases n,
{
    if i < n - 1 {
        lemma_first_some_none_prefix(f, (n - 1) as nat, i);
    }
}

} // verus!
