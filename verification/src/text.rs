//! Verified character-level helpers on `&str`, shared by the three engines.

use vstd::prelude::*;

verus! {

/// Character-for-character equality of two string slices.
pub fn str_eq(a: &str, b: &str) -> (r: bool)
    ensures
        r == (a@ == b@),
{
    let alen = a.unicode_len();
    let blen = b.unicode_len();
    if alen != blen {
        proof {
            assert(a@ != b@);
        }
        return false;
    }
    let mut i: usize = 0;
    while i < alen
        invariant
            i <= alen,
            alen == a@.len(),
            alen == b@.len(),
            forall|j: int| 0 <= j < i ==> a@[j] == b@[j],
        decreases alen - i,
    {
        if a.get_char(i) != b.get_char(i) {
            proof {
                assert(a@[i as int] != b@[i as int]);
            }
            return false;
        }
        i = i + 1;
    }
    proof {
        assert(a@ =~= b@);
    }
    true
}

/// The position of the first occurrence of `c` in `s`, if any.
pub fn find_char(s: &str, c: char) -> (r: Option<usize>)
    ensures
        match r {
            Some(i) => i < s@.len() && s@[i as int] == c && forall|j: int|
                0 <= j < i ==> s@[j] != c,
            None => forall|j: int| 0 <= j < s@.len() ==> s@[j] != c,
        },
{
    let len = s.unicode_len();
    let mut i: usize = 0;
    while i < len
        invariant
            i <= len,
            len == s@.len(),
            forall|j: int| 0 <= j < i ==> s@[j] != c,
        decreases len - i,
    {
        if s.get_char(i) == c {
            return Some(i);
        }
        i = i + 1;
    }
    None
}

/// An owned copy of the characters of `s` from `from` (inclusive) to `to`
/// (exclusive).
pub fn substring(s: &str, from: usize, to: usize) -> (r: String)
    requires
        from <= to <= s@.len(),
    ensures
        r@ == s@.subrange(from as int, to as int),
{
    let piece = s.substring_char(from, to);
    String::from_str(piece)
}

/// `c` does not occur in `t`.
pub open spec fn no_char_in(t: Seq<char>, c: char) -> bool {
    forall|j: int| 0 <= j < t.len() ==> t[j] != c
}

/// `e` is the position of the first occurrence of `c` in `t`.
pub open spec fn is_first_char_at(t: Seq<char>, c: char, e: int) -> bool {
    &&& 0 <= e < t.len()
    &&& t[e] == c
    &&& forall|j: int| 0 <= j < e ==> t[j] != c
}

/// The position of the first occurrence of `c` in `t` (meaningful only
/// when `c` occurs).
pub open spec fn first_char_at(t: Seq<char>, c: char) -> int {
    choose|e: int| is_first_char_at(t, c, e)
}

/// The first occurrence is unambiguous.
pub proof fn lemma_first_char_at_is(t: Seq<char>, c: char, e: int)
    requires
        is_first_char_at(t, c, e),
    ensures
        first_char_at(t, c) == e,
{
    let e2 = first_char_at(t, c);
    assert(is_first_char_at(t, c, e2)) by {
        assert(is_first_char_at(t, c, e));
    }
    if e2 < e {
        assert(t[e2] != c);
    }
    if e2 > e {
        assert(t[e] != c);
    }
}

/// The name part of an option token: the characters after the `start`
/// leading dashes, up to (and excluding) the first `=`, if there is one.
pub open spec fn name_of(t: Seq<char>, start: int) -> Seq<char> {
    let body = t.subrange(start, t.len() as int);
    if no_char_in(body, '=') {
        body
    } else {
        body.subrange(0, first_char_at(body, '='))
    }
}

/// The inline value of an option token: the characters after the first `=`
/// following the `start` leading dashes, or nothing when the token has no
/// `=`.
pub open spec fn value_of(t: Seq<char>, start: int) -> Option<Seq<char>> {
    let body = t.subrange(start, t.len() as int);
    if no_char_in(body, '=') {
        None
    } else {
        Some(body.subrange(first_char_at(body, '=') + 1, body.len() as int))
    }
}

/// Split an option token body on its first `=`: the name before it and,
/// when an `=` is present, the (possibly empty) value text after it.
pub fn split_value(body: &str) -> (r: (String, Option<String>))
    ensures
        r.0@ == name_of(body@, 0),
        opt_text_matches(r.1, value_of(body@, 0)),
{
    proof {
        assert(body@.subrange(0, body@.len() as int) =~= body@);
    }
    let len = body.unicode_len();
    match find_char(body, '=') {
        None => {
            let name = substring(body, 0, len);
            (name, None)
        },
        Some(e) => {
            proof {
                lemma_first_char_at_is(body@, '=', e as int);
            }
            let name = substring(body, 0, e);
            let val = substring(body, e + 1, len);
            (name, Some(val))
        },
    }
}

/// Whether a token is the literal option-scanning terminator `--`.
pub open spec fn is_dashdash(t: Seq<char>) -> bool {
    t.len() == 2 && t[0] == '-' && t[1] == '-'
}

/// Whether `t` begins with a single dash and at least one more character,
/// without being the terminator `--`.
pub open spec fn dashed(t: Seq<char>) -> bool {
    t.len() >= 2 && t[0] == '-' && !is_dashdash(t)
}

/// Whether `t` begins with two dashes and at least one more character.
pub open spec fn double_dashed(t: Seq<char>) -> bool {
    t.len() >= 3 && t[0] == '-' && t[1] == '-'
}

/// Whether an extracted value (`a`, an owned optional string) spells the
/// same text as the model's optional character sequence `b`.
pub open spec fn opt_text_matches(a: Option<String>, b: Option<Seq<char>>) -> bool {
    match a {
        Some(s) => b matches Some(t) && s@ == t,
        None => b is None,
    }
}

/// Classify a token against the terminator and dash shapes: reports
/// whether `t` is exactly `--`, and whether it starts with a dash followed
/// by at least one more character.
pub fn token_shape(t: &str) -> (r: (bool, bool))
    ensures
        r.0 == is_dashdash(t@),
        r.1 == (t@.len() >= 2 && t@[0] == '-'),
{
    let len = t.unicode_len();
    if len < 2 {
        return (false, false);
    }
    let c0 = t.get_char(0);
    if c0 != '-' {
        return (false, false);
    }
    let c1 = t.get_char(1);
    (len == 2 && c1 == '-', true)
}

} // verus!
