//! Character-level helpers on strings: prefix and substring tests and the
//! search for the last occurrence of a separator.

use vstd::prelude::*;

verus! {

/// `p` occurs in `s` starting at position `i`.
pub open spec fn occurs_at(s: Seq<char>, p: Seq<char>, i: int) -> bool {
    0 <= i && i + p.len() <= s.len() && s.subrange(i, i + p.len()) == p
}

/// `s` begins with `p`.
pub open spec fn starts_with(s: Seq<char>, p: Seq<char>) -> bool {
    occurs_at(s, p, 0)
}

/// `p` occurs somewhere in `s`.
pub open spec fn has_substring(s: Seq<char>, p: Seq<char>) -> bool {
    exists|i: int| occurs_at(s, p, i)
}

/// Position of the last `sep` in `s`, or -1 where `s` holds none.
pub open spec fn last_position(s: Seq<char>, sep: char) -> int
    decreases s.len(),
{
    if s.len() == 0 {
        -1
    } else if s.last() == sep {
        s.len() - 1
    } else {
        last_position(s.drop_last(), sep)
    }
}

/// What follows the last `sep` in `s`; all of `s` where it holds none.
pub open spec fn after_last(s: Seq<char>, sep: char) -> Seq<char> {
    s.subrange(last_position(s, sep) + 1, s.len() as int)
}

/// `s` without the separators at its end.
pub open spec fn without_trailing(s: Seq<char>, sep: char) -> Seq<char>
    decreases s.len(),
{
    if s.len() > 0 && s.last() == sep {
        without_trailing(s.drop_last(), sep)
    } else {
        s
    }
}

/// What precedes the first `sep` in `s`; all of `s` where it holds none.
pub open spec fn before_first(s: Seq<char>, sep: char) -> Seq<char>
    decreases s.len(),
{
    if s.len() == 0 || s.first() == sep {
        Seq::empty()
    } else {
        seq![s.first()] + before_first(s.drop_first(), sep)
    }
}

/// The last position lies in the text or is -1, holds the separator where
/// it lies in the text, and no separator follows it.
pub proof fn lemma_last_position_bounds(s: Seq<char>, sep: char)
    ensures
        -1 <= last_position(s, sep) < s.len(),
        last_position(s, sep) >= 0 ==> s[last_position(s, sep)] == sep,
        forall|j: int| last_position(s, sep) < j < s.len() ==> s[j] != sep,
    decreases s.len(),
{
    if s.len() > 0 && s.last() != sep {
        let t = s.drop_last();
        lemma_last_position_bounds(t, sep);
        assert forall|j: int| last_position(s, sep) < j < s.len() implies s[j] != sep by {
            if j < t.len() {
                assert(t[j] == s[j]);
            }
        }
    }
}

/// The characters of `s`, in order.
pub fn chars_of(s: &str) -> (out: Vec<char>)
    ensures
        out@ == s@,
{
    let mut out: Vec<char> = Vec::new();
    for c in it: s.chars()
        invariant
            out@ == it.seq().take(it.index() as int),
            it.seq() == s@,
    {
        out.push(c);
    }
    out
}

/// Tests whether `p` occurs in `s` at position `i`.
pub fn matches_at(s: &Vec<char>, p: &Vec<char>, i: usize) -> (r: bool)
    ensures
        r == occurs_at(s@, p@, i as int),
{
    if p.len() > s.len() || i > s.len() - p.len() {
        return false;
    }
    let mut k: usize = 0;
    while k < p.len()
        invariant
            k <= p.len(),
            i + p.len() <= s.len(),
            forall|j: int| 0 <= j < k ==> s@[i + j] == p@[j],
        decreases p.len() - k,
    {
        if s[i + k] != p[k] {
            proof {
                let sub = s@.subrange(i as int, i + p@.len());
                assert(sub[k as int] == s@[i + k]);
            }
            return false;
        }
        k += 1;
    }
    assert(s@.subrange(i as int, i + p@.len()) =~= p@);
    true
}

/// Tests whether `s` holds `p` as a substring.
pub fn contains_chars(s: &Vec<char>, p: &Vec<char>) -> (r: bool)
    ensures
        r == has_substring(s@, p@),
{
    if p.len() > s.len() {
        return false;
    }
    let last: usize = s.len() - p.len();
    let mut i: usize = 0;
    loop
        invariant
            i <= last,
            last == s.len() - p.len(),
            forall|j: int| 0 <= j < i ==> !occurs_at(s@, p@, j),
        decreases last - i,
    {
        if matches_at(s, p, i) {
            return true;
        }
        if i == last {
            return false;
        }
        i += 1;
    }
}

/// Tests whether `s` begins with `p`.
pub fn str_starts_with(s: &str, p: &str) -> (r: bool)
    ensures
        r == starts_with(s@, p@),
{
    let sc = chars_of(s);
    let pc = chars_of(p);
    matches_at(&sc, &pc, 0)
}

/// Tests whether `s` holds `p` as a substring.
pub fn str_contains(s: &str, p: &str) -> (r: bool)
    ensures
        r == has_substring(s@, p@),
{
    let sc = chars_of(s);
    let pc = chars_of(p);
    contains_chars(&sc, &pc)
}

/// Tests whether `a` and `b` hold the same characters.
pub fn str_equals(a: &str, b: &str) -> (r: bool)
    ensures
        r == (a@ == b@),
{
    let ac = chars_of(a);
    let bc = chars_of(b);
    if ac.len() != bc.len() {
        return false;
    }
    let r = matches_at(&ac, &bc, 0);
    assert(ac@.subrange(0, ac@.len() as int) =~= ac@);
    r
}

/// Index just past the last `sep` among the first `end` characters of `s`
/// (0 where they hold none).
pub fn component_start(s: &Vec<char>, end: usize, sep: char) -> (r: usize)
    requires
        end <= s.len(),
    ensures
        r == last_position(s@.take(end as int), sep) + 1,
        r <= end,
{
    let mut i: usize = end;
    while i > 0
        invariant
            i <= end <= s.len(),
            last_position(s@.take(end as int), sep) == last_position(s@.take(i as int), sep),
        decreases i,
    {
        if s[i - 1] == sep {
            return i;
        }
        assert(s@.take(i as int).drop_last() =~= s@.take(i - 1));
        i -= 1;
    }
    0
}

/// Length of `s` without the separators at its end.
pub fn trimmed_len(s: &Vec<char>, sep: char) -> (r: usize)
    ensures
        r <= s.len(),
        s@.take(r as int) == without_trailing(s@, sep),
{
    let mut end: usize = s.len();
    assert(s@.take(end as int) =~= s@);
    while end > 0 && s[end - 1] == sep
        invariant
            end <= s.len(),
            without_trailing(s@, sep) == without_trailing(s@.take(end as int), sep),
        decreases end,
    {
        assert(s@.take(end as int).drop_last() =~= s@.take(end - 1));
        end -= 1;
    }
    end
}

/// Length of what precedes the first `sep` in `s`.
pub fn first_component_len(s: &Vec<char>, sep: char) -> (r: usize)
    ensures
        r <= s.len(),
        s@.take(r as int) == before_first(s@, sep),
{
    let mut i: usize = 0;
    assert(s@.skip(0) =~= s@);
    while i < s.len()
        invariant
            i <= s.len(),
            before_first(s@, sep) == s@.take(i as int) + before_first(s@.skip(i as int), sep),
        decreases s.len() - i,
    {
        if s[i] == sep {
            assert(s@.take(i as int) + Seq::<char>::empty() =~= s@.take(i as int));
            return i;
        }
        proof {
            let rest = s@.skip(i as int);
            assert(rest.drop_first() =~= s@.skip(i + 1));
            assert(s@.take(i as int) + (seq![rest.first()] + before_first(rest.drop_first(), sep))
                =~= s@.take(i + 1) + before_first(s@.skip(i + 1), sep));
        }
        i += 1;
    }
    assert(s@.take(i as int) + Seq::<char>::empty() =~= s@.take(i as int));
    i
}

} // verus!
