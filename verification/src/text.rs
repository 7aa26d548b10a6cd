//! Comparison, prefix removal and search on string slices, stated over their
//! character sequences.

use vstd::prelude::*;
use vstd::std_specs::iter::IteratorSpec;
use vstd::string::*;

verus! {

/// Whether `text` stands in `s` from position `at` on.
pub open spec fn occurs_at(text: Seq<char>, s: Seq<char>, at: int) -> bool {
    0 <= at && at + text.len() <= s.len() && s.subrange(at, at + text.len()) == text
}

/// Whether `text` stands somewhere in `s`.
pub open spec fn occurs_in(text: Seq<char>, s: Seq<char>) -> bool {
    exists|at: int| occurs_at(text, s, at)
}

/// Whether `s` begins with the characters of `prefix`.
pub fn starts_with(s: &str, prefix: &str) -> (found: bool)
    ensures
        found == prefix@.is_prefix_of(s@),
{
    let mut rest = s.chars();
    let mut wanted = prefix.chars();
    let ghost mut k: int = 0;
    loop
        invariant
            0 <= k <= s@.len(),
            k <= prefix@.len(),
            rest.remaining() == s@.skip(k),
            wanted.remaining() == prefix@.skip(k),
            forall|j: int| 0 <= j < k ==> s@[j] == prefix@[j],
        decreases prefix@.len() - k,
    {
        match wanted.next() {
            None => {
                assert(prefix@ =~= s@.subrange(0, prefix@.len() as int));
                return true;
            },
            Some(p) => {
                match rest.next() {
                    None => {
                        return false;
                    },
                    Some(c) => {
                        if c != p {
                            assert(prefix@.len() <= s@.len() ==> s@.subrange(
                                0,
                                prefix@.len() as int,
                            )[k] != prefix@[k]);
                            return false;
                        }
                        proof {
                            assert(s@.skip(k).drop_first() =~= s@.skip(k + 1));
                            assert(prefix@.skip(k).drop_first() =~= prefix@.skip(k + 1));
                            k = k + 1;
                        }
                    },
                }
            },
        }
    }
}

/// Whether the two slices hold the same characters.
pub fn equals(a: &str, b: &str) -> (same: bool)
    ensures
        same == (a@ == b@),
{
    let mut left = a.chars();
    let mut right = b.chars();
    let ghost mut k: int = 0;
    loop
        invariant
            0 <= k <= a@.len(),
            k <= b@.len(),
            left.remaining() == a@.skip(k),
            right.remaining() == b@.skip(k),
            forall|j: int| 0 <= j < k ==> a@[j] == b@[j],
        decreases a@.len() - k,
    {
        match left.next() {
            None => {
                let at_end = right.next().is_none();
                assert(at_end ==> a@ =~= b@);
                return at_end;
            },
            Some(x) => {
                match right.next() {
                    None => {
                        return false;
                    },
                    Some(y) => {
                        if x != y {
                            assert(a@[k] != b@[k]);
                            return false;
                        }
                        proof {
                            assert(a@.skip(k).drop_first() =~= a@.skip(k + 1));
                            assert(b@.skip(k).drop_first() =~= b@.skip(k + 1));
                            k = k + 1;
                        }
                    },
                }
            },
        }
    }
}

/// The part of `s` behind `prefix`, where `s` begins with it.
pub fn strip_prefix<'a>(s: &'a str, prefix: &str) -> (rest: Option<&'a str>)
    ensures
        rest is Some <==> prefix@.is_prefix_of(s@),
        rest matches Some(r) ==> r@ == s@.skip(prefix@.len() as int),
{
    if starts_with(s, prefix) {
        let rest = s.substring_char(prefix.unicode_len(), s.unicode_len());
        assert(rest@ =~= s@.skip(prefix@.len() as int));
        Some(rest)
    } else {
        None
    }
}

/// The characters of `s`, one by one.
pub fn chars_of(s: &str) -> (chars: Vec<char>)
    ensures
        chars@ == s@,
{
    let mut chars: Vec<char> = Vec::new();
    for c in it: s.chars()
        invariant
            chars@ == it.seq().take(it.index() as int),
            it.seq() == s@,
    {
        chars.push(c);
    }
    chars
}

/// Whether `text` stands in `s` from position `at` on.
fn matches_at(s: &Vec<char>, text: &Vec<char>, at: usize) -> (found: bool)
    requires
        at + text@.len() <= s@.len(),
    ensures
        found == occurs_at(text@, s@, at as int),
{
    let mut i: usize = 0;
    while i < text.len()
        invariant
            i <= text@.len(),
            at + text@.len() <= s@.len() == s.len(),
            forall|j: int| 0 <= j < i ==> s@[at + j] == text@[j],
        decreases text@.len() - i,
    {
        if s[at + i] != text[i] {
            assert(s@.subrange(at as int, at + text@.len())[i as int] != text@[i as int]);
            return false;
        }
        i += 1;
    }
    assert(s@.subrange(at as int, at + text@.len()) =~= text@);
    true
}

/// Whether the characters `part` stand somewhere in the characters `whole`.
pub fn occurs(whole: &Vec<char>, part: &Vec<char>) -> (found: bool)
    ensures
        found == occurs_in(part@, whole@),
{
    if part.len() > whole.len() {
        return false;
    }
    let last: usize = whole.len() - part.len();
    let mut at: usize = 0;
    loop
        invariant
            at <= last,
            last + part@.len() == whole@.len(),
            forall|before: int| 0 <= before < at ==> !occurs_at(part@, whole@, before),
        decreases last - at,
    {
        if matches_at(whole, part, at) {
            return true;
        }
        if at == last {
            return false;
        }
        at += 1;
    }
}

/// Whether `text` stands somewhere in `s`. The empty text stands in every
/// slice.
pub fn contains(s: &str, text: &str) -> (found: bool)
    ensures
        found == occurs_in(text@, s@),
{
    occurs(&chars_of(s), &chars_of(text))
}

} // verus!
