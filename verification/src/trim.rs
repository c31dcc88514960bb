//! Whitespace trimming of sentence slices.
//!
//! `trim_spec` is the mathematical trim; `lemma_trim_is_subrange` pins it
//! down as a subrange with non-space endpoints, which both the exec
//! implementation and the idempotence law build on.

use vstd::prelude::*;

verus! {

/// A white-space character (the Unicode `White_Space` set, which is what
/// sentence trimming removes at either end).
pub open spec fn spec_is_space(c: char) -> bool {
    let u = c as u32;
    u == 0x20 || (0x9 <= u && u <= 0xD) || u == 0x85 || u == 0xA0 || u == 0x1680 || (0x2000 <= u
        && u <= 0x200A) || u == 0x2028 || u == 0x2029 || u == 0x202F || u == 0x205F || u == 0x3000
}

#[verifier::when_used_as_spec(spec_is_space)]
pub fn is_space(c: char) -> (r: bool)
    ensures
        r == spec_is_space(c),
{
    let u = c as u32;
    u == 0x20 || (0x9 <= u && u <= 0xD) || u == 0x85 || u == 0xA0 || u == 0x1680 || (0x2000 <= u
        && u <= 0x200A) || u == 0x2028 || u == 0x2029 || u == 0x202F || u == 0x205F || u == 0x3000
}

pub open spec fn trim_front(s: Seq<char>) -> Seq<char>
    decreases s.len(),
{
    if s.len() > 0 && spec_is_space(s[0]) {
        trim_front(s.drop_first())
    } else {
        s
    }
}

pub open spec fn trim_back(s: Seq<char>) -> Seq<char>
    decreases s.len(),
{
    if s.len() > 0 && spec_is_space(s.last()) {
        trim_back(s.drop_last())
    } else {
        s
    }
}

/// The text with leading and trailing white space removed.
pub open spec fn trim_spec(s: Seq<char>) -> Seq<char> {
    trim_back(trim_front(s))
}

pub proof fn lemma_trim_front_skip(s: Seq<char>, k: int)
    requires
        0 <= k <= s.len(),
        forall|j: int| 0 <= j < k ==> spec_is_space(s[j]),
    ensures
        trim_front(s) == trim_front(s.skip(k)),
    decreases k,
{
    if k == 0 {
        assert(s.skip(0) =~= s);
    } else {
        assert(s.drop_first() =~= s.skip(1));
        lemma_trim_front_skip(s.skip(1), k - 1);
        assert(s.skip(1).skip(k - 1) =~= s.skip(k));
    }
}

pub proof fn lemma_trim_back_take(s: Seq<char>, k: int)
    requires
        0 <= k <= s.len(),
        forall|j: int| k <= j < s.len() ==> spec_is_space(s[j]),
    ensures
        trim_back(s) == trim_back(s.take(k)),
    decreases s.len() - k,
{
    if k == s.len() {
        assert(s.take(k) =~= s);
    } else {
        assert(s.drop_last() =~= s.take(s.len() - 1));
        lemma_trim_back_take(s.take(s.len() - 1), k);
        assert(s.take(s.len() - 1).take(k) =~= s.take(k));
    }
}

/// Cut points with all-space outsides and non-space endpoints
/// characterize the trim exactly.
pub proof fn lemma_trim_is_subrange(s: Seq<char>, a: int, b: int)
    requires
        0 <= a <= b <= s.len(),
        forall|j: int| 0 <= j < a ==> spec_is_space(s[j]),
        forall|j: int| b <= j < s.len() ==> spec_is_space(s[j]),
        a == s.len() || !spec_is_space(s[a]),
        b == a || !spec_is_space(s[b - 1]),
    ensures
        trim_spec(s) == s.subrange(a, b),
{
    lemma_trim_front_skip(s, a);
    let u = s.skip(a);
    if a < s.len() {
        assert(u[0] == s[a]);
    }
    assert(trim_front(u) == u);
    lemma_trim_back_take(u, b - a);
    let v = u.take(b - a);
    if b > a {
        assert(v.last() == s[b - 1]);
    }
    assert(trim_back(v) == v);
    assert(v =~= s.subrange(a, b));
}

/// How many leading white-space characters `s` has.
pub open spec fn count_lead(s: Seq<char>) -> int
    decreases s.len(),
{
    if s.len() > 0 && spec_is_space(s[0]) {
        1 + count_lead(s.drop_first())
    } else {
        0
    }
}

/// How many trailing white-space characters `s` has.
pub open spec fn count_trail(s: Seq<char>) -> int
    decreases s.len(),
{
    if s.len() > 0 && spec_is_space(s.last()) {
        1 + count_trail(s.drop_last())
    } else {
        0
    }
}

pub proof fn lemma_count_lead(s: Seq<char>)
    ensures
        0 <= count_lead(s) <= s.len(),
        forall|j: int| 0 <= j < count_lead(s) ==> spec_is_space(s[j]),
        count_lead(s) == s.len() || !spec_is_space(s[count_lead(s)]),
    decreases s.len(),
{
    if s.len() > 0 && spec_is_space(s[0]) {
        lemma_count_lead(s.drop_first());
        assert forall|j: int| 0 <= j < count_lead(s) implies spec_is_space(s[j]) by {
            if j > 0 {
                assert(s.drop_first()[j - 1] == s[j]);
            }
        }
        if count_lead(s) < s.len() {
            assert(s.drop_first()[count_lead(s) - 1] == s[count_lead(s)]);
        }
    }
}

pub proof fn lemma_count_trail(s: Seq<char>)
    ensures
        0 <= count_trail(s) <= s.len(),
        forall|j: int| s.len() - count_trail(s) <= j < s.len() ==> spec_is_space(s[j]),
        count_trail(s) == s.len() || !spec_is_space(s[s.len() - count_trail(s) - 1]),
    decreases s.len(),
{
    if s.len() > 0 && spec_is_space(s.last()) {
        lemma_count_trail(s.drop_last());
        assert forall|j: int| s.len() - count_trail(s) <= j < s.len() implies spec_is_space(
            s[j],
        ) by {
            if j < s.len() - 1 {
                assert(s.drop_last()[j] == s[j]);
            }
        }
    }
}

/// Produces the cut points of the trim of `s`.
pub proof fn lemma_trim_find(s: Seq<char>) -> (r: (int, int))
    ensures
        0 <= r.0 <= r.1 <= s.len(),
        forall|j: int| 0 <= j < r.0 ==> spec_is_space(s[j]),
        forall|j: int| r.1 <= j < s.len() ==> spec_is_space(s[j]),
        r.0 == s.len() || !spec_is_space(s[r.0]),
        r.1 == r.0 || !spec_is_space(s[r.1 - 1]),
        trim_spec(s) == s.subrange(r.0, r.1),
{
    lemma_count_lead(s);
    lemma_count_trail(s);
    let a = count_lead(s);
    if a == s.len() {
        lemma_trim_is_subrange(s, a, a);
        (a, a)
    } else {
        let b = s.len() - count_trail(s);
        assert(!spec_is_space(s[a]));
        assert(count_trail(s) < s.len() && !spec_is_space(s[b - 1])) by {
            if count_trail(s) == s.len() {
                assert(spec_is_space(s[a]));
            }
        }
        assert(a < b) by {
            if b <= a {
                assert(spec_is_space(s[b - 1]));
            }
        }
        lemma_trim_is_subrange(s, a, b);
        (a, b)
    }
}

/// Trimming an already trimmed text changes nothing.
pub proof fn lemma_trim_trimmed(s: Seq<char>)
    ensures
        trim_spec(trim_spec(s)) == trim_spec(s),
{
    let r = lemma_trim_find(s);
    let v = trim_spec(s);
    if v.len() > 0 {
        assert(v[0] == s[r.0]);
        assert(v.last() == s[r.1 - 1]);
    }
    lemma_trim_is_subrange(v, 0, v.len() as int);
    assert(v.subrange(0, v.len() as int) =~= v);
}

/// Trim a string slice: the borrowed middle with no leading or trailing
/// white space.
pub fn trim_slice<'a>(s: &'a str) -> (r: &'a str)
    ensures
        r@ == trim_spec(s@),
{
    let n = s.unicode_len();
    let mut a: usize = 0;
    while a < n && is_space(s.get_char(a))
        invariant
            n == s@.len(),
            0 <= a <= n,
            forall|j: int| 0 <= j < a ==> spec_is_space(s@[j]),
        decreases n - a,
    {
        a = a + 1;
    }
    let mut b: usize = n;
    while b > a && is_space(s.get_char(b - 1))
        invariant
            n == s@.len(),
            a <= b <= n,
            forall|j: int| b <= j < n ==> spec_is_space(s@[j]),
        decreases b,
    {
        b = b - 1;
    }
    proof {
        lemma_trim_is_subrange(s@, a as int, b as int);
    }
    s.substring_char(a, b)
}

} // verus!
