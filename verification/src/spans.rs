//! A counting view of quotation spans.
//!
//! Position `p` lies strictly inside a span exactly when an odd number
//! of quotation marks precede it and another follows it.  This parity
//! view composes under taking subranges, which is what the idempotence
//! law needs when a produced sentence is segmented again.

use vstd::prelude::*;
use crate::chars::spec_is_quote_mark;
use crate::chars::quote_positions;
use crate::chars::lemma_positions_of;
use crate::classify::span_contains;
use crate::classify::in_quote_span;

verus! {

/// The number of quotation marks among the first `upto` characters.
pub open spec fn quote_count(t: Seq<char>, upto: int) -> int
    decreases upto,
{
    if upto <= 0 {
        0
    } else {
        quote_count(t, upto - 1) + if spec_is_quote_mark(t[upto - 1]) {
            1int
        } else {
            0int
        }
    }
}

/// Some quotation mark sits at or after position `p`.
pub open spec fn quote_follows(t: Seq<char>, p: int) -> bool {
    exists|j: int| p <= j < t.len() && spec_is_quote_mark(#[trigger] t[j])
}

/// The count of marks before `p` is the number of mark positions
/// smaller than `p`.
pub proof fn lemma_count_vs_positions(t: Seq<char>, p: int)
    requires
        0 <= p <= t.len(),
    ensures
        0 <= quote_count(t, p) <= quote_positions(t).len(),
        forall|i: int|
            0 <= i < quote_positions(t).len() ==> ((#[trigger] quote_positions(t)[i] < p) <==> i
                < quote_count(t, p)),
    decreases p,
{
    lemma_positions_of(t, |c: char| spec_is_quote_mark(c));
    let qp = quote_positions(t);
    if p > 0 {
        lemma_count_vs_positions(t, p - 1);
        let c0 = quote_count(t, p - 1);
        if spec_is_quote_mark(t[p - 1]) {
            assert(qp.contains(p - 1));
            let m = choose|m: int| 0 <= m < qp.len() && qp[m] == p - 1;
            assert(m >= c0) by {
                if m < c0 {
                    assert(qp[m] < p - 1);
                }
            }
            assert(m == c0) by {
                if m > c0 {
                    assert(qp[c0] < qp[m]);
                    assert(qp[c0] < p - 1);
                }
            }
            assert forall|i: int| 0 <= i < qp.len() implies ((#[trigger] qp[i] < p) <==> i
                < quote_count(t, p)) by {
                if i < m {
                    assert(qp[i] < qp[m]);
                } else if i > m {
                    assert(qp[i] > qp[m]);
                }
            }
        } else {
            assert forall|i: int| 0 <= i < qp.len() implies ((#[trigger] qp[i] < p) <==> i
                < quote_count(t, p)) by {
                assert(qp[i] != p - 1);
            }
        }
    }
}

/// The span view and the parity view agree at any position that does
/// not itself carry a quotation mark.
pub proof fn lemma_span_iff_count(t: Seq<char>, p: int)
    requires
        0 <= p < t.len(),
        !spec_is_quote_mark(t[p]),
    ensures
        in_quote_span(t, p) <==> (quote_count(t, p) % 2 == 1 && quote_follows(t, p)),
{
    lemma_positions_of(t, |c: char| spec_is_quote_mark(c));
    lemma_count_vs_positions(t, p);
    let qp = quote_positions(t);
    let cnt = quote_count(t, p);
    if in_quote_span(t, p) {
        let k = choose|k: int| 0 <= k && #[trigger] span_contains(t, k, p);
        assert(qp[2 * k] < p);
        assert(2 * k < cnt);
        assert(!(qp[2 * k + 1] < p));
        assert(cnt <= 2 * k + 1);
        assert(cnt == 2 * k + 1);
        assert(p <= qp[2 * k + 1] < t.len() && spec_is_quote_mark(t[qp[2 * k + 1]]));
        assert(quote_follows(t, p));
    }
    if cnt % 2 == 1 && quote_follows(t, p) {
        let j = choose|j: int| p <= j < t.len() && spec_is_quote_mark(#[trigger] t[j]);
        assert(qp.contains(j));
        let m = choose|m: int| 0 <= m < qp.len() && qp[m] == j;
        assert(qp[m] != p);
        assert(!(qp[m] < p));
        assert(m >= cnt);
        assert(cnt < qp.len());
        assert(qp[cnt - 1] < p);
        assert(!(qp[cnt] < p));
        assert(qp[cnt] != p) by {
            assert(spec_is_quote_mark(t[qp[cnt]]));
        }
        let k = (cnt - 1) / 2;
        assert(2 * k == cnt - 1);
        assert(span_contains(t, k, p));
        assert(in_quote_span(t, p));
    }
}

/// Counting marks in a subrange counts them in the whole text.
pub proof fn lemma_count_subrange(t: Seq<char>, a: int, b: int, p: int)
    requires
        0 <= a <= b <= t.len(),
        0 <= p <= b - a,
    ensures
        quote_count(t.subrange(a, b), p) == quote_count(t, a + p) - quote_count(t, a),
    decreases p,
{
    if p > 0 {
        lemma_count_subrange(t, a, b, p - 1);
        assert(t.subrange(a, b)[p - 1] == t[a + p - 1]);
    }
}

/// Without a mark in between, the count does not move.
pub proof fn lemma_count_constant(t: Seq<char>, x: int, y: int)
    requires
        0 <= x <= y <= t.len(),
        forall|j: int| x <= j < y ==> !spec_is_quote_mark(#[trigger] t[j]),
    ensures
        quote_count(t, y) == quote_count(t, x),
    decreases y - x,
{
    if y > x {
        lemma_count_constant(t, x, y - 1);
    }
}

/// Inside a window whose two ends cut no quotation span, a position is
/// suppressed in the window exactly when it is suppressed in the whole
/// text.
pub proof fn lemma_window_span(t: Seq<char>, a: int, b: int, p: int)
    requires
        0 <= a <= b <= t.len(),
        0 <= p < b - a,
        !spec_is_quote_mark(t[a + p]),
        quote_count(t, a) % 2 == 0 || !quote_follows(t, a),
        (quote_count(t, b) - quote_count(t, a)) % 2 == 1 ==> !quote_follows(t, b),
    ensures
        in_quote_span(t.subrange(a, b), p) <==> in_quote_span(t, a + p),
{
    let s = t.subrange(a, b);
    assert(s[p] == t[a + p]);
    lemma_span_iff_count(s, p);
    lemma_span_iff_count(t, a + p);
    lemma_count_subrange(t, a, b, p);
    let big = quote_count(t, a + p);
    let small = quote_count(s, p);
    if !quote_follows(t, a) {
        assert(!quote_follows(t, a + p)) by {
            if quote_follows(t, a + p) {
                let j = choose|j: int|
                    a + p <= j < t.len() && spec_is_quote_mark(#[trigger] t[j]);
                assert(a <= j < t.len() && spec_is_quote_mark(t[j]));
            }
        }
        assert(!quote_follows(s, p)) by {
            if quote_follows(s, p) {
                let j = choose|j: int| p <= j < s.len() && spec_is_quote_mark(#[trigger] s[j]);
                assert(s[j] == t[a + j]);
                assert(a <= a + j < t.len() && spec_is_quote_mark(t[a + j]));
            }
        }
    } else {
        assert(quote_count(t, a) % 2 == 0);
        if in_quote_span(s, p) {
            assert(small % 2 == 1);
            assert(big % 2 == 1);
            let j = choose|j: int| p <= j < s.len() && spec_is_quote_mark(#[trigger] s[j]);
            assert(s[j] == t[a + j]);
            assert(a + p <= a + j < t.len() && spec_is_quote_mark(t[a + j]));
            assert(quote_follows(t, a + p));
        }
        if in_quote_span(t, a + p) {
            assert(big % 2 == 1);
            assert(small % 2 == 1);
            assert(quote_follows(s, p)) by {
                if !quote_follows(s, p) {
                    assert forall|j: int| a + p <= j < b implies !spec_is_quote_mark(
                        t[j],
                    ) by {
                        assert(s[j - a] == t[j]);
                        if spec_is_quote_mark(s[j - a]) {
                            assert(p <= j - a < s.len() && spec_is_quote_mark(s[j - a]));
                        }
                    }
                    lemma_count_constant(t, a + p, b);
                    assert((quote_count(t, b) - quote_count(t, a)) % 2 == 1);
                    assert(!quote_follows(t, b));
                    assert(!quote_follows(t, a + p)) by {
                        if quote_follows(t, a + p) {
                            let j = choose|j: int|
                                a + p <= j < t.len() && spec_is_quote_mark(#[trigger] t[j]);
                            if j < b {
                                assert(!spec_is_quote_mark(t[j]));
                            } else {
                                assert(b <= j < t.len() && spec_is_quote_mark(t[j]));
                            }
                        }
                    }
                }
            }
        }
    }
}

} // verus!
