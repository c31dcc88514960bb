//! The laws of the segmenter, stated over its mathematical model and
//! proved once and for all.

use vstd::prelude::*;
use crate::chars::spec_is_terminator;
use crate::chars::spec_is_quote_mark;
use crate::chars::quote_positions;
use crate::chars::stop_positions;
use crate::chars::lemma_positions_of;
use crate::classify::span_contains;
use crate::classify::in_quote_span;
use crate::classify::inner_boundaries_upto;
use crate::classify::inner_boundaries;
use crate::classify::boundaries_spec;
use crate::classify::lemma_inner_upto;
use crate::classify::lemma_boundaries_wf;
use crate::segment::sentences_upto;
use crate::segment::seg_spec;
use crate::spans::quote_count;
use crate::spans::quote_follows;
use crate::spans::lemma_span_iff_count;
use crate::spans::lemma_count_constant;
use crate::spans::lemma_window_span;
use crate::trim::spec_is_space;
use crate::trim::trim_spec;
use crate::trim::lemma_trim_find;
use crate::trim::lemma_trim_trimmed;

verus! {

/// Plain splitting law: in a text without quotation marks no terminator
/// is ever suppressed.  Every terminator strictly inside the text
/// contributes the boundary just after itself, and every boundary other
/// than the two sentinels sits just after a terminator.
pub proof fn lemma_plain_split(t: Seq<char>)
    requires
        forall|i: int| 0 <= i < t.len() ==> !spec_is_quote_mark(#[trigger] t[i]),
    ensures
        forall|p: int| !in_quote_span(t, p),
        forall|j: int|
            0 <= j < stop_positions(t).len() && #[trigger] stop_positions(t)[j] + 1 < t.len()
                ==> boundaries_spec(t).contains(stop_positions(t)[j] + 1),
        forall|b: int|
            boundaries_spec(t).contains(b) && 0 < b < t.len() ==> spec_is_terminator(t[b - 1]),
{
    lemma_positions_of(t, |c: char| spec_is_quote_mark(c));
    lemma_positions_of(t, |c: char| spec_is_terminator(c));
    assert(quote_positions(t).len() == 0) by {
        if quote_positions(t).len() > 0 {
            assert(0 <= quote_positions(t)[0] < t.len() && spec_is_quote_mark(
                t[quote_positions(t)[0]],
            ));
        }
    }
    assert forall|p: int| !in_quote_span(t, p) by {
        if in_quote_span(t, p) {
            let k = choose|k: int| 0 <= k && #[trigger] span_contains(t, k, p);
            assert(2 * k + 1 < 0);
        }
    }
    let nstops = stop_positions(t).len() as int;
    lemma_inner_upto(t, nstops);
    let inner = inner_boundaries_upto(t, nstops);
    let bs = boundaries_spec(t);
    assert forall|j: int|
        0 <= j < stop_positions(t).len() && #[trigger] stop_positions(t)[j] + 1
            < t.len() implies bs.contains(stop_positions(t)[j] + 1) by {
        assert(inner.contains(stop_positions(t)[j] + 1));
        let ii = choose|ii: int| 0 <= ii < inner.len() && inner[ii] == stop_positions(t)[j] + 1;
        assert(bs[ii + 1] == inner[ii]);
    }
    assert forall|b: int| bs.contains(b) && 0 < b < t.len() implies spec_is_terminator(
        t[b - 1],
    ) by {
        let idx = choose|idx: int| 0 <= idx < bs.len() && bs[idx] == b;
        assert(t.len() > 0);
        assert(bs[0] == 0 && bs[bs.len() - 1] == t.len());
        assert(1 <= idx < bs.len() - 1);
        assert(bs[idx] == inner[idx - 1]);
        let j = choose|j: int|
            0 <= j < nstops && inner[idx - 1] == stop_positions(t)[j] + 1 && !in_quote_span(
                t,
                stop_positions(t)[j],
            ) && stop_positions(t)[j] + 1 < t.len();
        assert(stop_positions(t)[j] == b - 1);
    }
}

/// Boundary sentinel law: the boundary set contains 0 and the text
/// length, and is strictly increasing.
pub proof fn lemma_boundary_sentinels(t: Seq<char>)
    ensures
        boundaries_spec(t).contains(0),
        boundaries_spec(t).contains(t.len() as int),
        forall|i: int, j: int|
            0 <= i < j < boundaries_spec(t).len() ==> boundaries_spec(t)[i] < boundaries_spec(
                t,
            )[j],
{
    lemma_boundaries_wf(t);
    let bs = boundaries_spec(t);
    assert(bs[0] == 0);
    assert(bs[bs.len() - 1] == t.len());
}

/// Quote suppression law: a terminator strictly inside a quotation span
/// yields no boundary — its position + 1 is not in the boundary set.
pub proof fn lemma_quote_suppression(t: Seq<char>, p: int)
    requires
        0 <= p < t.len(),
        spec_is_terminator(t[p]),
        in_quote_span(t, p),
    ensures
        !boundaries_spec(t).contains(p + 1),
{
    lemma_positions_of(t, |c: char| spec_is_quote_mark(c));
    lemma_positions_of(t, |c: char| spec_is_terminator(c));
    lemma_boundaries_wf(t);
    let k = choose|k: int| 0 <= k && #[trigger] span_contains(t, k, p);
    assert(p < quote_positions(t)[2 * k + 1] < t.len());
    assert(p + 1 < t.len());
    let nstops = stop_positions(t).len() as int;
    lemma_inner_upto(t, nstops);
    let inner = inner_boundaries_upto(t, nstops);
    let bs = boundaries_spec(t);
    if bs.contains(p + 1) {
        let idx = choose|idx: int| 0 <= idx < bs.len() && bs[idx] == p + 1;
        assert(bs[0] == 0 && bs[bs.len() - 1] == t.len());
        assert(1 <= idx < bs.len() - 1);
        assert(bs[idx] == inner[idx - 1]);
        let j = choose|j: int|
            0 <= j < nstops && inner[idx - 1] == stop_positions(t)[j] + 1 && !in_quote_span(
                t,
                stop_positions(t)[j],
            ) && stop_positions(t)[j] + 1 < t.len();
        assert(stop_positions(t)[j] == p);
    }
}

/// A boundary cuts no quotation span: when an odd number of quotation
/// marks lie before it, none follows it.
proof fn lemma_boundary_cuts_no_span(t: Seq<char>, x: int)
    requires
        boundaries_spec(t).contains(x),
    ensures
        quote_count(t, x) % 2 == 1 ==> !quote_follows(t, x),
{
    if quote_count(t, x) % 2 == 1 {
        lemma_boundaries_wf(t);
        let bs = boundaries_spec(t);
        let idx = choose|idx: int| 0 <= idx < bs.len() && bs[idx] == x;
        assert(bs[0] == 0 && bs[bs.len() - 1] == t.len());
        if idx == 0 {
            assert(quote_count(t, 0) == 0);
            assert(false);
        } else if idx == bs.len() - 1 {
            assert(x == t.len());
            assert(!quote_follows(t, x)) by {
                if quote_follows(t, x) {
                    let j = choose|j: int|
                        x <= j < t.len() && spec_is_quote_mark(#[trigger] t[j]);
                }
            }
        } else {
            assert(t.len() > 0);
            let nstops = stop_positions(t).len() as int;
            lemma_inner_upto(t, nstops);
            let inner = inner_boundaries_upto(t, nstops);
            assert(bs[idx] == inner[idx - 1]);
            let sj = choose|sj: int|
                0 <= sj < nstops && inner[idx - 1] == stop_positions(t)[sj] + 1 && !in_quote_span(
                    t,
                    stop_positions(t)[sj],
                ) && stop_positions(t)[sj] + 1 < t.len();
            let p = stop_positions(t)[sj];
            lemma_positions_of(t, |c: char| spec_is_terminator(c));
            assert(spec_is_terminator(t[p]));
            assert(!spec_is_quote_mark(t[p]));
            lemma_span_iff_count(t, p);
            assert(quote_count(t, x) == quote_count(t, p));
            assert(!quote_follows(t, p));
            assert(!quote_follows(t, x)) by {
                if quote_follows(t, x) {
                    let j = choose|j: int|
                        x <= j < t.len() && spec_is_quote_mark(#[trigger] t[j]);
                    assert(p <= j < t.len() && spec_is_quote_mark(t[j]));
                }
            }
        }
    }
}

/// Which window of consecutive boundaries a produced sentence came from.
proof fn lemma_sentence_window(t: Seq<char>, bs: Seq<int>, n: int, i: int) -> (j: int)
    requires
        0 <= i < sentences_upto(t, bs, n).len(),
        n <= bs.len(),
    ensures
        1 <= j < n,
        sentences_upto(t, bs, n)[i] == trim_spec(t.subrange(bs[j - 1], bs[j])),
        trim_spec(t.subrange(bs[j - 1], bs[j])).len() > 1,
    decreases n,
{
    let prev = sentences_upto(t, bs, n - 1);
    let cur = sentences_upto(t, bs, n);
    if i < prev.len() {
        let j = lemma_sentence_window(t, bs, n - 1, i);
        assert(cur[i] == prev[i]);
        j
    } else {
        assert(cur[i] == trim_spec(t.subrange(bs[n - 2], bs[n - 1])));
        n - 1
    }
}

/// With every terminator suppressed or flush with the end of the text,
/// no genuine inner boundary arises.
proof fn lemma_inner_empty(u: Seq<char>, n: int)
    requires
        0 <= n <= stop_positions(u).len(),
        forall|q: int|
            0 <= q < n ==> (in_quote_span(u, #[trigger] stop_positions(u)[q]) || stop_positions(
                u,
            )[q] + 1 >= u.len()),
    ensures
        inner_boundaries_upto(u, n).len() == 0,
    decreases n,
{
    if n > 0 {
        lemma_inner_empty(u, n - 1);
    }
}

/// Idempotence law: segmenting a sentence that the segmenter produced
/// yields that sentence back, alone and unchanged.
pub proof fn lemma_segment_idempotent(t: Seq<char>, i: int)
    requires
        0 <= i < seg_spec(t).len(),
    ensures
        seg_spec(seg_spec(t)[i]) == seq![seg_spec(t)[i]],
{
    let bs = boundaries_spec(t);
    lemma_boundaries_wf(t);
    let j = lemma_sentence_window(t, bs, bs.len() as int, i);
    let lo = bs[j - 1];
    let hi = bs[j];
    assert(0 <= lo < hi <= t.len());
    let w = t.subrange(lo, hi);
    let s = seg_spec(t)[i];
    assert(s == trim_spec(w));
    assert(s.len() > 1);
    let fg = lemma_trim_find(w);
    let a = lo + fg.0;
    let b = lo + fg.1;
    assert(w.subrange(fg.0, fg.1) =~= t.subrange(a, b));
    assert(s == t.subrange(a, b));
    assert forall|x: int| lo <= x < a implies !spec_is_quote_mark(t[x]) by {
        assert(w[x - lo] == t[x]);
        assert(spec_is_space(t[x]));
    }
    assert forall|x: int| b <= x < hi implies !spec_is_quote_mark(t[x]) by {
        assert(w[x - lo] == t[x]);
        assert(spec_is_space(t[x]));
    }
    lemma_count_constant(t, lo, a);
    lemma_count_constant(t, b, hi);
    assert(bs.contains(lo)) by {
        assert(bs[j - 1] == lo);
    }
    assert(bs.contains(hi)) by {
        assert(bs[j] == hi);
    }
    lemma_boundary_cuts_no_span(t, lo);
    lemma_boundary_cuts_no_span(t, hi);
    assert(quote_count(t, a) % 2 == 0 || !quote_follows(t, a)) by {
        if quote_count(t, a) % 2 != 0 {
            assert(quote_count(t, lo) % 2 == 1);
            assert(!quote_follows(t, lo));
            if quote_follows(t, a) {
                let x = choose|x: int| a <= x < t.len() && spec_is_quote_mark(#[trigger] t[x]);
                assert(lo <= x < t.len() && spec_is_quote_mark(t[x]));
            }
        }
    }
    assert((quote_count(t, b) - quote_count(t, a)) % 2 == 1 ==> !quote_follows(t, b)) by {
        if (quote_count(t, b) - quote_count(t, a)) % 2 == 1 {
            if quote_count(t, a) % 2 == 0 {
                assert(quote_count(t, hi) % 2 == 1);
                assert(!quote_follows(t, hi));
                assert(!quote_follows(t, b)) by {
                    if quote_follows(t, b) {
                        let x = choose|x: int|
                            b <= x < t.len() && spec_is_quote_mark(#[trigger] t[x]);
                        if x < hi {
                            assert(!spec_is_quote_mark(t[x]));
                        } else {
                            assert(hi <= x < t.len() && spec_is_quote_mark(t[x]));
                        }
                    }
                }
            } else {
                assert(!quote_follows(t, a));
                assert forall|x: int| a <= x < b implies !spec_is_quote_mark(t[x]) by {
                    if spec_is_quote_mark(t[x]) {
                        assert(a <= x < t.len() && spec_is_quote_mark(t[x]));
                    }
                }
                lemma_count_constant(t, a, b);
            }
        }
    }
    // Every terminator of the sentence is locally suppressed or ends it.
    lemma_positions_of(s, |c: char| spec_is_terminator(c));
    lemma_positions_of(t, |c: char| spec_is_terminator(c));
    let nstops = stop_positions(t).len() as int;
    lemma_inner_upto(t, nstops);
    let inner = inner_boundaries_upto(t, nstops);
    assert forall|q: int| 0 <= q < stop_positions(s).len() implies (in_quote_span(
        s,
        #[trigger] stop_positions(s)[q],
    ) || stop_positions(s)[q] + 1 >= s.len()) by {
        let pp = stop_positions(s)[q];
        assert(0 <= pp < s.len() && spec_is_terminator(s[pp]));
        assert(s[pp] == t.subrange(a, b)[pp]);
        let p = a + pp;
        assert(spec_is_terminator(t[p]));
        assert(!spec_is_quote_mark(t[p]));
        if in_quote_span(t, p) {
            lemma_window_span(t, a, b, pp);
            assert(in_quote_span(t.subrange(a, b), pp));
            assert(in_quote_span(s, pp));
        } else {
            assert(stop_positions(t).contains(p));
            let jq = choose|jq: int|
                0 <= jq < stop_positions(t).len() && stop_positions(t)[jq] == p;
            assert(bs.contains(p + 1)) by {
                if p + 1 < t.len() {
                    assert(inner.contains(p + 1));
                    let ii = choose|ii: int| 0 <= ii < inner.len() && inner[ii] == p + 1;
                    assert(bs[ii + 1] == inner[ii]);
                } else {
                    assert(p + 1 == t.len());
                    assert(bs[bs.len() - 1] == t.len());
                }
            }
            let ib = choose|ib: int| 0 <= ib < bs.len() && bs[ib] == p + 1;
            assert(lo < p + 1 <= hi);
            assert(ib == j) by {
                if ib < j {
                    assert(bs[ib] <= bs[j - 1]);
                } else if ib > j {
                    assert(bs[ib] > bs[j]);
                }
            }
            assert(p + 1 == hi);
            assert(b == hi) by {
                assert(p < b <= hi);
            }
            assert(pp + 1 >= s.len());
        }
    }
    lemma_inner_empty(s, stop_positions(s).len() as int);
    assert(inner_boundaries(s).len() == 0);
    let bs2 = boundaries_spec(s);
    assert(bs2 =~= seq![0int, s.len() as int]);
    lemma_trim_trimmed(w);
    assert(trim_spec(s) == s);
    assert(s.subrange(0, s.len() as int) =~= s);
    assert(sentences_upto(s, bs2, 2) == sentences_upto(s, bs2, 1) + seq![s]);
    assert(seg_spec(s) =~= seq![s]);
}

} // verus!
