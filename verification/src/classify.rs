//! The boundary classifier.
//!
//! Quotation marks pair up sequentially into spans (1st with 2nd, 3rd
//! with 4th, ...; a final unpaired mark closes nothing).  A terminator
//! strictly inside such a span is suppressed; every other terminator ends
//! a sentence just after itself.  The boundary set brackets those genuine
//! boundaries with the two sentinels 0 and the text length.

use vstd::prelude::*;
use crate::chars::spec_is_terminator;
use crate::chars::spec_is_quote_mark;
use crate::chars::positions_of;
use crate::chars::quote_positions;
use crate::chars::stop_positions;
use crate::chars::lemma_positions_of;
use crate::chars::scan_quotes;
use crate::chars::scan_stops;

verus! {

/// The `k`-th quotation span of `t` (its 2k-th quotation mark opening,
/// its 2k+1-st closing) exists and strictly surrounds position `p`.
pub open spec fn span_contains(t: Seq<char>, k: int, p: int) -> bool {
    2 * k + 1 < quote_positions(t).len() && quote_positions(t)[2 * k] < p < quote_positions(
        t,
    )[2 * k + 1]
}

/// `p` lies strictly inside a quotation span: some pair of quotation
/// marks surrounds it.
pub open spec fn in_quote_span(t: Seq<char>, p: int) -> bool {
    exists|k: int| 0 <= k && #[trigger] span_contains(t, k, p)
}

/// The genuine boundaries contributed by the first `n` terminators:
/// position + 1 of each that is not suppressed, kept only strictly
/// inside the text (a boundary at the very end merges with the sentinel).
pub open spec fn inner_boundaries_upto(t: Seq<char>, n: int) -> Seq<int>
    decreases n,
{
    if n <= 0 {
        Seq::empty()
    } else {
        inner_boundaries_upto(t, n - 1) + ({
            let s = stop_positions(t)[n - 1];
            if !in_quote_span(t, s) && s + 1 < t.len() {
                seq![s + 1]
            } else {
                Seq::<int>::empty()
            }
        })
    }
}

pub open spec fn inner_boundaries(t: Seq<char>) -> Seq<int> {
    inner_boundaries_upto(t, stop_positions(t).len() as int)
}

/// The ordered boundary set of a text: 0, the genuine terminator
/// boundaries, and the text length.
pub open spec fn boundaries_spec(t: Seq<char>) -> Seq<int> {
    if t.len() == 0 {
        seq![0int]
    } else {
        seq![0int] + inner_boundaries(t) + seq![t.len() as int]
    }
}

/// What the genuine inner boundaries are: exactly `stop + 1` for the
/// unsuppressed terminators that do not touch the end of the text, in
/// strictly increasing order, strictly inside the text.
pub proof fn lemma_inner_upto(t: Seq<char>, n: int)
    requires
        0 <= n <= stop_positions(t).len(),
    ensures
        forall|i: int|
            0 <= i < inner_boundaries_upto(t, n).len() ==> exists|j: int|
                0 <= j < n && #[trigger] inner_boundaries_upto(t, n)[i] == stop_positions(t)[j]
                    + 1 && !in_quote_span(t, stop_positions(t)[j]) && stop_positions(t)[j] + 1
                    < t.len(),
        forall|j: int|
            0 <= j < n && !in_quote_span(t, #[trigger] stop_positions(t)[j]) && stop_positions(
                t,
            )[j] + 1 < t.len() ==> inner_boundaries_upto(t, n).contains(stop_positions(t)[j] + 1),
        forall|i1: int, i2: int|
            0 <= i1 < i2 < inner_boundaries_upto(t, n).len() ==> inner_boundaries_upto(t, n)[i1]
                < inner_boundaries_upto(t, n)[i2],
        forall|i: int|
            0 <= i < inner_boundaries_upto(t, n).len() ==> 0 < #[trigger] inner_boundaries_upto(
                t,
                n,
            )[i] < t.len(),
    decreases n,
{
    if n > 0 {
        lemma_inner_upto(t, n - 1);
        lemma_positions_of(t, |c: char| spec_is_terminator(c));
        let prev = inner_boundaries_upto(t, n - 1);
        let cur = inner_boundaries_upto(t, n);
        let s = stop_positions(t)[n - 1];
        assert forall|i: int| 0 <= i < cur.len() implies exists|j: int|
            0 <= j < n && #[trigger] cur[i] == stop_positions(t)[j] + 1 && !in_quote_span(
                t,
                stop_positions(t)[j],
            ) && stop_positions(t)[j] + 1 < t.len() by {
            if i < prev.len() {
                assert(cur[i] == prev[i]);
                let j = choose|j: int|
                    0 <= j < n - 1 && prev[i] == stop_positions(t)[j] + 1 && !in_quote_span(
                        t,
                        stop_positions(t)[j],
                    ) && stop_positions(t)[j] + 1 < t.len();
                assert(0 <= j < n && cur[i] == stop_positions(t)[j] + 1 && !in_quote_span(
                    t,
                    stop_positions(t)[j],
                ) && stop_positions(t)[j] + 1 < t.len());
            } else {
                assert(!in_quote_span(t, s) && s + 1 < t.len());
                assert(cur[i] == s + 1);
                assert(0 <= n - 1 < n && cur[i] == stop_positions(t)[n - 1] + 1);
            }
        }
        assert forall|j: int|
            0 <= j < n && !in_quote_span(t, #[trigger] stop_positions(t)[j]) && stop_positions(
                t,
            )[j] + 1 < t.len() implies cur.contains(stop_positions(t)[j] + 1) by {
            if j < n - 1 {
                assert(prev.contains(stop_positions(t)[j] + 1));
                let i = choose|i: int|
                    0 <= i < prev.len() && prev[i] == stop_positions(t)[j] + 1;
                assert(cur[i] == stop_positions(t)[j] + 1);
            } else {
                assert(cur[cur.len() - 1] == s + 1);
            }
        }
        assert forall|i1: int, i2: int| 0 <= i1 < i2 < cur.len() implies cur[i1] < cur[i2] by {
            if i2 < prev.len() {
                assert(cur[i1] == prev[i1] && cur[i2] == prev[i2]);
            } else {
                assert(cur[i2] == s + 1);
                assert(cur[i1] == prev[i1]);
                let j = choose|j: int|
                    0 <= j < n - 1 && prev[i1] == stop_positions(t)[j] + 1 && !in_quote_span(
                        t,
                        stop_positions(t)[j],
                    ) && stop_positions(t)[j] + 1 < t.len();
                assert(stop_positions(t)[j] < s);
            }
        }
    }
}

/// The boundary set is well formed: it starts at 0, ends at the text
/// length, and is strictly increasing within the text's range.
pub proof fn lemma_boundaries_wf(t: Seq<char>)
    ensures
        boundaries_spec(t).len() >= 1,
        boundaries_spec(t)[0] == 0,
        boundaries_spec(t).last() == t.len(),
        forall|j: int|
            0 <= j < boundaries_spec(t).len() ==> 0 <= #[trigger] boundaries_spec(t)[j] <= t.len(),
        forall|j1: int, j2: int|
            0 <= j1 < j2 < boundaries_spec(t).len() ==> boundaries_spec(t)[j1] < boundaries_spec(
                t,
            )[j2],
{
    let bs = boundaries_spec(t);
    if t.len() == 0 {
        assert(bs[0] == 0);
    } else {
        let nstops = stop_positions(t).len() as int;
        lemma_inner_upto(t, nstops);
        let inner = inner_boundaries(t);
        assert(bs[0] == 0);
        assert(bs.last() == t.len());
        assert forall|j: int| 0 <= j < bs.len() implies 0 <= #[trigger] bs[j] <= t.len() by {
            if 1 <= j < bs.len() - 1 {
                assert(bs[j] == inner[j - 1]);
            }
        }
        assert forall|j1: int, j2: int| 0 <= j1 < j2 < bs.len() implies bs[j1] < bs[j2] by {
            if 1 <= j1 && j2 < bs.len() - 1 {
                assert(bs[j1] == inner[j1 - 1] && bs[j2] == inner[j2 - 1]);
            } else if j1 == 0 && j2 < bs.len() - 1 {
                assert(bs[j2] == inner[j2 - 1]);
            } else if 1 <= j1 && j2 == bs.len() - 1 {
                assert(bs[j1] == inner[j1 - 1]);
            }
        }
    }
}

/// The monotone span cursor finds the one span that can still contain
/// the current terminator: once every span that closed earlier is
/// passed, containment in the span under the cursor decides suppression.
pub proof fn lemma_cursor_span(t: Seq<char>, cur: int, s: int)
    requires
        cur % 2 == 0,
        0 <= cur <= quote_positions(t).len(),
        forall|k: int|
            0 <= k && 2 * k + 1 < cur ==> #[trigger] quote_positions(t)[2 * k + 1] < s,
        cur + 2 > quote_positions(t).len() || quote_positions(t)[cur + 1] >= s,
    ensures
        in_quote_span(t, s) <==> (cur + 1 < quote_positions(t).len() && quote_positions(t)[cur] < s
            < quote_positions(t)[cur + 1]),
{
    let qp = quote_positions(t);
    lemma_positions_of(t, |c: char| spec_is_quote_mark(c));
    if cur + 1 < qp.len() && qp[cur] < s < qp[cur + 1] {
        let k = cur / 2;
        assert(span_contains(t, k, s));
    }
    if in_quote_span(t, s) {
        let k = choose|k: int| 0 <= k && #[trigger] span_contains(t, k, s);
        if 2 * k + 1 < cur {
            assert(qp[2 * k + 1] < s);
        } else {
            assert(2 * k >= cur);
            if 2 * k > cur {
                assert(cur + 2 <= 2 * k);
                assert(cur + 1 < qp.len());
                assert(qp[cur + 1] >= s);
                if cur + 1 < 2 * k {
                    assert(qp[cur + 1] < qp[2 * k]);
                }
                assert(qp[2 * k] >= s);
            }
        }
    }
}

/// The ordered set of genuine sentence boundaries of a text, bracketed
/// by the sentinels 0 and the text's character length.
pub fn classify_boundaries(fragment: &str) -> (r: Vec<usize>)
    ensures
        r@.map_values(|b: usize| b as int) == boundaries_spec(fragment@),
{
    let ghost t = fragment@;
    let n = fragment.unicode_len();
    let quotes = scan_quotes(fragment);
    let stops = scan_stops(fragment);
    let qlen = quotes.len();
    let mut r: Vec<usize> = Vec::new();
    r.push(0);
    if n == 0 {
        proof {
            lemma_positions_of(t, |c: char| spec_is_terminator(c));
            assert(stop_positions(t).len() == 0) by {
                if stop_positions(t).len() > 0 {
                    assert(0 <= stop_positions(t)[0] < t.len());
                }
            }
            assert(r@.map_values(|b: usize| b as int) =~= boundaries_spec(t));
        }
        return r;
    }
    let mut cursor: usize = 0;
    let mut si: usize = 0;
    while si < stops.len()
        invariant
            t == fragment@,
            n == t.len(),
            n > 0,
            quotes@.map_values(|p: usize| p as int) == quote_positions(t),
            stops@.map_values(|p: usize| p as int) == stop_positions(t),
            qlen == quotes@.len(),
            si <= stops@.len(),
            cursor % 2 == 0,
            cursor <= qlen,
            forall|k: int|
                0 <= k && 2 * k + 1 < cursor && si < stops@.len()
                    ==> #[trigger] quote_positions(t)[2 * k + 1] < stops@[si as int],
            r@.map_values(|b: usize| b as int) == seq![0int] + inner_boundaries_upto(
                t,
                si as int,
            ),
        decreases stops@.len() - si,
    {
        let s = stops[si];
        proof {
            lemma_positions_of(t, |c: char| spec_is_terminator(c));
            assert(stop_positions(t)[si as int] == s as int);
            assert(0 <= s < t.len());
        }
        while qlen - cursor >= 2 && quotes[cursor + 1] < s
            invariant
                t == fragment@,
                quotes@.map_values(|p: usize| p as int) == quote_positions(t),
                qlen == quotes@.len(),
                cursor % 2 == 0,
                cursor <= qlen,
                forall|k: int|
                    0 <= k && 2 * k + 1 < cursor ==> #[trigger] quote_positions(t)[2 * k + 1]
                        < s as int,
            decreases qlen - cursor,
        {
            proof {
                assert(quote_positions(t)[cursor + 1] == quotes@[cursor + 1] as int);
                assert forall|k: int| 0 <= k && 2 * k + 1 < cursor + 2 implies #[trigger]
                    quote_positions(t)[2 * k + 1] < s as int by {
                    if 2 * k + 1 == cursor + 1 {
                        assert(quote_positions(t)[cursor + 1] < s as int);
                    }
                }
            }
            cursor = cursor + 2;
        }
        let mut suppressed = false;
        if cursor + 1 < qlen {
            let qa = quotes[cursor];
            let qb = quotes[cursor + 1];
            if qa < s && s < qb {
                suppressed = true;
            }
        }
        proof {
            assert(cursor + 1 < qlen ==> quote_positions(t)[cursor as int] == quotes@[cursor as int]
                as int && quote_positions(t)[cursor as int + 1] == quotes@[cursor as int + 1]
                as int);
            lemma_cursor_span(t, cursor as int, s as int);
            assert(suppressed == in_quote_span(t, s as int));
        }
        if !suppressed && s + 1 < n {
            r.push(s + 1);
            proof {
                assert(r@.map_values(|b: usize| b as int) =~= seq![0int]
                    + inner_boundaries_upto(t, si as int) + seq![s as int + 1]);
                assert(inner_boundaries_upto(t, si as int + 1) == inner_boundaries_upto(
                    t,
                    si as int,
                ) + seq![s as int + 1]);
                assert(seq![0int] + inner_boundaries_upto(t, si as int) + seq![s as int + 1]
                    =~= seq![0int] + inner_boundaries_upto(t, si as int + 1));
            }
        } else {
            proof {
                assert(inner_boundaries_upto(t, si as int + 1) =~= inner_boundaries_upto(
                    t,
                    si as int,
                ));
            }
        }
        proof {
            lemma_positions_of(t, |c: char| spec_is_terminator(c));
            if si + 1 < stops@.len() {
                assert(stop_positions(t)[si as int] < stop_positions(t)[si as int + 1]);
            }
        }
        si = si + 1;
    }
    r.push(n);
    proof {
        assert(r@.map_values(|b: usize| b as int) =~= seq![0int] + inner_boundaries(t) + seq![
            t.len() as int,
        ]);
    }
    r
}

} // verus!
