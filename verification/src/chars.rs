//! Character classes and position scans.
//!
//! The classifier works over the ordered positions of quotation marks and
//! of sentence terminators in a text; `positions_of` is the mathematical
//! model of one such scan and the exec scanners are proved against it.

use vstd::prelude::*;

verus! {

/// A character that can end a sentence.
pub open spec fn spec_is_terminator(c: char) -> bool {
    c == '.' || c == '!' || c == '?'
}

/// The quotation-mark character delimiting quoted speech.
pub open spec fn spec_is_quote_mark(c: char) -> bool {
    c == '"'
}

#[verifier::when_used_as_spec(spec_is_terminator)]
pub fn is_terminator(c: char) -> (r: bool)
    ensures
        r == spec_is_terminator(c),
{
    c == '.' || c == '!' || c == '?'
}

#[verifier::when_used_as_spec(spec_is_quote_mark)]
pub fn is_quote_mark(c: char) -> (r: bool)
    ensures
        r == spec_is_quote_mark(c),
{
    c == '"'
}

/// The positions, in increasing order, of the characters of `t`
/// satisfying `pred`.
pub open spec fn positions_of(t: Seq<char>, pred: spec_fn(char) -> bool) -> Seq<int>
    decreases t.len(),
{
    if t.len() == 0 {
        Seq::empty()
    } else {
        positions_of(t.drop_last(), pred) + if pred(t.last()) {
            seq![t.len() - 1]
        } else {
            Seq::<int>::empty()
        }
    }
}

/// The scan is sound and complete: it lists exactly the positions whose
/// character satisfies `pred`, in strictly increasing order.
pub proof fn lemma_positions_of(t: Seq<char>, pred: spec_fn(char) -> bool)
    ensures
        forall|i: int|
            0 <= i < positions_of(t, pred).len() ==> 0 <= #[trigger] positions_of(t, pred)[i]
                < t.len() && pred(t[positions_of(t, pred)[i]]),
        forall|i: int, j: int|
            0 <= i < j < positions_of(t, pred).len() ==> positions_of(t, pred)[i] < positions_of(
                t,
                pred,
            )[j],
        forall|p: int|
            0 <= p < t.len() && pred(t[p]) ==> #[trigger] positions_of(t, pred).contains(p),
    decreases t.len(),
{
    if t.len() > 0 {
        lemma_positions_of(t.drop_last(), pred);
        let prev = positions_of(t.drop_last(), pred);
        let cur = positions_of(t, pred);
        assert forall|p: int| 0 <= p < t.len() && pred(t[p]) implies #[trigger] cur.contains(
            p,
        ) by {
            if p < t.len() - 1 {
                assert(t.drop_last()[p] == t[p]);
                assert(prev.contains(p));
                let i = choose|i: int| 0 <= i < prev.len() && prev[i] == p;
                assert(0 <= i < cur.len() && cur[i] == p);
            } else {
                assert(cur[cur.len() - 1] == p);
            }
        }
        assert forall|i: int| 0 <= i < cur.len() implies 0 <= #[trigger] cur[i] < t.len() && pred(
            t[cur[i]],
        ) by {
            if i < prev.len() {
                assert(cur[i] == prev[i]);
                assert(t.drop_last()[prev[i]] == t[prev[i]]);
            }
        }
    }
}

/// Extending the text by one character appends its position when it
/// matches; this drives the loop invariants of the exec scanners.
pub proof fn lemma_positions_of_step(t: Seq<char>, i: int, pred: spec_fn(char) -> bool)
    requires
        0 <= i < t.len(),
    ensures
        positions_of(t.take(i + 1), pred) == positions_of(t.take(i), pred) + if pred(t[i]) {
            seq![i]
        } else {
            Seq::<int>::empty()
        },
{
    let a = t.take(i + 1);
    assert(a.drop_last() =~= t.take(i));
    assert(a.last() == t[i]);
    if pred(t[i]) {
        assert(positions_of(a, pred) == positions_of(t.take(i), pred) + seq![i]);
    } else {
        assert(positions_of(a, pred) =~= positions_of(t.take(i), pred));
    }
}

/// The positions of the quotation marks of `t`, in increasing order.
pub open spec fn quote_positions(t: Seq<char>) -> Seq<int> {
    positions_of(t, |c: char| spec_is_quote_mark(c))
}

/// The positions of the sentence terminators of `t`, in increasing order.
pub open spec fn stop_positions(t: Seq<char>) -> Seq<int> {
    positions_of(t, |c: char| spec_is_terminator(c))
}

/// Scan once, recording the positions of every quotation mark.
pub fn scan_quotes(s: &str) -> (r: Vec<usize>)
    ensures
        r@.map_values(|p: usize| p as int) == quote_positions(s@),
{
    let n = s.unicode_len();
    let mut r: Vec<usize> = Vec::new();
    let mut i: usize = 0;
    while i < n
        invariant
            n == s@.len(),
            i <= n,
            r@.map_values(|p: usize| p as int) == positions_of(
                s@.take(i as int),
                |c: char| spec_is_quote_mark(c),
            ),
        decreases n - i,
    {
        let c = s.get_char(i);
        proof {
            lemma_positions_of_step(s@, i as int, |c: char| spec_is_quote_mark(c));
        }
        if is_quote_mark(c) {
            r.push(i);
            assert(r@.map_values(|p: usize| p as int) =~= positions_of(
                s@.take(i as int),
                |c: char| spec_is_quote_mark(c),
            ) + seq![i as int]);
        }
        i = i + 1;
    }
    proof {
        assert(s@.take(n as int) =~= s@);
    }
    r
}

/// Scan once, recording the positions of every sentence terminator.
pub fn scan_stops(s: &str) -> (r: Vec<usize>)
    ensures
        r@.map_values(|p: usize| p as int) == stop_positions(s@),
{
    let n = s.unicode_len();
    let mut r: Vec<usize> = Vec::new();
    let mut i: usize = 0;
    while i < n
        invariant
            n == s@.len(),
            i <= n,
            r@.map_values(|p: usize| p as int) == positions_of(
                s@.take(i as int),
                |c: char| spec_is_terminator(c),
            ),
        decreases n - i,
    {
        let c = s.get_char(i);
        proof {
            lemma_positions_of_step(s@, i as int, |c: char| spec_is_terminator(c));
        }
        if is_terminator(c) {
            r.push(i);
            assert(r@.map_values(|p: usize| p as int) =~= positions_of(
                s@.take(i as int),
                |c: char| spec_is_terminator(c),
            ) + seq![i as int]);
        }
        i = i + 1;
    }
    proof {
        assert(s@.take(n as int) =~= s@);
    }
    r
}

} // verus!
