//! The segmenter and the quote filter.
//!
//! The segmenter slices the text between consecutive boundaries, trims
//! each slice, and keeps the slices longer than one character (which is
//! how the extra dots of an ellipsis collapse away).  The quote filter
//! labels a sentence quote-bearing when it contains any quotation mark.

use vstd::prelude::*;
use crate::chars::spec_is_quote_mark;
use crate::chars::is_quote_mark;
use crate::classify::boundaries_spec;
use crate::classify::classify_boundaries;
use crate::classify::lemma_boundaries_wf;
use crate::trim::trim_spec;
use crate::trim::trim_slice;

verus! {

/// The sentences taken from the first `n` boundaries of `bs`: for each
/// pair of consecutive boundaries, the trimmed slice between them, kept
/// when longer than one character.
pub open spec fn sentences_upto(t: Seq<char>, bs: Seq<int>, n: int) -> Seq<Seq<char>>
    decreases n,
{
    if n < 2 {
        Seq::empty()
    } else {
        sentences_upto(t, bs, n - 1) + ({
            let s = trim_spec(t.subrange(bs[n - 2], bs[n - 1]));
            if s.len() > 1 {
                seq![s]
            } else {
                Seq::<Seq<char>>::empty()
            }
        })
    }
}

/// The ordered sequence of sentences of a text.
pub open spec fn seg_spec(t: Seq<char>) -> Seq<Seq<char>> {
    sentences_upto(t, boundaries_spec(t), boundaries_spec(t).len() as int)
}

/// Split a text into its sentences: trimmed, each longer than one
/// character, in their original order, as independent copies.
pub fn extract_sentences(fragment: &str) -> (r: Vec<String>)
    ensures
        r.deep_view() == seg_spec(fragment@),
{
    let ghost t = fragment@;
    let n = fragment.unicode_len();
    let bounds = classify_boundaries(fragment);
    proof {
        lemma_boundaries_wf(t);
    }
    let ghost bsg = bounds@.map_values(|b: usize| b as int);
    let mut r: Vec<String> = Vec::new();
    let mut i: usize = 1;
    while i < bounds.len()
        invariant
            t == fragment@,
            n == t.len(),
            bounds@.map_values(|b: usize| b as int) == bsg,
            bsg == boundaries_spec(t),
            1 <= i <= bounds@.len(),
            forall|j: int| 0 <= j < bsg.len() ==> 0 <= #[trigger] bsg[j] <= t.len(),
            forall|j1: int, j2: int| 0 <= j1 < j2 < bsg.len() ==> bsg[j1] < bsg[j2],
            r.deep_view() == sentences_upto(t, bsg, i as int),
        decreases bounds@.len() - i,
    {
        let lo = bounds[i - 1];
        let hi = bounds[i];
        proof {
            assert(bsg[i - 1] == lo as int && bsg[i as int] == hi as int);
        }
        let slice = fragment.substring_char(lo, hi);
        let sentence = trim_slice(slice);
        proof {
            assert(sentences_upto(t, bsg, i as int + 1) == sentences_upto(t, bsg, i as int) + (
            if trim_spec(t.subrange(bsg[i - 1], bsg[i as int])).len() > 1 {
                seq![trim_spec(t.subrange(bsg[i - 1], bsg[i as int]))]
            } else {
                Seq::<Seq<char>>::empty()
            }));
        }
        if sentence.unicode_len() > 1 {
            r.push(sentence.to_owned());
            proof {
                assert(r.deep_view() =~= sentences_upto(t, bsg, i as int + 1));
            }
        } else {
            proof {
                assert(r.deep_view() =~= sentences_upto(t, bsg, i as int + 1));
            }
        }
        i = i + 1;
    }
    r
}

/// A sentence is quote-bearing when it contains at least one quotation
/// mark, paired or not.
pub open spec fn quote_bearing(s: Seq<char>) -> bool {
    exists|i: int| 0 <= i < s.len() && spec_is_quote_mark(#[trigger] s[i])
}

/// Whether a sentence contains at least one quotation mark.
pub fn has_quote(fragment: &str) -> (r: bool)
    ensures
        r == quote_bearing(fragment@),
{
    let n = fragment.unicode_len();
    let mut i: usize = 0;
    while i < n
        invariant
            n == fragment@.len(),
            i <= n,
            forall|j: int| 0 <= j < i ==> !spec_is_quote_mark(#[trigger] fragment@[j]),
        decreases n - i,
    {
        if is_quote_mark(fragment.get_char(i)) {
            proof {
                assert(spec_is_quote_mark(fragment@[i as int]));
            }
            return true;
        }
        i = i + 1;
    }
    false
}

} // verus!
