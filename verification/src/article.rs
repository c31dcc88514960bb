//! Attributed quotes: the article record and the per-document
//! collection step that retains the quote-bearing sentences of each
//! paragraph.

use vstd::prelude::*;
use crate::segment::seg_spec;
use crate::segment::quote_bearing;
use crate::segment::extract_sentences;
use crate::segment::has_quote;

verus! {

/// A source document identified by its URL, with the quotes attributed
/// to it.
pub struct Article {
    pub url: String,
    pub quotes: Vec<String>,
}

impl Article {
    /// A fresh record for a source URL, with no quotes collected yet.
    pub fn from(url: String) -> (r: Article)
        ensures
            r.url == url,
            r.quotes.deep_view() == Seq::<Seq<char>>::empty(),
    {
        Article { url, quotes: Vec::new() }
    }
}

/// The quote-bearing sentences among `ss`, in order.
pub open spec fn keep_quote_bearing(ss: Seq<Seq<char>>) -> Seq<Seq<char>>
    decreases ss.len(),
{
    if ss.len() == 0 {
        Seq::empty()
    } else {
        keep_quote_bearing(ss.drop_last()) + if quote_bearing(ss.last()) {
            seq![ss.last()]
        } else {
            Seq::<Seq<char>>::empty()
        }
    }
}

/// The quote-bearing sentences of each paragraph in turn.
pub open spec fn quotes_of_paragraphs(ps: Seq<Seq<char>>) -> Seq<Seq<char>>
    decreases ps.len(),
{
    if ps.len() == 0 {
        Seq::empty()
    } else {
        quotes_of_paragraphs(ps.drop_last()) + keep_quote_bearing(seg_spec(ps.last()))
    }
}

/// Segment every paragraph and keep each sentence that bears a quote,
/// preserving paragraph and sentence order.
pub fn collect_quotes(paragraphs: &Vec<String>) -> (r: Vec<String>)
    ensures
        r.deep_view() == quotes_of_paragraphs(paragraphs.deep_view()),
{
    let ghost ps = paragraphs.deep_view();
    let mut r: Vec<String> = Vec::new();
    let mut i: usize = 0;
    while i < paragraphs.len()
        invariant
            ps == paragraphs.deep_view(),
            i <= paragraphs@.len(),
            r.deep_view() == quotes_of_paragraphs(ps.take(i as int)),
        decreases paragraphs@.len() - i,
    {
        let sentences = extract_sentences(paragraphs[i].as_str());
        let ghost ss = seg_spec(ps[i as int]);
        let mut j: usize = 0;
        while j < sentences.len()
            invariant
                ps == paragraphs.deep_view(),
                i < ps.len(),
                sentences.deep_view() == ss,
                j <= sentences@.len(),
                r.deep_view() == quotes_of_paragraphs(ps.take(i as int)) + keep_quote_bearing(
                    ss.take(j as int),
                ),
            decreases sentences@.len() - j,
        {
            proof {
                assert(ss.take(j as int + 1).drop_last() =~= ss.take(j as int));
                assert(ss.take(j as int + 1).last() == ss[j as int]);
            }
            if has_quote(sentences[j].as_str()) {
                let ghost before = r.deep_view();
                r.push(sentences[j].clone());
                proof {
                    assert(r.deep_view() =~~= before.push(ss[j as int]));
                    assert(quote_bearing(ss[j as int]));
                    assert(keep_quote_bearing(ss.take(j as int + 1)) == keep_quote_bearing(
                        ss.take(j as int),
                    ) + seq![ss[j as int]]);
                    assert(r.deep_view() =~~= quotes_of_paragraphs(ps.take(i as int))
                        + keep_quote_bearing(ss.take(j as int + 1)));
                }
            } else {
                proof {
                    assert(r.deep_view() =~~= quotes_of_paragraphs(ps.take(i as int))
                        + keep_quote_bearing(ss.take(j as int + 1)));
                }
            }
            j = j + 1;
        }
        proof {
            assert(ss.take(sentences@.len() as int) =~= ss);
            assert(ps.take(i as int + 1).drop_last() =~= ps.take(i as int));
            assert(ps.take(i as int + 1).last() == ps[i as int]);
            assert(r.deep_view() =~~= quotes_of_paragraphs(ps.take(i as int + 1)));
        }
        i = i + 1;
    }
    proof {
        assert(ps.take(paragraphs@.len() as int) =~= ps);
    }
    r
}

/// What the story extractor finds in a page's markup: the text pieces of
/// the story paragraphs, in document order.  A function of the markup
/// alone.
pub uninterp spec fn paragraphs_of(markup: Seq<char>) -> Seq<Seq<char>>;

/// Relies on scraper (`Html::parse_document`, `Selector::parse`,
/// `Html::select`, `ElementRef::text`): parsing is deterministic and the
/// selection runs in document order, so the text pieces of the `#page p`
/// elements are a function of the markup alone.
#[verifier::external_body]
fn story_paragraphs(markup: &str) -> (r: Vec<String>)
    ensures
        r.deep_view() == paragraphs_of(markup@),
{
    let doc = scraper::Html::parse_document(markup);
    let mut out: Vec<String> = Vec::new();
    if let Ok(sel) = scraper::Selector::parse("#page p") {
        for body in doc.select(&sel) {
            for piece in body.text() {
                out.push(String::from(piece));
            }
        }
    }
    out
}

/// The article for one source page: every quote-bearing sentence of its
/// story paragraphs, attributed to the page's URL.
pub fn article_from_markup(url: String, markup: &str) -> (r: Article)
    ensures
        r.url == url,
        r.quotes.deep_view() == quotes_of_paragraphs(paragraphs_of(markup@)),
{
    let paragraphs = story_paragraphs(markup);
    let quotes = collect_quotes(&paragraphs);
    Article { url, quotes }
}

} // verus!
