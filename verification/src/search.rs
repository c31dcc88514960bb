//! Building a search request and reading its result pages.
//!
//! The query normal form collapses runs of spaces, writes the survivors
//! as `+`, and lowercases; the URL is plain concatenation around the
//! page number.  Link extraction from result markup goes through
//! scraper; the links of all pages are then deduplicated, first
//! occurrence first.

use vstd::prelude::*;

verus! {

/// Runs of spaces collapse to one; spaces before any other character
/// appeared are dropped.
pub open spec fn collapse_spaces(s: Seq<char>) -> Seq<char>
    decreases s.len(),
{
    if s.len() == 0 {
        Seq::empty()
    } else {
        let p = collapse_spaces(s.drop_last());
        if s.last() == ' ' {
            if p.len() > 0 && p.last() != ' ' {
                p.push(' ')
            } else {
                p
            }
        } else {
            p.push(s.last())
        }
    }
}

/// Every space written as `+`.
pub open spec fn plus_for_space(s: Seq<char>) -> Seq<char> {
    s.map_values(|c: char| if c == ' ' { '+' } else { c })
}

/// What lowercasing a text yields.  A function of the characters alone.
pub uninterp spec fn lower_of(s: Seq<char>) -> Seq<char>;

/// Relies on str::to_lowercase: the result depends on the characters
/// alone.
#[verifier::external_body]
fn lowercase(s: &str) -> (r: String)
    ensures
        r@ == lower_of(s@),
{
    s.to_lowercase()
}

/// The normal form of a search query: spaces collapsed, written as `+`,
/// lowercased.
pub open spec fn normal_query(q: Seq<char>) -> Seq<char> {
    lower_of(plus_for_space(collapse_spaces(q)))
}

/// Normalize a query for use in a search URL.
pub fn normalize_query(query: &str) -> (r: String)
    ensures
        r@ == normal_query(query@),
{
    let ghost q = query@;
    let n = query.unicode_len();
    let mut acc = String::new();
    let mut can_space = false;
    let mut i: usize = 0;
    while i < n
        invariant
            q == query@,
            n == q.len(),
            i <= n,
            acc@ == plus_for_space(collapse_spaces(q.take(i as int))),
            can_space == (collapse_spaces(q.take(i as int)).len() > 0 && collapse_spaces(
                q.take(i as int),
            ).last() != ' '),
        decreases n - i,
    {
        let c = query.get_char(i);
        proof {
            assert(q.take(i as int + 1).drop_last() =~= q.take(i as int));
            assert(q.take(i as int + 1).last() == q[i as int]);
        }
        let ghost p = collapse_spaces(q.take(i as int));
        if c == ' ' {
            if can_space {
                acc.append("+");
                proof {
                    reveal_strlit("+");
                    assert(acc@ =~= plus_for_space(p.push(' ')));
                }
                can_space = false;
            }
        } else {
            let piece = query.substring_char(i, i + 1);
            proof {
                assert(piece@ =~= seq![q[i as int]]);
            }
            acc.append(piece);
            proof {
                assert(acc@ =~= plus_for_space(p.push(q[i as int])));
            }
            can_space = true;
        }
        i = i + 1;
    }
    proof {
        assert(q.take(n as int) =~= q);
    }
    lowercase(acc.as_str())
}

/// The decimal digit characters.
pub open spec fn digit_char(d: nat) -> char {
    if d == 0 {
        '0'
    } else if d == 1 {
        '1'
    } else if d == 2 {
        '2'
    } else if d == 3 {
        '3'
    } else if d == 4 {
        '4'
    } else if d == 5 {
        '5'
    } else if d == 6 {
        '6'
    } else if d == 7 {
        '7'
    } else if d == 8 {
        '8'
    } else {
        '9'
    }
}

/// The decimal digits of `n`, most significant first.
pub open spec fn decimal_digits(n: nat) -> Seq<char>
    decreases n,
{
    if n < 10 {
        seq![digit_char(n)]
    } else {
        decimal_digits(n / 10).push(digit_char(n % 10))
    }
}

fn push_digit(out: &mut String, d: usize)
    requires
        d < 10,
    ensures
        final(out)@ == old(out)@ + seq![digit_char(d as nat)],
{
    proof {
        reveal_strlit("0");
        reveal_strlit("1");
        reveal_strlit("2");
        reveal_strlit("3");
        reveal_strlit("4");
        reveal_strlit("5");
        reveal_strlit("6");
        reveal_strlit("7");
        reveal_strlit("8");
        reveal_strlit("9");
    }
    if d == 0 {
        out.append("0");
    } else if d == 1 {
        out.append("1");
    } else if d == 2 {
        out.append("2");
    } else if d == 3 {
        out.append("3");
    } else if d == 4 {
        out.append("4");
    } else if d == 5 {
        out.append("5");
    } else if d == 6 {
        out.append("6");
    } else if d == 7 {
        out.append("7");
    } else if d == 8 {
        out.append("8");
    } else {
        out.append("9");
    }
    proof {
        assert(final(out)@ =~= old(out)@ + seq![digit_char(d as nat)]);
    }
}

fn push_decimal(out: &mut String, n: usize)
    ensures
        final(out)@ == old(out)@ + decimal_digits(n as nat),
    decreases n,
{
    if n < 10 {
        push_digit(out, n);
    } else {
        push_decimal(out, n / 10);
        push_digit(out, n % 10);
        proof {
            assert(final(out)@ =~= old(out)@ + decimal_digits(n as nat));
        }
    }
}

/// The search URL for one result page of a normalized query.
pub open spec fn search_url_spec(q: Seq<char>, page: nat) -> Seq<char> {
    "https://www.bbc.co.uk/search/more?page="@ + decimal_digits(page) + "&q="@ + q
        + "&filter=news&suggid="@
}

/// Build the search URL for a raw query and a page number.
pub fn build_search_url(query: &str, page: usize) -> (r: String)
    ensures
        r@ == search_url_spec(normal_query(query@), page as nat),
{
    let q = normalize_query(query);
    let mut url = String::from_str("https://www.bbc.co.uk/search/more?page=");
    push_decimal(&mut url, page);
    url.append("&q=");
    url.append(q.as_str());
    url.append("&filter=news&suggid=");
    proof {
        assert(url@ =~= search_url_spec(normal_query(query@), page as nat));
    }
    url
}

/// What link extraction finds in a search page's markup: the link
/// targets of the result anchors, in document order.  A function of the
/// markup alone.
pub uninterp spec fn links_of(markup: Seq<char>) -> Seq<Seq<char>>;

/// Relies on scraper (`Html::parse_document`, `Selector::parse`,
/// `Html::select`, `ElementRef::value`, `Element::attr`): parsing is
/// deterministic and selection runs in document order, so the `href`
/// attributes of the `.media-text a` anchors are a function of the
/// markup alone.
#[verifier::external_body]
fn page_links(markup: &str) -> (r: Vec<String>)
    ensures
        r.deep_view() == links_of(markup@),
{
    let doc = scraper::Html::parse_document(markup);
    let mut out: Vec<String> = Vec::new();
    if let Ok(sel) = scraper::Selector::parse(".media-text a") {
        for el in doc.select(&sel) {
            if let Some(href) = el.value().attr("href") {
                out.push(String::from(href));
            }
        }
    }
    out
}

/// The links of all pages, in page order.
pub open spec fn links_of_pages(pages: Seq<Seq<char>>) -> Seq<Seq<char>>
    decreases pages.len(),
{
    if pages.len() == 0 {
        Seq::empty()
    } else {
        links_of_pages(pages.drop_last()) + links_of(pages.last())
    }
}

/// Each link kept at its first occurrence only.
pub open spec fn dedup_first(ls: Seq<Seq<char>>) -> Seq<Seq<char>>
    decreases ls.len(),
{
    if ls.len() == 0 {
        Seq::empty()
    } else {
        let p = dedup_first(ls.drop_last());
        if p.contains(ls.last()) {
            p
        } else {
            p.push(ls.last())
        }
    }
}

fn contains_string(v: &Vec<String>, x: &String) -> (r: bool)
    ensures
        r == v.deep_view().contains(x@),
{
    let mut i: usize = 0;
    while i < v.len()
        invariant
            i <= v@.len(),
            forall|j: int| 0 <= j < i ==> v.deep_view()[j] != x@,
        decreases v@.len() - i,
    {
        if v[i].eq(x) {
            proof {
                assert(v.deep_view()[i as int] == x@);
            }
            return true;
        }
        i = i + 1;
    }
    false
}

/// The distinct links found on the given search-result pages, in order
/// of first appearance.
pub fn search_links(pages: &Vec<String>) -> (r: Vec<String>)
    ensures
        r.deep_view() == dedup_first(links_of_pages(pages.deep_view())),
{
    let ghost pg = pages.deep_view();
    let mut all: Vec<String> = Vec::new();
    let mut i: usize = 0;
    while i < pages.len()
        invariant
            pg == pages.deep_view(),
            i <= pages@.len(),
            all.deep_view() == links_of_pages(pg.take(i as int)),
        decreases pages@.len() - i,
    {
        let mut found = page_links(pages[i].as_str());
        let ghost before = all.deep_view();
        let ghost extra = found.deep_view();
        let mut j: usize = 0;
        while j < found.len()
            invariant
                extra == found.deep_view(),
                j <= found@.len(),
                all.deep_view() == before + extra.take(j as int),
            decreases found@.len() - j,
        {
            let ghost sofar = all.deep_view();
            all.push(found[j].clone());
            proof {
                assert(all.deep_view() =~~= sofar.push(extra[j as int]));
                assert((before + extra.take(j as int + 1)) =~= (before + extra.take(
                    j as int,
                )).push(extra[j as int]));
                assert(all.deep_view() =~~= before + extra.take(j as int + 1));
            }
            j = j + 1;
        }
        proof {
            assert(extra.take(found@.len() as int) =~= extra);
            assert(pg.take(i as int + 1).drop_last() =~= pg.take(i as int));
            assert(pg.take(i as int + 1).last() == pg[i as int]);
            assert(all.deep_view() =~~= links_of_pages(pg.take(i as int + 1)));
        }
        i = i + 1;
    }
    proof {
        assert(pg.take(pages@.len() as int) =~= pg);
    }
    let ghost ls = all.deep_view();
    let mut r: Vec<String> = Vec::new();
    let mut k: usize = 0;
    while k < all.len()
        invariant
            ls == all.deep_view(),
            k <= all@.len(),
            r.deep_view() == dedup_first(ls.take(k as int)),
        decreases all@.len() - k,
    {
        proof {
            assert(ls.take(k as int + 1).drop_last() =~= ls.take(k as int));
            assert(ls.take(k as int + 1).last() == ls[k as int]);
        }
        if !contains_string(&r, &all[k]) {
            r.push(all[k].clone());
            proof {
                assert(r.deep_view() =~~= dedup_first(ls.take(k as int + 1)));
            }
        } else {
            proof {
                assert(r.deep_view() =~~= dedup_first(ls.take(k as int + 1)));
            }
        }
        k = k + 1;
    }
    proof {
        assert(ls.take(all@.len() as int) =~= ls);
    }
    r
}

} // verus!
