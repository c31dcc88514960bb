use twocents::Article;
use twocents::article_from_markup;
use twocents::build_search_url;
use twocents::collect_quotes;
use twocents::normalize_query;
use twocents::search_links;

#[test]
fn test_article_from_starts_empty() {
    let article = Article::from(String::from("http://example.org/a"));
    assert_eq!(article.url, "http://example.org/a");
    assert!(article.quotes.is_empty());
}

#[test]
fn test_normalize_query_collapses_and_lowercases() {
    assert_eq!(normalize_query("Boris  Johnson"), "boris+johnson");
    assert_eq!(normalize_query("  Boris Johnson "), "boris+johnson+");
    assert_eq!(normalize_query("BORIS"), "boris");
}

#[test]
fn test_build_search_url() {
    assert_eq!(
        build_search_url("Boris  Johnson", 12),
        "https://www.bbc.co.uk/search/more?page=12&q=boris+johnson&filter=news&suggid="
    );
}

#[test]
fn test_collect_quotes_keeps_quote_bearing_sentences() {
    let paragraphs = vec![
        String::from("He said \"stop. now\" today. More text."),
        String::from("Nothing here. She replied \"fine\"."),
    ];
    assert_eq!(
        collect_quotes(&paragraphs),
        vec![
            "He said \"stop. now\" today.",
            "She replied \"fine\".",
        ]
    );
}

#[test]
fn test_article_from_markup_extracts_story_quotes() {
    let markup = "<html><body><div id=\"page\">\
                  <p>He said \"stop. now\" today. More text.</p>\
                  <p>Plain paragraph without quotes.</p>\
                  </div></body></html>";
    let article = article_from_markup(String::from("http://example.org/story"), markup);
    assert_eq!(article.url, "http://example.org/story");
    assert_eq!(article.quotes, vec!["He said \"stop. now\" today."]);
}

#[test]
fn test_search_links_dedupes_across_pages() {
    let page_one = String::from(
        "<html><body>\
         <div class=\"media-text\"><a href=\"http://x/1\">A</a></div>\
         <div class=\"media-text\"><a href=\"http://x/2\">B</a></div>\
         </body></html>",
    );
    let page_two = String::from(
        "<html><body>\
         <div class=\"media-text\"><a href=\"http://x/2\">B</a>\
         <a href=\"http://x/3\">C</a></div>\
         </body></html>",
    );
    let pages = vec![page_one, page_two];
    assert_eq!(
        search_links(&pages),
        vec!["http://x/1", "http://x/2", "http://x/3"]
    );
}
