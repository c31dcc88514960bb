//! Quote-aware sentence segmentation for attributing quoted speech.
//!
//! The core splits prose into sentences while refusing to treat a
//! terminator (`.`, `!`, `?`) as a sentence boundary when it falls
//! strictly inside a quotation span.  Around it sit the pure parts of a
//! small collection pipeline: query normalization and search-URL
//! building, link gathering from search-result markup, and the
//! per-article retention of quote-bearing sentences.

mod article;
mod chars;
mod classify;
mod laws;
mod search;
mod segment;
mod spans;
mod trim;

pub use article::Article;
pub use article::article_from_markup;
pub use article::collect_quotes;
pub use chars::is_terminator;
pub use chars::is_quote_mark;
pub use classify::classify_boundaries;
pub use search::build_search_url;
pub use search::normalize_query;
pub use search::search_links;
pub use segment::extract_sentences;
pub use segment::has_quote;
