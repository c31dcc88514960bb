use twocents::classify_boundaries;
use twocents::extract_sentences;
use twocents::has_quote;

#[test]
fn test_sentence_extraction() {
    assert_eq!(
        vec!["The dog.", "Runs around"],
        extract_sentences("The dog. Runs around")
    );
}

#[test]
fn test_sentence_extraction_hanging_period() {
    assert_eq!(
        vec!["The dog.", "Runs around."],
        extract_sentences("The dog. Runs around.")
    );
}

#[test]
fn test_sentence_extraction_ellipsis() {
    assert_eq!(
        vec!["The dog.", "Runs around"],
        extract_sentences("The dog... Runs around")
    );
}

#[test]
fn test_sentence_extraction_with_quotes() {
    assert_eq!(
        vec!["The \"dog. Runs around\" does it?", "Yes"],
        extract_sentences("The \"dog. Runs around\" does it? Yes")
    );
}

#[test]
fn test_empty_text_yields_no_sentences() {
    assert_eq!(extract_sentences(""), Vec::<String>::new());
}

#[test]
fn test_quote_filter_scenarios() {
    assert!(!has_quote("Yes"));
    assert!(has_quote("The \"dog.\" said so."));
}

#[test]
fn test_boundaries_plain_text() {
    // One terminator inside the text plus the two sentinels.
    assert_eq!(classify_boundaries("The dog. Runs around"), vec![0, 8, 20]);
}

#[test]
fn test_boundaries_contain_sentinels() {
    assert_eq!(classify_boundaries(""), vec![0]);
    assert_eq!(classify_boundaries("no terminator"), vec![0, 13]);
}

#[test]
fn test_boundary_merges_with_end_sentinel() {
    // A terminator at the very end adds no duplicate boundary.
    assert_eq!(classify_boundaries("The dog."), vec![0, 8]);
}

#[test]
fn test_boundaries_suppress_quoted_terminator() {
    // The period inside the span is suppressed; the question mark after
    // the closing quote is genuine.
    assert_eq!(
        classify_boundaries("The \"dog. Runs around\" does it? Yes"),
        vec![0, 31, 35]
    );
}

#[test]
fn test_unpaired_quote_never_suppresses() {
    assert_eq!(
        vec!["He said \"stop.", "now"],
        extract_sentences("He said \"stop. now")
    );
}

#[test]
fn test_sentences_are_trimmed() {
    assert_eq!(vec!["Hi there."], extract_sentences("   Hi there.  "));
}

#[test]
fn test_positions_are_character_indices() {
    // Multi-byte characters still count as one position each.
    assert_eq!(vec!["Zürich.", "Köln"], extract_sentences("Zürich. Köln"));
}

#[test]
fn test_resegmenting_a_sentence_returns_it() {
    for text in [
        "The dog. Runs around",
        "The \"dog. Runs around\" does it? Yes",
        "The dog... Runs around",
    ] {
        for sentence in extract_sentences(text) {
            assert_eq!(extract_sentences(&sentence), vec![sentence.clone()]);
        }
    }
}
