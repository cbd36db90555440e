use soziopolis_lingq_tool::text::clean_whitespace;
use soziopolis_lingq_tool::clean::{
    absolute_url, build_clean_text, canonical_text, dedupe_lines, dedupe_similar_blocks,
    infer_section_from_url, is_excluded_article_url, is_good_teaser_candidate,
    looks_like_article_title, normalize_body_for_lingq, normalize_inline_markers, same_enough,
    should_skip_block, site_path_of, trim_chars,
};

fn strings(items: &[&str]) -> Vec<String> {
    items.iter().map(|s| s.to_string()).collect()
}

#[test]
fn canonical_text_keeps_words_in_lower_case() {
    assert_eq!(canonical_text("  Hello, World!\n  42 "), "hello world 42");
    assert_eq!(canonical_text("Ärger – über  Öl"), "ärger über öl");
    assert_eq!(canonical_text("!!!"), "");
}

#[test]
fn same_enough_ignores_punctuation_and_case() {
    assert!(same_enough("Hello, World", "hello world"));
    assert!(same_enough("hello world", "Hello, World"));
    assert!(!same_enough("Hello", "World"));
    assert!(!same_enough("", ""));
    assert!(!same_enough("...", "!!!"));
}

#[test]
fn dedupe_keeps_the_first_line_of_each_form() {
    let mut lines = strings(&["A b", "a, B!", "c", "C.", "d"]);
    dedupe_lines(&mut lines);
    assert_eq!(lines, strings(&["A b", "c", "d"]));
    let mut again = lines.clone();
    dedupe_lines(&mut again);
    assert_eq!(again, lines);
}

#[test]
fn dedupe_of_blocks_drops_repeated_paragraphs() {
    let mut blocks = strings(&["First paragraph.", "Second one", "first PARAGRAPH", ""]);
    dedupe_similar_blocks(&mut blocks);
    assert_eq!(blocks, strings(&["First paragraph.", "Second one", ""]));
}

#[test]
fn page_furniture_blocks_are_skipped() {
    assert!(should_skip_block(""));
    assert!(should_skip_block("Weitere Empfehlungen der Redaktion"));
    assert!(should_skip_block("Artikel lesen"));
    assert!(should_skip_block("ISSN 2509-5196"));
    assert!(should_skip_block("Zum Seitenanfang"));
    assert!(!should_skip_block("Ein ganz normaler Absatz."));
}

#[test]
fn relative_links_resolve_against_the_site() {
    assert_eq!(absolute_url("/texte/a.html"), "https://www.soziopolis.de/texte/a.html");
    assert_eq!(absolute_url("texte/a.html"), "https://www.soziopolis.de/texte/a.html");
    assert_eq!(absolute_url("https://example.org/x"), "https://example.org/x");
    assert_eq!(absolute_url("http://example.org/x"), "http://example.org/x");
    let once = absolute_url("essay.html");
    assert_eq!(absolute_url(&once), once);
}

#[test]
fn article_titles_need_length_and_no_navigation_label() {
    assert!(looks_like_article_title("Die Gesellschaft der Singularitäten"));
    assert!(!looks_like_article_title("Kurz"));
    assert!(!looks_like_article_title("Artikel lesen"));
    assert!(!looks_like_article_title("BESPRECHUNGEN"));
    assert!(!looks_like_article_title(&"x".repeat(221)));
    assert!(looks_like_article_title(&"x".repeat(220)));
}

#[test]
fn listing_and_service_pages_are_excluded() {
    assert!(is_excluded_article_url("https://www.soziopolis.de/texte/essay.html"));
    assert!(is_excluded_article_url("https://www.soziopolis.de/autoren/jane-doe.html"));
    assert!(is_excluded_article_url("/suche.html"));
    assert!(!is_excluded_article_url("https://www.soziopolis.de/texte/essay/some-article.html"));
    assert_eq!(site_path_of("https://www.soziopolis.de//a/b.html"), "a/b.html");
}

#[test]
fn section_is_inferred_from_the_first_path_segment() {
    assert_eq!(
        infer_section_from_url("https://www.soziopolis.de/soziales-leben/artikel.html").as_deref(),
        Some("soziales leben")
    );
    assert_eq!(infer_section_from_url("https://www.soziopolis.de/").as_deref(), Some("Latest"));
}

#[test]
fn teaser_candidates_must_be_long_and_not_repeat_the_link() {
    let link = "Ein Titel";
    assert!(is_good_teaser_candidate("Eine längere Beschreibung des Textes.", link));
    assert!(!is_good_teaser_candidate("Zu kurz", link));
    assert!(!is_good_teaser_candidate("Von Jane Doe und John Roe", link));
    assert!(!is_good_teaser_candidate("Essay | 12.03.2026 und mehr", link));
    assert!(!is_good_teaser_candidate("Ein Titel, ein Titel", "ein titel ein titel"));
}

#[test]
fn trim_chars_counts_characters_not_bytes() {
    assert_eq!(trim_chars("äbcdef", 3), "äbc");
    assert_eq!(trim_chars("ab", 10), "ab");
    assert_eq!(trim_chars("abc", 0), "");
}

#[test]
fn footnote_marks_are_removed_and_whitespace_collapsed() {
    assert_eq!(normalize_inline_markers("Text[1] und  mehr [23] Text"), "Text und mehr Text");
    assert_eq!(normalize_inline_markers("  ohne  Marken "), "ohne Marken");
}

#[test]
fn lingq_body_drops_title_repeats_headings_and_duplicates() {
    let body = "Der Titel\n\n## Zwischenüberschrift\n\nErster   Absatz.\n\nerster absatz\n\nZweiter Absatz.";
    assert_eq!(
        normalize_body_for_lingq(body, "Der Titel", ""),
        "Zwischenüberschrift\n\nErster Absatz.\n\nZweiter Absatz."
    );
}

#[test]
fn reader_text_puts_the_header_before_the_body() {
    let text = build_clean_text("Titel", "Untertitel  hier", "Jane Doe", "2026-03-04", "Absatz eins.\n\nAbsatz zwei.");
    assert_eq!(
        text,
        "Titel\n\nUntertitel hier\nVon Jane Doe\n2026-03-04\n\nAbsatz eins.\n\nAbsatz zwei."
    );
    let bare = build_clean_text("Titel", "Titel", "", "", "Nur ein Absatz.");
    assert_eq!(bare, "Titel\n\nNur ein Absatz.");
}

#[test]
fn cleaning_whitespace_twice_changes_nothing() {
    for raw in ["  a \t b\n\nc  ", "", "   ", "one", "x\u{a0}y\u{3000}z"] {
        let once = clean_whitespace(raw);
        assert_eq!(clean_whitespace(&once), once);
    }
    assert_eq!(clean_whitespace("  a \t b\n\nc  "), "a b c");
    assert_eq!(clean_whitespace("x\u{a0}y"), "x y");
}
