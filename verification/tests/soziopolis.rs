use soziopolis_lingq_tool::soziopolis::{
    browse_section_worker_count, collect_articles, desired_section_page_count, section_by_id,
    merge_all_sections_states, per_section_limit, ArticleSummary, DiscoveryReport,
    DiscoverySourceKind, Section, SectionBrowseState,
};
use std::collections::VecDeque;

fn section(id: &str, label: &str, url: &str) -> Section {
    Section { id: id.to_owned(), label: label.to_owned(), url: url.to_owned() }
}

fn summary(url: &str, title: &str, section: &str, label: &str) -> ArticleSummary {
    ArticleSummary {
        url: url.to_owned(),
        title: title.to_owned(),
        teaser: String::new(),
        author: String::new(),
        date: String::new(),
        section: section.to_owned(),
        source_kind: DiscoverySourceKind::Section,
        source_label: label.to_owned(),
    }
}

fn state(articles: Vec<ArticleSummary>, exhausted: bool, sec: Section, pending: VecDeque<String>) -> SectionBrowseState {
    SectionBrowseState {
        articles,
        report: DiscoveryReport::new(),
        exhausted,
        section: sec,
        pending_page_urls: pending,
        discovered_page_urls: Vec::new(),
        seen_article_urls: Vec::new(),
        visited_page_urls: Vec::new(),
    }
}

#[test]
fn merge_all_sections_states_marks_exhausted_only_when_every_section_is_done() {
    let state_a = || {
        state(
            vec![summary("https://example.com/a", "A", "Essay", "Essays")],
            true,
            section("essays", "Essays", "https://www.soziopolis.de/texte/essay.html"),
            VecDeque::new(),
        )
    };
    let state_b = |exhausted: bool| {
        state(
            vec![summary("https://example.com/b", "B", "Interview", "Interviews")],
            exhausted,
            section("interviews", "Interviews", "https://www.soziopolis.de/texte/interview.html"),
            VecDeque::from([String::from("https://example.com/page2")]),
        )
    };

    let merged = merge_all_sections_states(&[state_a(), state_b(false)], 20);
    assert_eq!(merged.articles.len(), 2);
    assert!(!merged.exhausted);

    let merged_exhausted = merge_all_sections_states(&[state_a(), state_b(true)], 20);
    assert!(merged_exhausted.exhausted);
}

#[test]
fn merge_takes_each_url_once_and_stops_at_the_limit() {
    let s = section("essays", "Essays", "https://www.soziopolis.de/texte/essay.html");
    let a = state(
        vec![summary("u1", "1", "E", "E"), summary("u2", "2", "E", "E")],
        true,
        section(&s.id, &s.label, &s.url),
        VecDeque::new(),
    );
    let b = state(
        vec![summary("u2", "2", "E", "E"), summary("u3", "3", "E", "E")],
        true,
        section(&s.id, &s.label, &s.url),
        VecDeque::new(),
    );
    let merged = merge_all_sections_states(&[a, b], 20);
    let urls: Vec<&str> = merged.articles.iter().map(|a| a.url.as_str()).collect();
    assert_eq!(urls, vec!["u1", "u2", "u3"]);
    assert_eq!(merged.report.deduped_articles, 1);

    let c = state(vec![summary("u1", "1", "E", "E"), summary("u2", "2", "E", "E")], false, section("x", "X", "x"), VecDeque::new());
    let d = state(vec![summary("u3", "3", "E", "E")], true, section("y", "Y", "y"), VecDeque::new());
    let limited = merge_all_sections_states(&[c, d], 1);
    assert_eq!(limited.articles.len(), 1);
    assert_eq!(limited.articles[0].url, "u1");
    assert!(!limited.exhausted);
}

#[test]
fn merge_of_nothing_is_empty_and_exhausted() {
    let merged = merge_all_sections_states(&[], 10);
    assert!(merged.articles.is_empty());
    assert!(merged.exhausted);
}

#[test]
fn browse_section_worker_count_is_bounded() {
    assert_eq!(browse_section_worker_count(0), 1);
    assert_eq!(browse_section_worker_count(1), 1);
    assert_eq!(browse_section_worker_count(3), 3);
    assert_eq!(browse_section_worker_count(20), 4);
}

#[test]
fn desired_section_page_count_scales_but_stays_bounded() {
    assert_eq!(desired_section_page_count(0), 2);
    assert_eq!(desired_section_page_count(80), 8);
    assert_eq!(desired_section_page_count(160), 16);
    assert_eq!(desired_section_page_count(5000), 80);
}

#[test]
fn page_count_rounds_partial_pages_up() {
    assert_eq!(desired_section_page_count(81), 9);
    assert_eq!(desired_section_page_count(15), 2);
    assert_eq!(desired_section_page_count(25), 3);
}

#[test]
fn per_section_limit_is_an_even_share_of_at_least_eight() {
    assert_eq!(per_section_limit(80, 8), 10);
    assert_eq!(per_section_limit(81, 8), 11);
    assert_eq!(per_section_limit(10, 8), 8);
    assert_eq!(per_section_limit(100, 0), 100);
}

#[test]
fn collecting_skips_seen_urls_and_respects_the_limit() {
    let candidates = vec![
        summary("u1", "1", "E", "E"),
        summary("u1", "1 again", "E", "E"),
        summary("u2", "2", "E", "E"),
        summary("u3", "3", "E", "E"),
    ];
    let mut seen = Vec::new();
    let mut articles = Vec::new();
    let mut report = DiscoveryReport::new();
    collect_articles(&candidates, DiscoverySourceKind::Section, 2, &mut seen, &mut articles, &mut report);
    assert_eq!(articles.len(), 2);
    assert_eq!(articles[0].url, "u1");
    assert_eq!(articles[1].url, "u2");
    assert_eq!(report.section_articles, 2);
    assert_eq!(report.deduped_articles, 1);
    assert_eq!(seen, vec![String::from("u1"), String::from("u2")]);
}

#[test]
fn report_counters_add_up() {
    let mut a = DiscoveryReport::new();
    a.record_source_visit(DiscoverySourceKind::Section);
    a.record_article(DiscoverySourceKind::Section);
    let mut b = DiscoveryReport::new();
    b.record_article(DiscoverySourceKind::Section);
    b.merge(&a);
    assert_eq!(b.section_pages, 1);
    assert_eq!(b.section_articles, 2);
    assert_eq!(b.deduped_articles, 0);
}

#[test]
fn sections_are_found_by_identifier() {
    let sections = vec![
        section("essays", "Essays", "https://www.soziopolis.de/texte/essay.html"),
        section("interviews", "Interviews", "https://www.soziopolis.de/texte/interview.html"),
    ];
    assert_eq!(section_by_id(&sections, "interviews").map(|s| s.label.as_str()), Some("Interviews"));
    assert!(section_by_id(&sections, "podcasts").is_none());
}

#[test]
fn larger_targets_never_ask_for_fewer_pages() {
    let mut previous = desired_section_page_count(0);
    for target in 1..1200 {
        let pages = desired_section_page_count(target);
        assert!(pages >= previous);
        assert!((2..=80).contains(&pages));
        previous = pages;
    }
}
