use soziopolis_lingq_tool::browse::{
    absorb_section_page, accept_browse_result, browse_target, finish_section_browse, next_section_page, start_section_state,
    PageStep,
};
use soziopolis_lingq_tool::soziopolis::{ArticleSummary, DiscoverySourceKind, Section};

fn essays() -> Section {
    Section {
        id: "essays".to_owned(),
        label: "Essays".to_owned(),
        url: "https://www.soziopolis.de/texte/essay.html".to_owned(),
    }
}

fn summary(url: &str) -> ArticleSummary {
    ArticleSummary {
        url: url.to_owned(),
        title: format!("Title of {url}"),
        teaser: String::new(),
        author: String::new(),
        date: String::new(),
        section: "Essay".to_owned(),
        source_kind: DiscoverySourceKind::Section,
        source_label: "Essays".to_owned(),
    }
}

fn strings(items: &[&str]) -> Vec<String> {
    items.iter().map(|s| s.to_string()).collect()
}

#[test]
fn first_page_starts_the_section_state() {
    let state = start_section_state(
        essays(),
        "p1".to_owned(),
        &vec![summary("a"), summary("b"), summary("a")],
        &strings(&["p2", "p3", "p2"]),
    );
    let urls: Vec<&str> = state.articles.iter().map(|a| a.url.as_str()).collect();
    assert_eq!(urls, vec!["a", "b"]);
    assert_eq!(state.report.section_pages, 1);
    assert_eq!(state.report.section_articles, 2);
    assert_eq!(state.report.deduped_articles, 1);
    assert_eq!(state.pending_page_urls.iter().cloned().collect::<Vec<_>>(), strings(&["p2", "p3"]));
    assert_eq!(state.visited_page_urls, strings(&["p1"]));
    assert!(!state.exhausted);
}

#[test]
fn a_section_without_further_pages_is_exhausted_at_once() {
    let state = start_section_state(essays(), "p1".to_owned(), &vec![summary("a")], &Vec::new());
    assert!(state.exhausted);
}

#[test]
fn growing_fetches_queued_pages_until_the_target_is_met() {
    let mut state = start_section_state(essays(), "p1".to_owned(), &vec![summary("a")], &strings(&["p2"]));
    let target = browse_target(&state, 3);
    assert_eq!(target, 3);
    match next_section_page(&mut state, target) {
        PageStep::Fetch(url) => assert_eq!(url, "p2"),
        other => panic!("expected a fetch, got {other:?}"),
    }
    absorb_section_page(&mut state, &vec![summary("b"), summary("c"), summary("d")], &strings(&["p1", "p3"]), target);
    let urls: Vec<&str> = state.articles.iter().map(|a| a.url.as_str()).collect();
    assert_eq!(urls, vec!["a", "b", "c"]);
    assert_eq!(state.pending_page_urls.iter().cloned().collect::<Vec<_>>(), strings(&["p1", "p3"]));
    assert!(matches!(next_section_page(&mut state, target), PageStep::Stop));
    assert!(!state.exhausted);
}

#[test]
fn visited_pages_are_skipped_and_empty_queues_exhaust() {
    let mut state = start_section_state(essays(), "p1".to_owned(), &Vec::new(), &strings(&["p2"]));
    state.pending_page_urls.push_back("p1".to_owned());
    assert!(matches!(next_section_page(&mut state, 50), PageStep::Fetch(_)));
    assert!(matches!(next_section_page(&mut state, 50), PageStep::Skip));
    assert!(matches!(next_section_page(&mut state, 50), PageStep::Stop));
    assert!(state.exhausted);
}

#[test]
fn the_page_budget_stops_growing() {
    let mut state = start_section_state(essays(), "p1".to_owned(), &Vec::new(), &strings(&["p2", "p3", "p4"]));
    assert!(matches!(next_section_page(&mut state, 5), PageStep::Fetch(_)));
    assert!(matches!(next_section_page(&mut state, 5), PageStep::Stop));
    assert!(!state.exhausted);
    assert_eq!(state.pending_page_urls.len(), 1);
    finish_section_browse(&mut state);
    assert!(!state.exhausted);
    state.pending_page_urls.clear();
    finish_section_browse(&mut state);
    assert!(state.exhausted);
}

#[test]
fn the_target_never_drops_below_what_is_held() {
    let state = start_section_state(essays(), "p1".to_owned(), &vec![summary("a"), summary("b")], &Vec::new());
    assert_eq!(browse_target(&state, 1), 2);
    assert_eq!(browse_target(&state, 10), 10);
}

#[test]
fn stale_browse_results_are_dropped() {
    assert!(accept_browse_result(4, 4));
    assert!(!accept_browse_result(5, 4));
}
