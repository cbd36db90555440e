use soziopolis_lingq_tool::extract::{
    article_metadata_root, collect_authors, extract_body, extract_date_from_html, extract_section,
    first_article_text, first_text,
};
use soziopolis_lingq_tool::listing::{
    extract_context_section, extract_listing_metadata, extract_teaser_from_heading,
    nearest_listing_container,
};
use soziopolis_lingq_tool::soziopolis::Section;

/// The index, in the parsed tree, of the first element matching `selector`.
fn node_index(html: &str, selector: &str) -> usize {
    let doc = scraper::Html::parse_document(html);
    let sel = scraper::Selector::parse(selector).expect("selector");
    let el = doc.select(&sel).next().expect("element");
    doc.tree.nodes().position(|n| n.id() == el.id()).expect("node")
}

const LISTING: &str = r#"<html><body>
<div class="list">
  <div class="entry">
    <p class="article-overline"><span class="author-name">Jane Doe</span>, <span class="author-name">John Roe</span>, <span class="author-name">Jane Doe</span></p>
    <h3><a id="first" href="/texte/essay/first.html">Ein langer Titel für den Essay</a></h3>
    <span class="article-date"> 04.03.2026 </span>
    <span class="article-type">Essay</span>
    <p class="article-abstract">Eine ausführliche Beschreibung, worum es in diesem Essay geht.</p>
  </div>
  <div class="plain">
    <h3><a id="second" href="/texte/other.html">Ein anderer langer Titel</a></h3>
  </div>
</div>
</body></html>"#;

#[test]
fn teaser_comes_from_the_entry_around_the_link() {
    let link = node_index(LISTING, "a#first");
    assert_eq!(
        extract_teaser_from_heading(LISTING, link),
        "Eine ausführliche Beschreibung, worum es in diesem Essay geht."
    );
}

#[test]
fn listing_metadata_reads_the_entry_container() {
    let link = node_index(LISTING, "a#first");
    let container = nearest_listing_container(LISTING, link).expect("container");
    assert_eq!(container, node_index(LISTING, "div.entry"));
    let meta = extract_listing_metadata(LISTING, link, None, "https://www.soziopolis.de/texte/essay.html", &[]);
    assert_eq!(meta.author, "Jane Doe, John Roe");
    assert_eq!(meta.date, "04.03.2026");
    assert_eq!(meta.section, "Essay");
    assert_eq!(extract_context_section(LISTING, link).as_deref(), Some("Jane Doe , John Roe , Jane Doe"));
}

const LONE: &str = r#"<html><body><div><h3><a id="lone" href="/texte/x.html">Ein einsamer langer Titel</a></h3></div></body></html>"#;

#[test]
fn listing_metadata_falls_back_to_the_given_section() {
    let link = node_index(LONE, "a#lone");
    assert_eq!(nearest_listing_container(LONE, link), None);
    assert_eq!(extract_teaser_from_heading(LONE, link), "");
    let essays = Section {
        id: "essays".to_owned(),
        label: "Essays".to_owned(),
        url: "https://www.soziopolis.de/texte/essay.html".to_owned(),
    };
    let meta = extract_listing_metadata(LONE, link, Some("Interviews"), &essays.url, &[]);
    assert_eq!(meta.section, "Interviews");
    assert_eq!(meta.author, "");
    assert_eq!(meta.date, "");
    let meta = extract_listing_metadata(LONE, link, None, "https://www.soziopolis.de/texte/essay.html/", std::slice::from_ref(&essays));
    assert_eq!(meta.section, "Essays");
    let meta = extract_listing_metadata(LONE, link, None, "https://www.soziopolis.de/kultur-medien/", &[]);
    assert_eq!(meta.section, "kultur medien");
}

const ARTICLE: &str = r#"<html><head>
<meta property="og:title" content="Meta Titel | Soziopolis">
<meta name="keywords" content=" , Soziologie, Theorie">
</head><body>
<aside><span class="author-name">Sidebar Person</span></aside>
<article>
  <p class="article-overline"><span class="author-name">Jane Doe</span></p>
  <h1>  Der   Titel </h1>
  <span class="article-date">
    04.03.2026
  </span>
  <div class="article-content">
    <p>Dies ist ein hinreichend langer erster Absatz[1] des Artikels.</p>
    <h2>Abschnitt</h2>
    <li>Ein Listenpunkt mit Text</li>
    <p>Zu kurz.</p>
    <p>Empfehlungen der Redaktion zu diesem und anderen Themen</p>
  </div>
</article>
</body></html>"#;

#[test]
fn article_fields_are_read_from_the_article_element() {
    assert!(article_metadata_root(ARTICLE).is_some());
    assert_eq!(first_text(ARTICLE, &["h1"]).as_deref(), Some("Der Titel"));
    assert_eq!(first_text(ARTICLE, &["h4", "meta[property=\"og:title\"]"]).as_deref(), Some("Meta Titel | Soziopolis"));
    assert_eq!(first_text(ARTICLE, &["h4"]), None);
    assert_eq!(first_article_text(ARTICLE, &[".author-name"]).as_deref(), Some("Jane Doe"));
    assert_eq!(collect_authors(ARTICLE), "Jane Doe");
    assert_eq!(extract_date_from_html(ARTICLE).as_deref(), Some("04.03.2026"));
    assert_eq!(extract_section(ARTICLE).as_deref(), Some("Soziologie"));
}

#[test]
fn article_body_keeps_long_blocks_and_marks_headings() {
    assert_eq!(
        extract_body(ARTICLE).as_deref(),
        Some("Dies ist ein hinreichend langer erster Absatz des Artikels.\n\n## Abschnitt\n\n- Ein Listenpunkt mit Text")
    );
    assert_eq!(extract_body("<html><body><p>nothing here</p></body></html>"), None);
}
