use soziopolis_lingq_tool::article::{iso_date, normalize_article_date, parse_article_html, source_label, ExtractError};
use soziopolis_lingq_tool::soziopolis::{Article, Section};

fn article_html(body: &str) -> String {
    format!(
        r#"<!doctype html>
            <html lang="de">
            <head><meta charset="utf-8"></head>
            <body>{body}</body>
            </html>"#
    )
}

fn parse(url: &str, html: &str) -> Result<Article, ExtractError> {
    parse_article_html(url, html, &[])
}

#[test]
fn german_month_date_is_preserved_without_blocking_body_extraction() {
    let html = article_html(
        r#"
            <article>
              <p class="article-type">Essay</p>
              <p class="article-overline">
                <span class="author-name">Einzel Autor</span>
              </p>
              <p class="article-date">24. Mai 2026</p>
              <h1 class="article-title">Datum mit Monatsnamen</h1>
              <div class="article-content">
                <p>Der erste Absatz beschreibt eine getestete Metadatenvariante mit deutschem Monatsnamen und ausreichend langem Fliesstext fuer die Artikelverarbeitung.</p>
                <p>Der zweite Absatz hält fest, dass das Datum aktuell als rohe Anzeige erhalten bleibt und nicht zur Normalisierung gezwungen wird.</p>
                <p>Der dritte Absatz ergänzt Beobachtungen zu Redaktion, Quellenlage und technischer Extraktion, damit die Mindestlänge der Verarbeitung stabil bleibt.</p>
                <p>Der vierte Absatz macht die Fixture deterministisch und vermeidet reale Soziopolis-Texte oder externe Netzwerkzugriffe.</p>
                <p>Der fünfte Absatz liefert zusätzliche neutrale Wörter über Überschrift, Vorspann, Quellenhinweis und Lesefluss, ohne eine neue fachliche Behauptung einzuführen.</p>
              </div>
            </article>
            "#,
    );

    let article = parse("https://www.soziopolis.de/monatsname.html", &html).expect("article");

    assert_eq!(article.author, "Einzel Autor");
    assert_eq!(article.date, "24. Mai 2026");
    assert_eq!(article.published_at, "");
    assert!(article.body_text.contains("deutschem Monatsnamen"));
}

#[test]
fn optional_author_and_bad_date_do_not_discard_valid_body() {
    let html = article_html(
        r#"
            <article>
              <p class="article-type">Essay</p>
              <p class="article-date">demnaechst</p>
              <h1 class="article-title">Ohne Autor mit Rohdatum</h1>
              <div class="article-content">
                <p>Diese Seite hat absichtlich keine Autorzeile, aber einen ausreichend langen Artikeltext, der weiterhin extrahiert werden soll.</p>
                <p>Der zweite Absatz beschreibt, dass fehlende Autorinnen oder Autoren aktuell kein Fehlerfall sind und die lokale Speicherung nicht blockieren.</p>
                <p>Der dritte Absatz stabilisiert die Wortzahl mit weiterer Beschreibung zu Metadaten, redaktioneller Einordnung und Parserverhalten.</p>
                <p>Der vierte Absatz hält die Fixture synthetisch, klein und frei von kopiertem Artikeltext.</p>
                <p>Der fünfte Absatz ergänzt neutrale Wörter über Überschrift, Vorspann, Lesefluss und Extraktion, damit nur die Metadatenvariante getestet wird.</p>
              </div>
            </article>
            "#,
    );

    let article = parse("https://www.soziopolis.de/ohne-autor.html", &html).expect("article");

    assert_eq!(article.author, "");
    assert_eq!(article.date, "demnaechst");
    assert_eq!(article.published_at, "");
    assert!(article.body_text.contains("keine Autorzeile"));
}

#[test]
fn multiple_authors_with_und_separator_are_preserved_as_text() {
    let html = article_html(
        r#"
            <article>
              <p class="article-type">Essay</p>
              <p class="article-overline">
                <span class="author-name">Anna Beispiel und Bernd Muster</span>
              </p>
              <time>2026-05-24</time>
              <h1 class="article-title">Autoren mit Und</h1>
              <div class="article-content">
                <p>Der erste Absatz beschreibt eine synthetische Autorenvariante, bei der zwei Namen in einer gemeinsamen Autorzeile stehen.</p>
                <p>Der zweite Absatz stellt sicher, dass die Autorzeile als vorhandener Text erhalten bleibt und nicht neu interpretiert wird.</p>
                <p>Der dritte Absatz ergänzt genug Wörter über Soziopolis-nahe Metadaten und Extraktion, damit die bestehende Mindestlänge erreicht wird.</p>
                <p>Der vierte Absatz dokumentiert den aktuellen Parservertrag ohne eine neue Normalisierung fuer Autorennamen einzuführen.</p>
                <p>Der fünfte Absatz fügt neutrale Beschreibung zu Überschrift, Vorspann, Lesefluss und Quellenhinweis hinzu, ohne Verhalten oder Bedeutung zu ändern.</p>
              </div>
            </article>
            "#,
    );

    let article = parse("https://www.soziopolis.de/autor-und.html", &html).expect("article");

    assert_eq!(article.author, "Anna Beispiel und Bernd Muster");
    assert_eq!(article.date, "2026-05-24");
    assert_eq!(article.published_at, "2026-05-24");
}

#[test]
fn sidebar_author_and_date_do_not_override_article_metadata() {
    let html = article_html(
        r#"
            <aside>
              <p class="article-overline"><span class="author-name">Sidebar Name</span></p>
              <p class="article-date">01.01.2001</p>
            </aside>
            <article>
              <p class="article-type">Essay</p>
              <p class="article-overline">
                <span class="author-name">Artikel Name</span>
              </p>
              <p class="article-date">24.05.2026</p>
              <h1 class="article-title">Metadaten im Artikel</h1>
              <div class="article-content">
                <p>Der erste Absatz stellt sicher, dass navigierende oder seitliche Seitenelemente nicht als Artikelmetadaten übernommen werden.</p>
                <p>Der zweite Absatz beschreibt die eigentliche Artikelzone mit genug synthetischem Fliesstext fuer die Verarbeitung.</p>
                <p>Der dritte Absatz ergänzt weitere Beobachtungen zu Klassen, Autorenzeilen und Datumsfeldern im Parser.</p>
                <p>Der vierte Absatz bleibt künstlich und klein, damit der Test keine kopierten Inhalte enthält.</p>
                <p>Der fünfte Absatz liefert neutrale Wörter über Überschrift, Vorspann, Lesefluss und Extraktion, damit die Metadatenprüfung stabil bleibt.</p>
                <p>Der sechste Absatz beschreibt nochmals die Artikelzone, die bereinigte Textmenge und den synthetischen Charakter dieser Fixture.</p>
                <p>Der siebte Absatz verhindert, dass die Prüfung versehentlich nur an der Mindestlänge statt an der Metadatenquelle scheitert.</p>
              </div>
            </article>
            "#,
    );

    let article = parse("https://www.soziopolis.de/metadaten.html", &html).expect("article");

    assert_eq!(article.author, "Artikel Name");
    assert_eq!(article.date, "24.05.2026");
    assert_eq!(article.published_at, "2026-05-24");
    assert!(!article.author.contains("Sidebar"));
    assert_ne!(article.date, "01.01.2001");
}

#[test]
fn unexpected_article_container_markup_reports_missing_body() {
    let html = r#"
            <!doctype html>
            <html lang="de">
            <body>
              <article>
                <h1 class="article-title">Neue Containerstruktur</h1>
                <p class="article-date">07.05.2026</p>
                <section class="article-body">
                  <p>Dieser Text steht absichtlich nicht in .article-content.</p>
                </section>
              </article>
            </body>
            </html>
        "#;

    let error = parse("https://www.soziopolis.de/neue-struktur.html", html)
        .expect_err("unexpected container markup should not produce an article");

    assert_eq!(error.message(), "could not extract article body");
}

#[test]
fn inline_links_footnotes_and_emphasis_are_cleaned_in_body_blocks() {
    let html = r#"
            <!doctype html>
            <html lang="de">
            <body>
              <article>
                <p class="article-type">Essay</p>
                <p class="article-overline"><span class="author-name">Inline Test</span></p>
                <p class="article-date">08.05.2026</p>
                <h1 class="article-title">Inline Marker im Artikeltext</h1>
                <h2 class="article-subtitle">Eine Prüfung vorhandener Bereinigung</h2>
                <div class="article-content">
                  <p>Der erste Absatz enthält <a href="/x">einen Link</a>, <em>betonte Begriffe</em> und eine Fussnote [1], die beim Bereinigen entfernt wird.</p>
                  <p>Der zweite Absatz stabilisiert den Umfang der Fixture mit Beobachtungen zu digitalen Routinen, institutionellen Entscheidungen und sozialwissenschaftlichen Deutungen.</p>
                  <p>Der dritte Absatz beschreibt, wie Formulare, Rankings und redaktionelle Hinweise in alltäglichen Arbeitsprozessen auftauchen und neue Erwartungen erzeugen.</p>
                  <p>Der vierte Absatz hält fest, dass die Extraktion Inline-Markup als Text liest und keine Navigations- oder Quellverweise daraus machen soll.</p>
                  <p>Der fünfte Absatz sorgt dafür, dass die bestehende Mindestlänge der Artikelverarbeitung überschritten wird, ohne neue Regeln einzuführen.</p>
                </div>
              </article>
            </body>
            </html>
        "#;

    let article = parse("https://www.soziopolis.de/inline-marker.html", html).expect("article");

    assert_eq!(article.title, "Inline Marker im Artikeltext");
    assert!(article.body_text.contains("einen Link"));
    assert!(article.body_text.contains("betonte Begriffe"));
    assert!(!article.body_text.contains("[1]"));
    assert!(article.word_count >= 80);
}

#[test]
fn very_short_article_text_reports_too_little_text() {
    let html = r#"
            <!doctype html>
            <html lang="de">
            <body>
              <article>
                <h1 class="article-title">Kurzer Artikel</h1>
                <div class="article-content">
                  <p>Dieser Absatz ist lang genug fuer einen Block, aber zu kurz fuer einen Artikel.</p>
                </div>
              </article>
            </body>
            </html>
        "#;

    let error = parse("https://www.soziopolis.de/kurz.html", html)
        .expect_err("short extracted body should fail the current minimum length rule");

    assert_eq!(
        error.message(),
        "article extraction produced too little text for https://www.soziopolis.de/kurz.html"
    );
}

#[test]
fn article_fields_and_reader_text() {
    let html = r#"<html><head><title>Titel aus Kopf | Soziopolis</title>
        <meta name="description" content="  Ein   Vorspann  "></head><body>
        <article><div class="article-content">
        <h2>Zwischenueberschrift</h2>
        <p>Erster Absatz mit genug Worten, damit er als Absatz des Artikels zaehlt und bleibt.</p>
        <p>Erster Absatz mit genug Worten, damit er als Absatz des Artikels zaehlt und bleibt!</p>
        </div></article></body></html>"#;
    let long: String = (0..90).map(|i| format!("wort{i} ")).collect();
    let html = html.replace("</div>", &format!("<p>{long}</p></div>"));
    let article = parse("https://www.soziopolis.de/soziales-leben/beispiel.html", &html).expect("article");
    assert_eq!(article.title, "Titel aus Kopf");
    assert_eq!(article.subtitle, "Ein Vorspann");
    assert_eq!(article.section, "soziales leben");
    assert_eq!(article.source_label, "soziales leben");
    assert_eq!(article.source_kind, "article");
    assert_eq!(article.teaser, "");
    assert!(article.body_text.starts_with("## Zwischenueberschrift\n\nErster Absatz"));
    assert_eq!(article.body_text.matches("Erster Absatz").count(), 1);
    assert!(article.clean_text.starts_with("Titel aus Kopf\n\nEin Vorspann\n\nZwischenueberschrift\n\nErster Absatz"));
    assert!(article.fetched_at.chars().all(|c| c.is_ascii_digit()));
}

#[test]
fn untitled_when_no_title_is_found() {
    let long: String = (0..90).map(|i| format!("wort{i} ")).collect();
    let html = format!("<html><body><div class=\"article-content\"><p>{long}</p></div></body></html>");
    let article = parse("https://www.soziopolis.de/", &html).expect("article");
    assert_eq!(article.title, "Untitled");
    assert_eq!(article.section, "Latest");
    assert_eq!(article.word_count, 90);
}

#[test]
fn dates_are_normalized_to_iso() {
    assert_eq!(normalize_article_date("23.04.2026").as_deref(), Some("2026-04-23"));
    assert_eq!(normalize_article_date(" 2026-05-24 ").as_deref(), Some("2026-05-24"));
    assert_eq!(normalize_article_date("2026-05-24T10:00:00+02:00").as_deref(), Some("2026-05-24"));
    assert_eq!(normalize_article_date("1.2.0999").as_deref(), Some("0999-02-01"));
    assert_eq!(normalize_article_date("24. Mai 2026"), None);
    assert_eq!(normalize_article_date("   "), None);
    assert_eq!(normalize_article_date("31.02.2026"), None);
}

#[test]
fn source_label_prefers_known_sections() {
    let sections = [Section {
        id: String::from("essays"),
        label: String::from("Essays"),
        url: String::from("https://www.soziopolis.de/texte/essay.html"),
    }];
    assert_eq!(source_label(&sections, "https://www.soziopolis.de/texte/essay.html/"), "Essays");
    assert_eq!(source_label(&sections, "https://www.soziopolis.de/kultur-medien.html"), "kultur medien.html");
    assert_eq!(source_label(&sections, "https://www.soziopolis.de"), "Latest");
}

#[test]
fn calendar_dates_are_written_as_iso() {
    assert_eq!(iso_date((2026, 4, 3)), "2026-04-03");
    assert_eq!(iso_date((987, 12, 31)), "0987-12-31");
    assert_eq!(iso_date((12345, 1, 1)), "+12345-01-01");
    assert_eq!(iso_date((-44, 3, 15)), "-0044-03-15");
}
