//! From an article page to an `Article`: metadata, body, dates in ISO
//! form, the reader text, and the label of the page's section.
use vstd::prelude::*;
use crate::clean::{build_clean_text, build_clean_text_spec, clean_text_lines, infer_section_from_url, infer_section_spec};
use crate::extract::{
    authors_spec, body_spec, collect_authors, date_from_source_spec, extract_body,
    extract_date_from_html, extract_section, first_article_text, first_article_text_spec,
    first_text, first_text_spec, section_spec,
};
use crate::logging::{clock_reading, unix_time_now};
use crate::soziopolis::{Article, ArticleMetadata, Section};
use crate::text::{
    byte_prefix, byte_prefix_of, copy_str, decimal, decimal_padded, decimal_string, opt_view,
    padded_decimal, push_str, replace_all, replace_str, str_equals, str_views, strip_all_suffix,
    strip_suffixes, trim, trim_ws, word_count, words, starts_with, lemma_join_starts_with_first,
};

verus! {

// ---------------------------------------------------------------------------
// Dates
// ---------------------------------------------------------------------------

/// The calendar date (year, month, day) that `chrono::NaiveDate::parse_from_str`
/// reads from `text` with `format`; `None` when it reads none.
pub uninterp spec fn parsed_date(text: Seq<char>, format: Seq<char>) -> Option<(i32, u32, u32)>;

/// Reads a date with `chrono::NaiveDate::parse_from_str` and returns its
/// year, month and day (`Datelike`). The contract names the result
/// `parsed_date` and adds what `Datelike::month` and `Datelike::day`
/// document: months run from 1 to 12, days from 1 to 31.
#[verifier::external_body]
fn parse_calendar_date(text: &str, format: &str) -> (r: Option<(i32, u32, u32)>)
    ensures
        r == parsed_date(text@, format@),
        r matches Some(d) ==> 1 <= d.1 <= 12 && 1 <= d.2 <= 31,
{
    let d = chrono::NaiveDate::parse_from_str(text, format).ok()?;
    Some((chrono::Datelike::year(&d), chrono::Datelike::month(&d), chrono::Datelike::day(&d)))
}

/// The year as chrono's `%Y` writes it: four digits with leading zeros for
/// years 0 to 9999, otherwise a sign before at least four digits.
pub open spec fn year_text(y: int) -> Seq<char> {
    if 0 <= y <= 9999 {
        decimal_padded(y as nat, 4)
    } else if y < 0 {
        "-"@ + decimal_padded((-y) as nat, 4)
    } else {
        "+"@ + decimal_padded(y as nat, 4)
    }
}

/// A date written as `%Y-%m-%d`.
pub open spec fn iso_date_spec(d: (i32, u32, u32)) -> Seq<char> {
    year_text(d.0 as int) + "-"@ + decimal_padded(d.1 as nat, 2) + "-"@ + decimal_padded(d.2 as nat, 2)
}

/// The ISO form of a displayed date: "dd.mm.yyyy" or "yyyy-mm-dd" as a
/// whole, else a "yyyy-mm-dd" in the first ten bytes; `None` otherwise.
pub open spec fn normalize_date_spec(value: Seq<char>) -> Option<Seq<char>> {
    let t = trim(value);
    if t.len() == 0 {
        None
    } else {
        match parsed_date(t, "%d.%m.%Y"@) {
            Some(d) => Some(iso_date_spec(d)),
            None => match parsed_date(t, "%Y-%m-%d"@) {
                Some(d) => Some(iso_date_spec(d)),
                None => match byte_prefix(t, 10) {
                    Some(p) => match parsed_date(p, "%Y-%m-%d"@) {
                        Some(d) => Some(iso_date_spec(d)),
                        None => None,
                    },
                    None => None,
                },
            },
        }
    }
}

/// A calendar date as `%Y-%m-%d`.
pub fn iso_date(d: (i32, u32, u32)) -> (s: String)
    ensures
        s@ == iso_date_spec(d),
{
    let (y, m, day) = d;
    let mut s = if 0 <= y && y <= 9999 {
        padded_decimal(y as u64, 4)
    } else if y < 0 {
        let mut t = copy_str("-");
        let magnitude = (0i64 - (y as i64)) as u64;
        let digits = padded_decimal(magnitude, 4);
        push_str(&mut t, digits.as_str());
        t
    } else {
        let mut t = copy_str("+");
        let digits = padded_decimal(y as u64, 4);
        push_str(&mut t, digits.as_str());
        t
    };
    push_str(&mut s, "-");
    let mm = padded_decimal(m as u64, 2);
    push_str(&mut s, mm.as_str());
    push_str(&mut s, "-");
    let dd = padded_decimal(day as u64, 2);
    push_str(&mut s, dd.as_str());
    proof {
        assert(s@ =~= iso_date_spec(d));
    }
    s
}

/// The ISO form (`yyyy-mm-dd`) of a date shown as "dd.mm.yyyy" or
/// "yyyy-mm-dd", possibly followed by more text.
pub fn normalize_article_date(value: &str) -> (r: Option<String>)
    ensures
        opt_view(r) == normalize_date_spec(value@),
{
    let trimmed = trim_ws(value);
    let t = trimmed.as_str();
    if t.is_empty() {
        return None;
    }
    match parse_calendar_date(t, "%d.%m.%Y") {
        Some(d) => {
            return Some(iso_date(d));
        },
        None => {},
    }
    match parse_calendar_date(t, "%Y-%m-%d") {
        Some(d) => {
            return Some(iso_date(d));
        },
        None => {},
    }
    match byte_prefix_of(t, 10) {
        Some(prefix) => match parse_calendar_date(prefix.as_str(), "%Y-%m-%d") {
            Some(d) => Some(iso_date(d)),
            None => None,
        },
        None => None,
    }
}

// ---------------------------------------------------------------------------
// Section labels
// ---------------------------------------------------------------------------

/// The label of the first section whose listing URL is `url`, trailing
/// slashes ignored.
pub open spec fn section_label_of(sections: Seq<Section>, url: Seq<char>) -> Option<Seq<char>>
    decreases sections.len(),
{
    if sections.len() == 0 {
        None
    } else if strip_all_suffix(sections[0].url@, "/"@) == strip_all_suffix(url, "/"@) {
        Some(sections[0].label@)
    } else {
        section_label_of(sections.drop_first(), url)
    }
}

/// The label shown for a source page: its section's label, else the
/// section named by its path.
pub open spec fn source_label_spec(sections: Seq<Section>, url: Seq<char>) -> Seq<char> {
    match section_label_of(sections, url) {
        Some(l) => l,
        None => infer_section_spec(url),
    }
}

/// The label shown for a source page.
pub fn source_label(sections: &[Section], source_url: &str) -> (label: String)
    ensures
        label@ == source_label_spec(sections@, source_url@),
{
    proof {
        reveal_strlit("/");
    }
    let wanted = strip_suffixes(source_url, "/");
    let mut k: usize = 0;
    proof {
        assert(sections@.skip(0) =~= sections@);
    }
    while k < sections.len()
        invariant
            k <= sections.len(),
            wanted@ == strip_all_suffix(source_url@, "/"@),
            section_label_of(sections@, source_url@) == section_label_of(
                sections@.skip(k as int),
                source_url@,
            ),
        decreases sections.len() - k,
    {
        proof {
            reveal_strlit("/");
            assert(sections@.skip(k as int)[0] == sections@[k as int]);
            assert(sections@.skip(k as int).drop_first() =~= sections@.skip(k + 1));
        }
        let candidate = strip_suffixes(sections[k].url.as_str(), "/");
        if str_equals(candidate.as_str(), wanted.as_str()) {
            return sections[k].label.clone();
        }
        k = k + 1;
    }
    match infer_section_from_url(source_url) {
        Some(s) => s,
        None => copy_str("Soziopolis"),
    }
}

// ---------------------------------------------------------------------------
// Articles
// ---------------------------------------------------------------------------

/// Why an article page gave no article.
#[derive(Debug)]
pub enum ExtractError {
    /// No article text blocks were found.
    MissingBody,
    /// The article text of the page at `url` has fewer than 80 words.
    TooLittleText { url: String },
}

pub open spec fn error_message_spec(e: ExtractError) -> Seq<char> {
    match e {
        ExtractError::MissingBody => "could not extract article body"@,
        ExtractError::TooLittleText { url } => "article extraction produced too little text for "@
            + url@,
    }
}

impl ExtractError {
    /// The error as text.
    pub fn message(&self) -> (m: String)
        ensures
            m@ == error_message_spec(*self),
    {
        match self {
            ExtractError::MissingBody => copy_str("could not extract article body"),
            ExtractError::TooLittleText { url } => {
                let mut m = copy_str("article extraction produced too little text for ");
                push_str(&mut m, url.as_str());
                m
            },
        }
    }
}

/// The selectors tried for the title.
pub open spec fn title_selectors() -> Seq<Seq<char>> {
    seq!["h1.article-title"@, "h1"@, "meta[property=\"og:title\"]"@, "title"@]
}

/// The selectors tried for the subtitle.
pub open spec fn subtitle_selectors() -> Seq<Seq<char>> {
    seq!["h2.article-subtitle"@, "meta[name=\"description\"]"@]
}

/// The selectors tried for the date.
pub open spec fn date_selectors() -> Seq<Seq<char>> {
    seq![".article-date"@, "time"@, "meta[property=\"article:published_time\"]"@]
}

/// The title: the first title text without the site suffix, trimmed;
/// "Untitled" when there is none.
pub open spec fn title_spec(html: Seq<char>) -> Seq<char> {
    match first_text_spec(html, title_selectors()) {
        Some(v) => {
            let t = trim(replace_all(v, " | Soziopolis"@, seq![]));
            if t.len() > 0 {
                t
            } else {
                "Untitled"@
            }
        },
        None => "Untitled"@,
    }
}

pub open spec fn subtitle_spec(html: Seq<char>) -> Seq<char> {
    match first_text_spec(html, subtitle_selectors()) {
        Some(v) => v,
        None => seq![],
    }
}

/// The displayed date: from the article's metadata, else from the raw
/// source, else empty.
pub open spec fn date_spec(html: Seq<char>) -> Seq<char> {
    match first_article_text_spec(html, date_selectors()) {
        Some(v) => v,
        None => match date_from_source_spec(html) {
            Some(d) => d,
            None => seq![],
        },
    }
}

/// The section: from the page, else from the URL.
pub open spec fn article_section_spec(html: Seq<char>, url: Seq<char>) -> Seq<char> {
    match section_spec(html) {
        Some(s) => s,
        None => infer_section_spec(url),
    }
}

/// The article of the page `html` at `url`, with `fetched_at` read from
/// the clock reading `now`.
pub open spec fn article_matches(a: Article, url: Seq<char>, html: Seq<char>, sections: Seq<Section>, now: Option<(u64, u32)>) -> bool {
    let body = body_spec(html)->0;
    let title = title_spec(html);
    let subtitle = subtitle_spec(html);
    let author = authors_spec(html);
    let date = date_spec(html);
    &&& a.url@ == url
    &&& a.title@ == title
    &&& a.subtitle@ == subtitle
    &&& a.teaser@ == Seq::<char>::empty()
    &&& a.author@ == author
    &&& a.date@ == date
    &&& a.published_at@ == (match normalize_date_spec(date) {
        Some(p) => p,
        None => seq![],
    })
    &&& a.section@ == article_section_spec(html, url)
    &&& a.source_kind@ == "article"@
    &&& a.source_label@ == source_label_spec(sections, url)
    &&& a.body_text@ == body
    &&& a.clean_text@ == build_clean_text_spec(title, subtitle, author, date, body)
    &&& a.word_count == words(body).len()
    &&& a.fetched_at@ == decimal(match now {
        Some(t) => t.0 as nat,
        None => 0nat,
    })
}

/// The current time in whole seconds since the Unix epoch, in decimal.
pub fn iso_timestamp_now() -> (s: String)
    ensures
        exists|t: Option<(u64, u32)>| clock_reading(t) && s@ == decimal(match t {
            Some(p) => p.0 as nat,
            None => 0nat,
        }),
{
    let t = unix_time_now();
    let secs = match t {
        Some((secs, _)) => secs,
        None => 0,
    };
    decimal_string(secs)
}

/// The article on the page `html` fetched from `url`; `sections` are the
/// site's sections, used for the source label.
pub fn parse_article_html(url: &str, html: &str, sections: &[Section]) -> (r: Result<Article, ExtractError>)
    ensures
        body_spec(html@) is None <==> r matches Err(ExtractError::MissingBody),
        (body_spec(html@) matches Some(b) && words(b).len() < 80) <==> r matches Err(
            ExtractError::TooLittleText { .. },
        ),
        r matches Err(ExtractError::TooLittleText { url: u }) ==> u@ == url@,
        r matches Ok(a) ==> exists|now: Option<(u64, u32)>| clock_reading(now) && article_matches(
            a,
            url@,
            html@,
            sections@,
            now,
        ),
{
    let title_sels = ["h1.article-title", "h1", "meta[property=\"og:title\"]", "title"];
    let subtitle_sels = ["h2.article-subtitle", "meta[name=\"description\"]"];
    let date_sels = [".article-date", "time", "meta[property=\"article:published_time\"]"];
    proof {
        assert(str_views(title_sels@) =~= title_selectors());
        assert(str_views(subtitle_sels@) =~= subtitle_selectors());
        assert(str_views(date_sels@) =~= date_selectors());
    }
    let title = match first_text(html, &title_sels) {
        Some(v) => {
            proof {
                reveal_strlit(" | Soziopolis");
                reveal_strlit("");
                assert(""@ =~= Seq::<char>::empty());
            }
            let without_site = replace_str(v.as_str(), " | Soziopolis", "");
            let t = trim_ws(without_site.as_str());
            if t.as_str().is_empty() {
                copy_str("Untitled")
            } else {
                t
            }
        },
        None => copy_str("Untitled"),
    };
    let subtitle = match first_text(html, &subtitle_sels) {
        Some(v) => v,
        None => String::new(),
    };
    let author = collect_authors(html);
    let date = match first_article_text(html, &date_sels) {
        Some(v) => v,
        None => match extract_date_from_html(html) {
            Some(d) => d,
            None => String::new(),
        },
    };
    let section = match extract_section(html) {
        Some(s) => s,
        None => match infer_section_from_url(url) {
            Some(s) => s,
            None => copy_str("Soziopolis"),
        },
    };
    let body_text = match extract_body(html) {
        Some(b) => b,
        None => {
            return Err(ExtractError::MissingBody);
        },
    };
    let word_count = word_count(body_text.as_str());
    if word_count < 80 {
        return Err(ExtractError::TooLittleText { url: copy_str(url) });
    }
    let clean_text = build_clean_text(
        title.as_str(),
        subtitle.as_str(),
        author.as_str(),
        date.as_str(),
        body_text.as_str(),
    );
    let published_at = match normalize_article_date(date.as_str()) {
        Some(p) => p,
        None => String::new(),
    };
    let t = unix_time_now();
    let secs = match t {
        Some((secs, _)) => secs,
        None => 0,
    };
    let fetched_at = decimal_string(secs);
    let article = Article {
        url: copy_str(url),
        title,
        subtitle,
        teaser: String::new(),
        author,
        date,
        published_at,
        section,
        source_kind: copy_str("article"),
        source_label: source_label(sections, url),
        body_text,
        clean_text,
        word_count,
        fetched_at,
    };
    proof {
        let body = body_spec(html@)->0;
        assert(article.url@ == url@);
        assert(article.title@ == title_spec(html@));
        assert(article.subtitle@ == subtitle_spec(html@));
        assert(article.author@ == authors_spec(html@));
        assert(article.date@ == date_spec(html@));
        assert(article.section@ == article_section_spec(html@, url@));
        assert(article.body_text@ == body);
        assert(article.word_count == words(body).len());
        assert(article_matches(article, url@, html@, sections@, t));
    }
    Ok(article)
}

/// The identifying metadata of an article.
pub fn article_metadata(article: Article) -> (m: ArticleMetadata)
    ensures
        m.url == article.url,
        m.title == article.title,
        m.date == article.date,
        m.section == article.section,
{
    ArticleMetadata { url: article.url, title: article.title, date: article.date, section: article.section }
}

/// Every article has a title: "Untitled" stands in when the page names
/// none.
pub proof fn law_title_is_never_empty(html: Seq<char>)
    ensures
        title_spec(html).len() > 0,
{
    reveal_strlit("Untitled");
}

/// The reader text begins with the title.
pub proof fn law_reader_text_starts_with_title(
    title: Seq<char>,
    subtitle: Seq<char>,
    author: Seq<char>,
    date: Seq<char>,
    body: Seq<char>,
)
    ensures
        starts_with(build_clean_text_spec(title, subtitle, author, date, body), title),
{
    let lines = clean_text_lines(title, subtitle, author, date, body);
    assert(lines[0] == title);
    lemma_join_starts_with_first(lines, "\n"@);
}

} // verus!
