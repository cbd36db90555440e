//! Text rules of the article extractor: the canonical comparison form of a
//! block, block filtering and de-duplication, URL classification, and the
//! assembly of the reader text that goes to LingQ.
use vstd::prelude::*;
use crate::pattern::{regex_replace_all, regex_replaced};
use crate::text::{
    before_char, before_first, byte_len, byte_len_at_least, chars_of, join_strings, replace_char_in, split_on, trim_ws, char_is_alphanumeric, clean_whitespace, collapse_ws, contains,
    copy_str, eq_ignore_ascii_case, equals_ignore_ascii_case, is_whitespace, is_ws, join, push_char,
    push_str, replace_char, split, starts_with, str_contains, str_equals, str_starts_with,
    string_from, strip_all_prefix, strip_prefixes, to_lowercase, trim, unicode_alphanumeric,
    unicode_lowercase, views,
};

verus! {

/// The site every relative link is resolved against.
pub open spec fn base_url() -> Seq<char> {
    "https://www.soziopolis.de"@
}

/// Characters that survive into the canonical comparison form.
pub open spec fn keep_canonical(c: char) -> bool {
    unicode_alphanumeric(c) || is_ws(c)
}

/// The characters of `s` that survive into the canonical form, in order.
pub open spec fn canonical_chars(s: Seq<char>) -> Seq<char>
    decreases s.len(),
{
    if s.len() == 0 {
        s
    } else {
        let p = canonical_chars(s.drop_last());
        if keep_canonical(s.last()) {
            p.push(s.last())
        } else {
            p
        }
    }
}

/// The comparison form of a text: only alphanumerics and whitespace kept,
/// whitespace collapsed to single spaces, then lower-cased.
pub open spec fn canonical(s: Seq<char>) -> Seq<char> {
    unicode_lowercase(collapse_ws(canonical_chars(s)))
}

/// Two texts count as the same when their non-empty canonical forms agree.
pub open spec fn same_enough_spec(left: Seq<char>, right: Seq<char>) -> bool {
    canonical(left).len() > 0 && canonical(left) == canonical(right)
}

/// Some earlier line has canonical form `c`.
pub open spec fn canonical_seen(lines: Seq<Seq<char>>, c: Seq<char>) -> bool {
    exists|j: int| 0 <= j < lines.len() && canonical(lines[j]) == c
}

/// `lines` keeping only the first line of each canonical form.
pub open spec fn dedupe_canonical(lines: Seq<Seq<char>>) -> Seq<Seq<char>>
    decreases lines.len(),
{
    if lines.len() == 0 {
        lines
    } else {
        let p = dedupe_canonical(lines.drop_last());
        if canonical_seen(lines.drop_last(), canonical(lines.last())) {
            p
        } else {
            p.push(lines.last())
        }
    }
}

/// Page furniture that marks a block as not belonging to the article text.
pub open spec fn skip_block_spec(t: Seq<char>) -> bool {
    ||| t.len() == 0
    ||| contains(t, "Empfehlungen"@)
    ||| contains(t, "Artikel lesen"@)
    ||| contains(t, "Zur PDF-Datei dieses Artikels"@)
    ||| contains(t, "Social Science Open Access Repository"@)
    ||| contains(t, "ISSN 2509-5196"@)
    ||| contains(t, "Zum Seitenanfang"@)
}

/// `raw` resolved against the site: absolute links are kept, a leading
/// slash is appended to the site, anything else is appended after a slash.
pub open spec fn absolute_url_spec(raw: Seq<char>) -> Seq<char> {
    if starts_with(raw, "http://"@) || starts_with(raw, "https://"@) {
        raw
    } else if starts_with(raw, "/"@) {
        base_url() + raw
    } else {
        base_url() + "/"@ + raw
    }
}

/// A link text long enough (10 to 220 bytes) that is not one of the
/// navigation labels.
pub open spec fn looks_like_article_title_spec(title: Seq<char>) -> bool {
    &&& 10 <= byte_len(title) <= 220
    &&& !eq_ignore_ascii_case(title, "Artikel lesen"@)
    &&& !eq_ignore_ascii_case(title, "Essays"@)
    &&& !eq_ignore_ascii_case(title, "Besprechungen"@)
    &&& !eq_ignore_ascii_case(title, "Interviews"@)
    &&& !eq_ignore_ascii_case(title, "Dossiers"@)
}

/// The path of a site URL: the site prefix and leading slashes removed.
pub open spec fn site_path(url: Seq<char>) -> Seq<char> {
    strip_all_prefix(strip_all_prefix(url, base_url()), "/"@)
}

/// Site pages that are listings or service pages rather than articles.
pub open spec fn excluded_exact(path: Seq<char>) -> bool {
    ||| path == "index.html"@
    ||| path == "suche.html"@
    ||| path == "newsletter.html"@
    ||| path == "veroeffentlichen.html"@
    ||| path == "kontakt.html"@
    ||| path == "partner.html"@
    ||| path == "ueber-uns.html"@
    ||| path == "rssfeed.xml"@
    ||| path == "texte/essay.html"@
    ||| path == "texte/interview.html"@
    ||| path == "texte/podcast-video.html"@
    ||| path == "besprechungen.html"@
    ||| path == "dossier.html"@
    ||| path == "soziales-leben.html"@
    ||| path == "gesellschaftstheorie-anthropologie.html"@
    ||| path == "politik-zeitgeschichte.html"@
    ||| path == "wirtschaft-recht.html"@
    ||| path == "kultur-medien.html"@
    ||| path == "wissenschaft-technik.html"@
    ||| path == "zeitschriftenschau.html"@
}

/// Site areas whose pages are never articles.
pub open spec fn excluded_prefix(path: Seq<char>) -> bool {
    ||| starts_with(path, "autoren/"@)
    ||| starts_with(path, "ausschreibungen/"@)
    ||| starts_with(path, "buchforum/"@)
    ||| starts_with(path, "meta/"@)
    ||| starts_with(path, "fileadmin/"@)
    ||| starts_with(path, "dossier/"@)
}

pub open spec fn is_excluded_article_url_spec(url: Seq<char>) -> bool {
    excluded_exact(site_path(url)) || excluded_prefix(site_path(url))
}

/// The section named by the first path segment of a site URL, dashes read
/// as spaces; "Latest" for the front page.
pub open spec fn infer_section_spec(url: Seq<char>) -> Seq<char> {
    let first = before_char(site_path(url), '/');
    if first.len() == 0 {
        "Latest"@
    } else {
        replace_char(first, '-', ' ')
    }
}

/// A text that can serve as the teaser of a listing entry with link text
/// `link_text`.
pub open spec fn good_teaser_spec(text: Seq<char>, link_text: Seq<char>) -> bool {
    if byte_len(text) < 18 || same_enough_spec(text, link_text) || contains(text, "Artikel lesen"@)
        || contains(text, "|"@) {
        false
    } else {
        let lower = unicode_lowercase(text);
        &&& !starts_with(lower, "von "@)
        &&& !contains(lower, "rezension |"@)
        &&& !contains(lower, "interview |"@)
        &&& !contains(lower, "essay |"@)
    }
}

/// One block of an article body as it goes to LingQ, or `None` when the
/// block is dropped (empty, or a repetition of the title or subtitle).
pub open spec fn lingq_block(raw: Seq<char>, title: Seq<char>, subtitle: Seq<char>) -> Option<
    Seq<char>,
> {
    let block = collapse_ws(raw);
    let b = if starts_with(block, "## "@) {
        trim(block.skip(3))
    } else {
        block
    };
    if block.len() == 0 {
        None
    } else if same_enough_spec(b, title) || (subtitle.len() > 0 && same_enough_spec(b, subtitle)) {
        None
    } else {
        Some(b)
    }
}

/// The kept blocks of `raws`, in order.
pub open spec fn lingq_blocks(raws: Seq<Seq<char>>, title: Seq<char>, subtitle: Seq<char>) -> Seq<
    Seq<char>,
>
    decreases raws.len(),
{
    if raws.len() == 0 {
        seq![]
    } else {
        let p = lingq_blocks(raws.drop_last(), title, subtitle);
        match lingq_block(raws.last(), title, subtitle) {
            Some(b) => p.push(b),
            None => p,
        }
    }
}

/// The body prepared for LingQ: blocks split at blank lines, cleaned,
/// stripped of heading marks and of title and subtitle repetitions,
/// de-duplicated, and joined by blank lines.
pub open spec fn normalize_body_spec(body: Seq<char>, title: Seq<char>, subtitle: Seq<char>) -> Seq<
    char,
> {
    join(dedupe_canonical(lingq_blocks(split(body, "\n\n"@), title, subtitle)), "\n\n"@)
}

/// The lines of the reader text: title, subtitle (when it is not the title
/// again), the "Von" line, the date, a blank line, and the body.
pub open spec fn clean_text_lines(
    title: Seq<char>,
    subtitle: Seq<char>,
    author: Seq<char>,
    date: Seq<char>,
    body: Seq<char>,
) -> Seq<Seq<char>> {
    let s = collapse_ws(subtitle);
    let head = if s.len() > 0 && !same_enough_spec(s, title) {
        seq![title, seq![], s]
    } else {
        seq![title]
    };
    let by = if author.len() > 0 {
        seq!["Von "@ + author]
    } else {
        seq![]
    };
    let when = if date.len() > 0 {
        seq![date]
    } else {
        seq![]
    };
    head + by + when + seq![seq![], normalize_body_spec(body, title, s)]
}

pub open spec fn build_clean_text_spec(
    title: Seq<char>,
    subtitle: Seq<char>,
    author: Seq<char>,
    date: Seq<char>,
    body: Seq<char>,
) -> Seq<char> {
    join(clean_text_lines(title, subtitle, author, date, body), "\n"@)
}

// ---------------------------------------------------------------------------

/// The canonical comparison form of `value`.
pub fn canonical_text(value: &str) -> (r: String)
    ensures
        r@ == canonical(value@),
{
    let ghost s = value@;
    let mut kept = String::new();
    for c in it: value.chars()
        invariant
            it.seq() == s,
            kept@ == canonical_chars(s.take(it.index())),
    {
        proof {
            assert(s.take(it.index() + 1).drop_last() =~= s.take(it.index()));
        }
        if char_is_alphanumeric(c) || is_whitespace(c) {
            push_char(&mut kept, c);
        }
    }
    proof {
        assert(s.take(s.len() as int) =~= s);
    }
    let collapsed = clean_whitespace(kept.as_str());
    to_lowercase(collapsed.as_str())
}

/// Whether two texts have the same non-empty canonical form.
pub fn same_enough(left: &str, right: &str) -> (b: bool)
    ensures
        b == same_enough_spec(left@, right@),
{
    let l = canonical_text(left);
    let r = canonical_text(right);
    !l.as_str().is_empty() && l == r
}

/// Whether a block of page text is page furniture rather than article text.
pub fn should_skip_block(text: &str) -> (b: bool)
    ensures
        b == skip_block_spec(text@),
{
    if text.is_empty() {
        return true;
    }
    str_contains(text, "Empfehlungen") || str_contains(text, "Artikel lesen") || str_contains(
        text,
        "Zur PDF-Datei dieses Artikels",
    ) || str_contains(text, "Social Science Open Access Repository") || str_contains(
        text,
        "ISSN 2509-5196",
    ) || str_contains(text, "Zum Seitenanfang")
}

/// `lines` keeping the first line of each canonical form, in order.
pub fn dedupe_lines(lines: &mut Vec<String>)
    ensures
        views(final(lines)@) == dedupe_canonical(views(old(lines)@)),
{
    let ghost src = views(lines@);
    let mut kept: Vec<String> = Vec::new();
    let mut seen: Vec<String> = Vec::new();
    let mut i: usize = 0;
    while i < lines.len()
        invariant
            i <= lines.len(),
            src == views(lines@),
            views(kept@) == dedupe_canonical(src.take(i as int)),
            forall|k: int|
                0 <= k < seen.len() ==> canonical_seen(src.take(i as int), #[trigger] seen@[k]@),
            forall|j: int|
                #![trigger src[j]]
                0 <= j < i ==> exists|k: int| 0 <= k < seen.len() && seen@[k]@ == canonical(src[j]),
        decreases lines.len() - i,
    {
        let c = canonical_text(lines[i].as_str());
        let mut found = false;
        let mut k: usize = 0;
        while k < seen.len()
            invariant
                k <= seen.len(),
                found ==> exists|m: int| 0 <= m < seen.len() && seen@[m]@ == c@,
                !found ==> forall|m: int| 0 <= m < k ==> seen@[m]@ != c@,
            decreases seen.len() - k,
        {
            if seen[k] == c {
                found = true;
            }
            k = k + 1;
        }
        let ghost seen_before = seen@;
        let ghost pre = src.take(i as int);
        let ghost post = src.take(i + 1);
        proof {
            assert(post.drop_last() =~= pre);
            assert(post.last() == src[i as int]);
            assert(src[i as int] == lines@[i as int]@);
            if found {
                let m = choose|m: int| 0 <= m < seen.len() && seen@[m]@ == c@;
                assert(canonical_seen(pre, seen@[m]@));
            } else {
                assert forall|j: int| 0 <= j < pre.len() implies canonical(pre[j]) != c@ by {
                    let m = choose|m: int| 0 <= m < seen.len() && seen@[m]@ == canonical(src[j]);
                    assert(pre[j] == src[j]);
                }
            }
        }
        if !found {
            let line = lines[i].clone();
            proof {
                assert(views(kept@.push(line)) =~= views(kept@).push(src[i as int]));
            }
            kept.push(line);
            seen.push(c);
        }
        proof {
            assert forall|k: int| 0 <= k < seen.len() implies canonical_seen(post, #[trigger] seen@[k]@) by {
                if k < seen.len() - 1 || found {
                    let j = choose|j: int| 0 <= j < pre.len() && canonical(pre[j]) == seen@[k]@;
                    assert(post[j] == pre[j]);
                } else {
                    assert(post[i as int] == src[i as int]);
                }
            }
            assert forall|j: int| #![trigger src[j]] 0 <= j < i + 1 implies exists|k: int|
                0 <= k < seen.len() && seen@[k]@ == canonical(src[j]) by {
                if j == i {
                    if !found {
                        assert(seen@[seen.len() - 1]@ == canonical(src[j]));
                    }
                } else {
                    let k = choose|k: int| 0 <= k < seen_before.len() && seen_before[k]@ == canonical(src[j]);
                    assert(seen@[k] == seen_before[k]);
                }
            }
        }
        i = i + 1;
    }
    proof {
        assert(src.take(lines.len() as int) =~= src);
    }
    *lines = kept;
}

/// Body blocks keeping the first block of each canonical form, in order.
pub fn dedupe_similar_blocks(blocks: &mut Vec<String>)
    ensures
        views(final(blocks)@) == dedupe_canonical(views(old(blocks)@)),
{
    dedupe_lines(blocks);
}

/// The first `max` characters of `input`.
pub fn trim_chars(input: &str, max: usize) -> (out: String)
    ensures
        out@ == input@.take(if max < input@.len() { max as int } else { input@.len() as int }),
{
    let v = chars_of(input);
    let n = if max < v.len() {
        max
    } else {
        v.len()
    };
    let out = string_from(&v, 0, n);
    assert(v@.subrange(0, n as int) =~= v@.take(n as int));
    out
}

/// `raw` resolved against the site.
pub fn absolute_url(raw_href: &str) -> (url: String)
    ensures
        url@ == absolute_url_spec(raw_href@),
{
    if str_starts_with(raw_href, "http://") || str_starts_with(raw_href, "https://") {
        return copy_str(raw_href);
    }
    let mut url = copy_str("https://www.soziopolis.de");
    if str_starts_with(raw_href, "/") {
        push_str(&mut url, raw_href);
    } else {
        push_str(&mut url, "/");
        push_str(&mut url, raw_href);
    }
    url
}

/// Whether a link text looks like an article title.
pub fn looks_like_article_title(title: &str) -> (b: bool)
    ensures
        b == looks_like_article_title_spec(title@),
{
    byte_len_at_least(title, 10) && !byte_len_at_least(title, 221) && !equals_ignore_ascii_case(title, "Artikel lesen")
        && !equals_ignore_ascii_case(title, "Essays") && !equals_ignore_ascii_case(
        title,
        "Besprechungen",
    ) && !equals_ignore_ascii_case(title, "Interviews") && !equals_ignore_ascii_case(
        title,
        "Dossiers",
    )
}

/// The path of a site URL.
pub fn site_path_of(url: &str) -> (path: String)
    ensures
        path@ == site_path(url@),
{
    proof {
        reveal_strlit("https://www.soziopolis.de");
        reveal_strlit("/");
    }
    let without_site = strip_prefixes(url, "https://www.soziopolis.de");
    strip_prefixes(without_site.as_str(), "/")
}

/// Whether a URL names a listing or service page of the site.
pub fn is_excluded_article_url(url: &str) -> (b: bool)
    ensures
        b == is_excluded_article_url_spec(url@),
{
    let path = site_path_of(url);
    let p = path.as_str();
    if str_equals(p, "index.html")
        || str_equals(p, "suche.html")
        || str_equals(p, "newsletter.html")
        || str_equals(p, "veroeffentlichen.html")
        || str_equals(p, "kontakt.html")
        || str_equals(p, "partner.html")
        || str_equals(p, "ueber-uns.html")
        || str_equals(p, "rssfeed.xml")
        || str_equals(p, "texte/essay.html")
        || str_equals(p, "texte/interview.html")
        || str_equals(p, "texte/podcast-video.html")
        || str_equals(p, "besprechungen.html")
        || str_equals(p, "dossier.html")
        || str_equals(p, "soziales-leben.html")
        || str_equals(p, "gesellschaftstheorie-anthropologie.html")
        || str_equals(p, "politik-zeitgeschichte.html")
        || str_equals(p, "wirtschaft-recht.html")
        || str_equals(p, "kultur-medien.html")
        || str_equals(p, "wissenschaft-technik.html")
        || str_equals(p, "zeitschriftenschau.html") {
        return true;
    }
    str_starts_with(p, "autoren/") || str_starts_with(p, "ausschreibungen/") || str_starts_with(
        p,
        "buchforum/",
    ) || str_starts_with(p, "meta/") || str_starts_with(p, "fileadmin/") || str_starts_with(
        p,
        "dossier/",
    )
}

} // verus!

verus! {

/// The section named by the first path segment of a site URL.
pub fn infer_section_from_url(url: &str) -> (section: Option<String>)
    ensures
        section matches Some(s) && s@ == infer_section_spec(url@),
{
    let path = site_path_of(url);
    let first = before_first(path.as_str(), '/');
    if first.as_str().is_empty() {
        return Some(copy_str("Latest"));
    }
    Some(replace_char_in(first.as_str(), '-', ' '))
}

/// Whether `text` can serve as the teaser of a listing entry whose link
/// reads `link_text`.
pub fn is_good_teaser_candidate(text: &str, link_text: &str) -> (b: bool)
    ensures
        b == good_teaser_spec(text@, link_text@),
{
    if !byte_len_at_least(text, 18) || same_enough(text, link_text) || str_contains(
        text,
        "Artikel lesen",
    ) || str_contains(text, "|") {
        return false;
    }
    let lower = to_lowercase(text);
    let l = lower.as_str();
    !str_starts_with(l, "von ") && !str_contains(l, "rezension |") && !str_contains(
        l,
        "interview |",
    ) && !str_contains(l, "essay |")
}

/// One body block prepared for LingQ, or `None` when it is dropped.
fn lingq_block_of(raw: &str, title: &str, subtitle: &str) -> (r: Option<String>)
    ensures
        r matches Some(b) ==> lingq_block(raw@, title@, subtitle@) == Some(b@),
        r is None ==> lingq_block(raw@, title@, subtitle@) is None,
{
    let block = clean_whitespace(raw);
    if block.as_str().is_empty() {
        return None;
    }
    let b = if str_starts_with(block.as_str(), "## ") {
        let v = chars_of(block.as_str());
        proof {
            reveal_strlit("## ");
        }
        let rest = string_from(&v, 3, v.len());
        proof {
            assert(v@.subrange(3, v@.len() as int) =~= block@.skip(3));
        }
        trim_ws(rest.as_str())
    } else {
        block
    };
    if same_enough(b.as_str(), title) || (!subtitle.is_empty() && same_enough(b.as_str(), subtitle)) {
        return None;
    }
    Some(b)
}

/// The article body prepared for LingQ.
pub fn normalize_body_for_lingq(body: &str, title: &str, subtitle: &str) -> (out: String)
    ensures
        out@ == normalize_body_spec(body@, title@, subtitle@),
{
    proof {
        reveal_strlit("\n\n");
    }
    let raws = split_on(body, "\n\n");
    let ghost rv = views(raws@);
    let mut blocks: Vec<String> = Vec::new();
    let mut i: usize = 0;
    while i < raws.len()
        invariant
            i <= raws.len(),
            rv == views(raws@),
            views(blocks@) == lingq_blocks(rv.take(i as int), title@, subtitle@),
        decreases raws.len() - i,
    {
        proof {
            assert(rv.take(i + 1).drop_last() =~= rv.take(i as int));
            assert(rv.take(i + 1).last() == raws@[i as int]@);
        }
        match lingq_block_of(raws[i].as_str(), title, subtitle) {
            Some(b) => {
                proof {
                    assert(views(blocks@.push(b)) =~= views(blocks@).push(b@));
                }
                blocks.push(b);
            },
            None => {},
        }
        i = i + 1;
    }
    proof {
        assert(rv.take(raws.len() as int) =~= rv);
    }
    dedupe_similar_blocks(&mut blocks);
    join_strings(&blocks, "\n\n")
}

/// The reader text sent to LingQ: header lines, a blank line and the body.
pub fn build_clean_text(title: &str, subtitle: &str, author: &str, date: &str, body: &str) -> (out:
    String)
    ensures
        out@ == build_clean_text_spec(title@, subtitle@, author@, date@, body@),
{
    let normalized_subtitle = clean_whitespace(subtitle);
    let normalized_body = normalize_body_for_lingq(body, title, normalized_subtitle.as_str());
    let mut pieces: Vec<String> = Vec::new();
    pieces.push(copy_str(title));
    if !normalized_subtitle.as_str().is_empty() && !same_enough(normalized_subtitle.as_str(), title) {
        pieces.push(String::new());
        pieces.push(normalized_subtitle);
    }
    if !author.is_empty() {
        let mut by = copy_str("Von ");
        push_str(&mut by, author);
        pieces.push(by);
    }
    if !date.is_empty() {
        pieces.push(copy_str(date));
    }
    pieces.push(String::new());
    pieces.push(normalized_body);
    proof {
        assert(views(pieces@) =~= clean_text_lines(title@, subtitle@, author@, date@, body@));
    }
    join_strings(&pieces, "\n")
}

} // verus!

verus! {

/// The pattern of footnote marks such as "[12]".
pub open spec fn footnote_pattern() -> Seq<char> {
    r"\[\d+\]"@
}

/// `text` with footnote marks replaced by spaces (unchanged when the
/// pattern does not compile) and whitespace collapsed.
pub open spec fn inline_markers_spec(text: Seq<char>) -> Seq<char> {
    collapse_ws(
        match regex_replaced(footnote_pattern(), text, " "@) {
            Some(r) => r,
            None => text,
        },
    )
}

/// `text` without footnote marks, whitespace collapsed.
pub fn normalize_inline_markers(text: &str) -> (out: String)
    ensures
        out@ == inline_markers_spec(text@),
{
    match regex_replace_all(r"\[\d+\]", text, " ") {
        Some(r) => clean_whitespace(r.as_str()),
        None => clean_whitespace(text),
    }
}

// ---------------------------------------------------------------------------
// Laws
// ---------------------------------------------------------------------------

/// Resolving a link that was resolved already changes nothing.
pub proof fn law_absolute_url_idempotent(raw: Seq<char>)
    ensures
        absolute_url_spec(absolute_url_spec(raw)) == absolute_url_spec(raw),
{
    reveal_strlit("https://www.soziopolis.de");
    reveal_strlit("https://");
    reveal_strlit("/");
    let r = absolute_url_spec(raw);
    if !(starts_with(raw, "http://"@) || starts_with(raw, "https://"@)) {
        let tail = if starts_with(raw, "/"@) {
            raw
        } else {
            "/"@ + raw
        };
        assert(r =~= base_url() + tail);
        assert(r.take(8) =~= "https://"@);
        assert(starts_with(r, "https://"@));
    }
}

/// Counting as the same text is symmetric, and an empty canonical form is
/// never the same as anything.
pub proof fn law_same_enough_symmetric(left: Seq<char>, right: Seq<char>)
    ensures
        same_enough_spec(left, right) == same_enough_spec(right, left),
        canonical(left).len() == 0 ==> !same_enough_spec(left, right),
{
}

/// Every line of the de-duplicated lines is one of the given lines.
proof fn lemma_dedupe_subset(lines: Seq<Seq<char>>)
    ensures
        forall|l: Seq<char>| #[trigger] dedupe_canonical(lines).contains(l) ==> lines.contains(l),
        dedupe_canonical(lines).len() <= lines.len(),
    decreases lines.len(),
{
    if lines.len() > 0 {
        lemma_dedupe_subset(lines.drop_last());
        let p = dedupe_canonical(lines.drop_last());
        assert forall|l: Seq<char>| #[trigger] dedupe_canonical(lines).contains(l) implies lines.contains(l) by {
            let j = choose|j: int| 0 <= j < dedupe_canonical(lines).len() && dedupe_canonical(lines)[j] == l;
            if j < p.len() {
                assert(p.contains(l));
                let m = choose|m: int| 0 <= m < lines.drop_last().len() && lines.drop_last()[m] == l;
                assert(lines[m] == l);
            } else {
                assert(lines[lines.len() - 1] == l);
            }
        }
    }
}

/// The de-duplicated lines keep one line of each canonical form: no two
/// share a form, and every form of the given lines is there.
proof fn lemma_dedupe_forms(lines: Seq<Seq<char>>)
    ensures
        forall|i: int, j: int|
            0 <= i < j < dedupe_canonical(lines).len() ==> canonical(
                #[trigger] dedupe_canonical(lines)[i],
            ) != canonical(#[trigger] dedupe_canonical(lines)[j]),
        forall|i: int|
            0 <= i < lines.len() ==> canonical_seen(dedupe_canonical(lines), canonical(#[trigger] lines[i])),
    decreases lines.len(),
{
    if lines.len() > 0 {
        let pre = lines.drop_last();
        lemma_dedupe_forms(pre);
        lemma_dedupe_subset(pre);
        let p = dedupe_canonical(pre);
        let d = dedupe_canonical(lines);
        let last = lines.last();
        if !canonical_seen(pre, canonical(last)) {
            assert forall|i: int, j: int| 0 <= i < j < d.len() implies canonical(#[trigger] d[i]) != canonical(
                #[trigger] d[j],
            ) by {
                if j == p.len() {
                    assert(d[i] == p[i]);
                    assert(p.contains(p[i]));
                    assert(pre.contains(p[i]));
                    let m = choose|m: int| 0 <= m < pre.len() && pre[m] == p[i];
                    if canonical(d[i]) == canonical(d[j]) {
                        assert(canonical_seen(pre, canonical(last)));
                    }
                } else {
                    assert(d[i] == p[i] && d[j] == p[j]);
                }
            }
        }
        assert forall|i: int| 0 <= i < lines.len() implies canonical_seen(d, canonical(#[trigger] lines[i])) by {
            if i < lines.len() - 1 {
                assert(pre[i] == lines[i]);
                assert(canonical_seen(p, canonical(pre[i])));
                let m = choose|m: int| 0 <= m < p.len() && canonical(p[m]) == canonical(pre[i]);
                assert(d[m] == p[m]);
            } else if canonical_seen(pre, canonical(last)) {
                let m = choose|m: int| 0 <= m < pre.len() && canonical(pre[m]) == canonical(last);
                assert(canonical_seen(p, canonical(pre[m])));
                let q = choose|q: int| 0 <= q < p.len() && canonical(p[q]) == canonical(pre[m]);
                assert(d[q] == p[q]);
            } else {
                assert(d[p.len() as int] == last);
            }
        }
    }
}

/// Lines whose canonical forms are pairwise distinct are kept as they are.
proof fn lemma_dedupe_distinct_noop(lines: Seq<Seq<char>>)
    requires
        forall|i: int, j: int| 0 <= i < j < lines.len() ==> canonical(#[trigger] lines[i]) != canonical(#[trigger] lines[j]),
    ensures
        dedupe_canonical(lines) == lines,
    decreases lines.len(),
{
    if lines.len() > 0 {
        let pre = lines.drop_last();
        assert forall|i: int, j: int| 0 <= i < j < pre.len() implies canonical(#[trigger] pre[i]) != canonical(
            #[trigger] pre[j],
        ) by {
            assert(pre[i] == lines[i] && pre[j] == lines[j]);
        }
        lemma_dedupe_distinct_noop(pre);
        if canonical_seen(pre, canonical(lines.last())) {
            let m = choose|m: int| 0 <= m < pre.len() && canonical(pre[m]) == canonical(lines.last());
            assert(pre[m] == lines[m]);
            assert(canonical(lines[m]) != canonical(lines[lines.len() - 1]));
        }
        assert(pre.push(lines.last()) =~= lines);
    }
}

/// De-duplication keeps exactly one line of each canonical form, and doing
/// it again changes nothing.
pub proof fn law_dedupe_keeps_one_line_per_form(lines: Seq<Seq<char>>)
    ensures
        forall|i: int, j: int|
            0 <= i < j < dedupe_canonical(lines).len() ==> canonical(
                #[trigger] dedupe_canonical(lines)[i],
            ) != canonical(#[trigger] dedupe_canonical(lines)[j]),
        forall|i: int|
            0 <= i < lines.len() ==> canonical_seen(dedupe_canonical(lines), canonical(#[trigger] lines[i])),
        forall|l: Seq<char>| #[trigger] dedupe_canonical(lines).contains(l) ==> lines.contains(l),
        dedupe_canonical(dedupe_canonical(lines)) == dedupe_canonical(lines),
{
    lemma_dedupe_forms(lines);
    lemma_dedupe_subset(lines);
    lemma_dedupe_distinct_noop(dedupe_canonical(lines));
}

/// A dated reader text has the date as its own header line right before
/// the blank line that opens the body, whether or not an author is named.
pub proof fn law_reader_text_shows_the_date(
    title: Seq<char>,
    subtitle: Seq<char>,
    author: Seq<char>,
    date: Seq<char>,
    body: Seq<char>,
)
    requires
        date.len() > 0,
    ensures
        ({
            let text = build_clean_text_spec(title, subtitle, author, date, body);
            let tail = seq!['\n'] + date + seq!['\n', '\n'] + normalize_body_spec(body, title, collapse_ws(subtitle));
            tail.len() <= text.len() && text.skip(text.len() - tail.len()) == tail
        }),
{
    reveal_strlit("\n");
    let sep: Seq<char> = "\n"@;
    assert(sep =~= seq!['\n']);
    let lines = clean_text_lines(title, subtitle, author, date, body);
    let s = collapse_ws(subtitle);
    let nb = normalize_body_spec(body, title, s);
    let head = if s.len() > 0 && !same_enough_spec(s, title) {
        seq![title, seq![], s]
    } else {
        seq![title]
    };
    let by = if author.len() > 0 {
        seq!["Von "@ + author]
    } else {
        seq![]
    };
    let x = head + by;
    let l1 = x.push(date);
    let l2 = l1.push(seq![]);
    let l3 = l2.push(nb);
    assert(lines =~= l3);
    assert(x.len() > 0);
    crate::text::lemma_join_push(x, date, sep);
    crate::text::lemma_join_push(l1, seq![], sep);
    crate::text::lemma_join_push(l2, nb, sep);
    let text = join(lines, sep);
    let tail = seq!['\n'] + date + seq!['\n', '\n'] + nb;
    assert(text =~= join(x, sep) + tail);
    assert(text.skip(text.len() - tail.len()) =~= tail);
}

} // verus!
