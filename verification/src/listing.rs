//! Reading listing pages: for the link of an entry, the teaser, author,
//! date and section shown around it.
use vstd::prelude::*;
use crate::article::{source_label, source_label_spec};
use crate::clean::{good_teaser_spec, is_good_teaser_candidate, trim_chars};
use crate::extract::{distinct_non_empty, node_text};
use crate::html::{ancestors_of, elem_name, elem_select, elem_text, names_of, node_ancestors, select_within, texts_of};
use crate::soziopolis::Section;
use crate::text::{
    clean_whitespace, collapse_ws, contains, copy_str, join, join_strings, opt_view, str_contains,
    str_views, views,
};

verus! {

/// The cleaned text of element `id`.
pub open spec fn clean_text_of(html: Seq<char>, id: usize) -> Seq<char> {
    collapse_ws(node_text(html, id))
}

/// The elements matching `sel` below `scope` (none when it does not parse
/// or `scope` is no element).
pub open spec fn select_or_empty(html: Seq<char>, scope: usize, sel: Seq<char>) -> Seq<usize> {
    match elem_select(html, scope, sel) {
        Some(ids) => ids,
        None => seq![],
    }
}

/// The first of `ids` whose cleaned text is a good teaser for `link_text`.
pub open spec fn first_teaser(html: Seq<char>, ids: Seq<usize>, link_text: Seq<char>) -> Option<Seq<char>>
    decreases ids.len(),
{
    if ids.len() == 0 {
        None
    } else if good_teaser_spec(clean_text_of(html, ids[0]), link_text) {
        Some(clean_text_of(html, ids[0]))
    } else {
        first_teaser(html, ids.drop_first(), link_text)
    }
}

/// The selectors tried for a teaser, most specific first; plain paragraphs
/// last.
pub open spec fn teaser_selectors() -> Seq<Seq<char>> {
    seq![
        "p.article-abstract"@,
        ".article-abstract"@,
        "p.article-subtitle"@,
        ".article-subtitle"@,
        ".list-text"@,
        "p"@,
    ]
}

/// The teaser found below `scope` by trying `sels` in order.
pub open spec fn teaser_below(html: Seq<char>, scope: usize, sels: Seq<Seq<char>>, link_text: Seq<char>) -> Option<Seq<char>>
    decreases sels.len(),
{
    if sels.len() == 0 {
        None
    } else {
        match first_teaser(html, select_or_empty(html, scope, sels[0]), link_text) {
            Some(t) => Some(t),
            None => teaser_below(html, scope, sels.drop_first(), link_text),
        }
    }
}

/// The teaser found below the first of `ancs` that has one.
pub open spec fn teaser_in_ancestors(html: Seq<char>, ancs: Seq<usize>, link_text: Seq<char>) -> Option<Seq<char>>
    decreases ancs.len(),
{
    if ancs.len() == 0 {
        None
    } else {
        match teaser_below(html, ancs[0], teaser_selectors(), link_text) {
            Some(t) => Some(t),
            None => teaser_in_ancestors(html, ancs.drop_first(), link_text),
        }
    }
}

/// At most the first `n` elements of `s`.
pub open spec fn first_n(s: Seq<usize>, n: int) -> Seq<usize> {
    if s.len() <= n {
        s
    } else {
        s.take(n)
    }
}

/// The teaser of the listing entry whose heading link is `link`: the first
/// good candidate below one of its five nearest ancestors, cut to 240
/// characters; empty when there is none.
pub open spec fn teaser_spec(html: Seq<char>, link: usize) -> Seq<char> {
    match teaser_in_ancestors(html, first_n(node_ancestors(html, link), 5), node_text(html, link)) {
        Some(t) => if t.len() <= 240 {
            t
        } else {
            t.take(240)
        },
        None => seq![],
    }
}

/// A context text: not empty and without a '|'.
pub open spec fn context_value(t: Seq<char>) -> bool {
    t.len() > 0 && !contains(t, "|"@)
}

/// The first of `ids` with a context text.
pub open spec fn first_context(html: Seq<char>, ids: Seq<usize>) -> Option<Seq<char>>
    decreases ids.len(),
{
    if ids.len() == 0 {
        None
    } else if context_value(clean_text_of(html, ids[0])) {
        Some(clean_text_of(html, ids[0]))
    } else {
        first_context(html, ids.drop_first())
    }
}

/// The selector of section hints around a link.
pub open spec fn context_selector() -> Seq<char> {
    ".article-type, .article-overline, .article-categories a"@
}

pub open spec fn context_in_ancestors(html: Seq<char>, ancs: Seq<usize>) -> Option<Seq<char>>
    decreases ancs.len(),
{
    if ancs.len() == 0 {
        None
    } else {
        match first_context(html, select_or_empty(html, ancs[0], context_selector())) {
            Some(t) => Some(t),
            None => context_in_ancestors(html, ancs.drop_first()),
        }
    }
}

/// The section named around a link: the first section hint below one of
/// its four nearest ancestors.
pub open spec fn context_section_spec(html: Seq<char>, link: usize) -> Option<Seq<char>> {
    context_in_ancestors(html, first_n(node_ancestors(html, link), 4))
}

/// The element ancestors among `ancs`, in order.
pub open spec fn element_ancestors(html: Seq<char>, ancs: Seq<usize>) -> Seq<usize>
    decreases ancs.len(),
{
    if ancs.len() == 0 {
        seq![]
    } else {
        let p = element_ancestors(html, ancs.drop_last());
        if elem_name(html, ancs.last()) is Some {
            p.push(ancs.last())
        } else {
            p
        }
    }
}

/// The selector of the marks of a listing entry.
pub open spec fn marker_selector() -> Seq<char> {
    ".article-overline, .article-abstract, .article-type, .article-date, .list-text"@
}

pub open spec fn first_with_marker(html: Seq<char>, ids: Seq<usize>) -> Option<usize>
    decreases ids.len(),
{
    if ids.len() == 0 {
        None
    } else if select_or_empty(html, ids[0], marker_selector()).len() > 0 {
        Some(ids[0])
    } else {
        first_with_marker(html, ids.drop_first())
    }
}

/// The listing entry around a link: the nearest of its six nearest element
/// ancestors that holds an entry mark.
pub open spec fn listing_container_spec(html: Seq<char>, link: usize) -> Option<usize> {
    first_with_marker(html, first_n(element_ancestors(html, node_ancestors(html, link)), 6))
}

// ---------------------------------------------------------------------------

/// The cleaned texts of `ids`, in order.
fn clean_texts(html: &str, ids: &Vec<usize>) -> (r: Vec<String>)
    ensures
        r@.len() == ids@.len(),
        forall|i: int| 0 <= i < ids@.len() ==> r@[i]@ == clean_text_of(html@, ids@[i]),
{
    let texts = texts_of(html, ids);
    let mut out: Vec<String> = Vec::new();
    let mut k: usize = 0;
    while k < ids.len()
        invariant
            k <= ids.len(),
            texts@.len() == ids@.len(),
            forall|i: int| 0 <= i < ids@.len() ==> views(texts@[i]@) == elem_text(html@, ids@[i]),
            out@.len() == k,
            forall|i: int| 0 <= i < k ==> out@[i]@ == clean_text_of(html@, ids@[i]),
        decreases ids.len() - k,
    {
        let joined = join_strings(&texts[k], " ");
        proof {
            reveal_strlit(" ");
            assert(" "@ =~= seq![' ']);
        }
        out.push(clean_whitespace(joined.as_str()));
        k = k + 1;
    }
    out
}

/// The elements matching `selector` below `scope`, or none.
fn select_below(html: &str, scope: usize, selector: &str) -> (r: Vec<usize>)
    ensures
        r@ == select_or_empty(html@, scope, selector@),
{
    match select_within(html, scope, selector) {
        Some(ids) => ids,
        None => Vec::new(),
    }
}

/// The first of `ids` whose cleaned text is a good teaser.
fn first_teaser_of(html: &str, ids: &Vec<usize>, link_text: &str) -> (r: Option<String>)
    ensures
        opt_view(r) == first_teaser(html@, ids@, link_text@),
{
    let texts = clean_texts(html, ids);
    let mut k: usize = 0;
    proof {
        assert(ids@.skip(0) =~= ids@);
    }
    while k < ids.len()
        invariant
            k <= ids.len(),
            texts@.len() == ids@.len(),
            forall|i: int| 0 <= i < ids@.len() ==> texts@[i]@ == clean_text_of(html@, ids@[i]),
            first_teaser(html@, ids@, link_text@) == first_teaser(html@, ids@.skip(k as int), link_text@),
        decreases ids.len() - k,
    {
        proof {
            assert(ids@.skip(k as int)[0] == ids@[k as int]);
            assert(ids@.skip(k as int).drop_first() =~= ids@.skip(k + 1));
        }
        if is_good_teaser_candidate(texts[k].as_str(), link_text) {
            return Some(texts[k].clone());
        }
        k = k + 1;
    }
    None
}

/// The teaser below `scope`.
fn teaser_below_of(html: &str, scope: usize, link_text: &str) -> (r: Option<String>)
    ensures
        opt_view(r) == teaser_below(html@, scope, teaser_selectors(), link_text@),
{
    let sels = [
        "p.article-abstract",
        ".article-abstract",
        "p.article-subtitle",
        ".article-subtitle",
        ".list-text",
        "p",
    ];
    let ghost sv = str_views(sels@);
    proof {
        assert(sv =~= teaser_selectors());
        assert(sv.skip(0) =~= sv);
    }
    let mut k: usize = 0;
    while k < 6
        invariant
            k <= 6,
            sels@.len() == 6,
            sv == str_views(sels@),
            sv == teaser_selectors(),
            teaser_below(html@, scope, sv, link_text@) == teaser_below(html@, scope, sv.skip(k as int), link_text@),
        decreases 6 - k,
    {
        proof {
            assert(sv.skip(k as int)[0] == sels@[k as int]@);
            assert(sv.skip(k as int).drop_first() =~= sv.skip(k + 1));
        }
        let ids = select_below(html, scope, sels[k]);
        match first_teaser_of(html, &ids, link_text) {
            Some(t) => {
                return Some(t);
            },
            None => {},
        }
        k = k + 1;
    }
    None
}

/// At most the first `n` of `v`.
fn first_n_of(v: Vec<usize>, n: usize) -> (r: Vec<usize>)
    ensures
        r@ == first_n(v@, n as int),
{
    if v.len() <= n {
        return v;
    }
    let mut r: Vec<usize> = Vec::new();
    let mut k: usize = 0;
    while k < n
        invariant
            k <= n < v.len(),
            r@ == v@.take(k as int),
        decreases n - k,
    {
        r.push(v[k]);
        k = k + 1;
        assert(r@ =~= v@.take(k as int));
    }
    r
}

/// The teaser of the listing entry whose heading link is `link`.
pub fn extract_teaser_from_heading(html: &str, link: usize) -> (teaser: String)
    ensures
        teaser@ == teaser_spec(html@, link),
{
    let link_ids = vec![link];
    let link_texts = texts_of(html, &link_ids);
    let link_text = join_strings(&link_texts[0], " ");
    proof {
        reveal_strlit(" ");
        assert(" "@ =~= seq![' ']);
        assert(link_text@ == node_text(html@, link));
    }
    let ancs = first_n_of(ancestors_of(html, link), 5);
    let mut k: usize = 0;
    proof {
        assert(ancs@.skip(0) =~= ancs@);
    }
    while k < ancs.len()
        invariant
            k <= ancs.len(),
            ancs@ == first_n(node_ancestors(html@, link), 5),
            link_text@ == node_text(html@, link),
            teaser_in_ancestors(html@, ancs@, link_text@) == teaser_in_ancestors(
                html@,
                ancs@.skip(k as int),
                link_text@,
            ),
        decreases ancs.len() - k,
    {
        proof {
            assert(ancs@.skip(k as int)[0] == ancs@[k as int]);
            assert(ancs@.skip(k as int).drop_first() =~= ancs@.skip(k + 1));
        }
        match teaser_below_of(html, ancs[k], link_text.as_str()) {
            Some(t) => {
                return trim_chars(t.as_str(), 240);
            },
            None => {},
        }
        k = k + 1;
    }
    String::new()
}

/// The first of `ids` with a context text.
fn first_context_of(html: &str, ids: &Vec<usize>) -> (r: Option<String>)
    ensures
        opt_view(r) == first_context(html@, ids@),
{
    let texts = clean_texts(html, ids);
    let mut k: usize = 0;
    proof {
        assert(ids@.skip(0) =~= ids@);
        reveal_strlit("|");
    }
    while k < ids.len()
        invariant
            k <= ids.len(),
            texts@.len() == ids@.len(),
            forall|i: int| 0 <= i < ids@.len() ==> texts@[i]@ == clean_text_of(html@, ids@[i]),
            first_context(html@, ids@) == first_context(html@, ids@.skip(k as int)),
        decreases ids.len() - k,
    {
        proof {
            assert(ids@.skip(k as int)[0] == ids@[k as int]);
            assert(ids@.skip(k as int).drop_first() =~= ids@.skip(k + 1));
        }
        let t = texts[k].as_str();
        if !t.is_empty() && !str_contains(t, "|") {
            return Some(texts[k].clone());
        }
        k = k + 1;
    }
    None
}

/// The section named around a link.
pub fn extract_context_section(html: &str, link: usize) -> (r: Option<String>)
    ensures
        opt_view(r) == context_section_spec(html@, link),
{
    let ancs = first_n_of(ancestors_of(html, link), 4);
    let mut k: usize = 0;
    proof {
        assert(ancs@.skip(0) =~= ancs@);
    }
    while k < ancs.len()
        invariant
            k <= ancs.len(),
            ancs@ == first_n(node_ancestors(html@, link), 4),
            context_in_ancestors(html@, ancs@) == context_in_ancestors(html@, ancs@.skip(k as int)),
        decreases ancs.len() - k,
    {
        proof {
            assert(ancs@.skip(k as int)[0] == ancs@[k as int]);
            assert(ancs@.skip(k as int).drop_first() =~= ancs@.skip(k + 1));
        }
        let ids = select_below(html, ancs[k], ".article-type, .article-overline, .article-categories a");
        match first_context_of(html, &ids) {
            Some(t) => {
                return Some(t);
            },
            None => {},
        }
        k = k + 1;
    }
    None
}

/// The listing entry around a link.
pub fn nearest_listing_container(html: &str, link: usize) -> (r: Option<usize>)
    ensures
        r == listing_container_spec(html@, link),
{
    let ancs = ancestors_of(html, link);
    let names = names_of(html, &ancs);
    let mut elems: Vec<usize> = Vec::new();
    let mut k: usize = 0;
    while k < ancs.len()
        invariant
            k <= ancs.len(),
            ancs@ == node_ancestors(html@, link),
            names@.len() == ancs@.len(),
            forall|i: int| 0 <= i < ancs@.len() ==> opt_view(names@[i]) == elem_name(html@, ancs@[i]),
            elems@ == element_ancestors(html@, ancs@.take(k as int)),
        decreases ancs.len() - k,
    {
        proof {
            assert(ancs@.take(k + 1).drop_last() =~= ancs@.take(k as int));
            assert(ancs@.take(k + 1).last() == ancs@[k as int]);
        }
        if names[k].is_some() {
            elems.push(ancs[k]);
        }
        k = k + 1;
    }
    proof {
        assert(ancs@.take(ancs.len() as int) =~= ancs@);
    }
    let cands = first_n_of(elems, 6);
    let mut j: usize = 0;
    proof {
        assert(cands@.skip(0) =~= cands@);
    }
    while j < cands.len()
        invariant
            j <= cands.len(),
            cands@ == first_n(element_ancestors(html@, node_ancestors(html@, link)), 6),
            first_with_marker(html@, cands@) == first_with_marker(html@, cands@.skip(j as int)),
        decreases cands.len() - j,
    {
        proof {
            assert(cands@.skip(j as int)[0] == cands@[j as int]);
            assert(cands@.skip(j as int).drop_first() =~= cands@.skip(j + 1));
        }
        let marks = select_below(
            html,
            cands[j],
            ".article-overline, .article-abstract, .article-type, .article-date, .list-text",
        );
        if marks.len() > 0 {
            return Some(cands[j]);
        }
        j = j + 1;
    }
    None
}

} // verus!

verus! {

/// Author, date and section shown for a listing entry.
#[derive(Debug)]
pub struct ListingMetadata {
    pub author: String,
    pub date: String,
    pub section: String,
}

/// The author, date and section found in the entry container `c`.
pub open spec fn container_metadata(html: Seq<char>, c: usize) -> (Seq<char>, Seq<char>, Seq<char>) {
    let authors = distinct_non_empty(
        crate::extract::cleaned_texts(html, select_or_empty(html, c, ".author-name"@)),
    );
    let date = match crate::extract::first_non_empty_text(html, select_or_empty(html, c, ".article-date, time"@)) {
        Some(d) => d,
        None => seq![],
    };
    let section = match first_context(html, select_or_empty(html, c, ".article-type, .article-categories a"@)) {
        Some(s) => s,
        None => seq![],
    };
    (join(authors, ", "@), date, section)
}

/// The metadata of the listing entry whose link is `link`: what its entry
/// container shows; a missing section taken from `fallback_section`, else
/// from the context of the link, else from the label of the source page.
pub open spec fn listing_metadata_spec(
    html: Seq<char>,
    link: usize,
    fallback_section: Option<Seq<char>>,
    source_url: Seq<char>,
    sections: Seq<Section>,
) -> (Seq<char>, Seq<char>, Seq<char>) {
    let found = match listing_container_spec(html, link) {
        Some(c) => container_metadata(html, c),
        None => (seq![], seq![], seq![]),
    };
    let section = if found.2.len() > 0 {
        found.2
    } else {
        match fallback_section {
            Some(f) => f,
            None => match context_section_spec(html, link) {
                Some(s) => s,
                None => source_label_spec(sections, source_url),
            },
        }
    };
    (found.0, found.1, section)
}

/// The metadata of the listing entry whose link is `link`.
pub fn extract_listing_metadata(
    html: &str,
    link: usize,
    fallback_section: Option<&str>,
    source_url: &str,
    sections: &[Section],
) -> (m: ListingMetadata)
    ensures
        (m.author@, m.date@, m.section@) == listing_metadata_spec(
            html@,
            link,
            match fallback_section {
                Some(f) => Some(f@),
                None => None,
            },
            source_url@,
            sections@,
        ),
{
    let mut author = String::new();
    let mut date = String::new();
    let mut section = String::new();
    match nearest_listing_container(html, link) {
        Some(c) => {
            let authors = crate::extract::cleaned_texts_of(html, Some(c), ".author-name");
            let distinct = crate::extract::distinct_non_empty_of(&authors);
            author = join_strings(&distinct, ", ");
            let date_ids = select_below(html, c, ".article-date, time");
            date = match crate::extract::first_non_empty_text_of(html, &date_ids) {
                Some(d) => d,
                None => String::new(),
            };
            let section_ids = select_below(html, c, ".article-type, .article-categories a");
            section = match first_context_of(html, &section_ids) {
                Some(s) => s,
                None => String::new(),
            };
        },
        None => {},
    }
    if section.as_str().is_empty() {
        section = match fallback_section {
            Some(f) => copy_str(f),
            None => match extract_context_section(html, link) {
                Some(s) => s,
                None => source_label(sections, source_url),
            },
        };
    }
    ListingMetadata { author, date, section }
}

/// When the entry around a link shows no section, a given fallback section
/// is the section of the metadata, whatever the page around the link says.
pub proof fn law_fallback_section_fills_missing_section(
    html: Seq<char>,
    link: usize,
    fallback: Seq<char>,
    source_url: Seq<char>,
    sections: Seq<Section>,
)
    requires
        match listing_container_spec(html, link) {
            Some(c) => container_metadata(html, c).2.len() == 0,
            None => true,
        },
    ensures
        listing_metadata_spec(html, link, Some(fallback), source_url, sections).2 == fallback,
{
}

} // verus!
