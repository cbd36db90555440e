//! Reading article pages: the metadata (title, authors, date, section) and
//! the body blocks of a Soziopolis article, picked from the parsed page.
use vstd::prelude::*;
use crate::clean::{dedupe_canonical, dedupe_lines, normalize_inline_markers, skip_block_spec, should_skip_block, inline_markers_spec};
use crate::html::{
    attrs_of, doc_select, elem_attr, elem_name, elem_select, elem_text, names_of, select_document,
    select_within, texts_of,
};
use crate::pattern::{regex_capture, regex_captured};
use crate::text::{
    byte_len, byte_len_at_least, clean_whitespace, collapse_ws, copy_str, join, join_strings, push_str,
    opt_view, split, split_on, str_equals, str_views, trim, trim_ws, views,
};

verus! {

/// The text of element `id`: its text nodes joined by single spaces.
pub open spec fn node_text(html: Seq<char>, id: usize) -> Seq<char> {
    join(elem_text(html, id), seq![' '])
}

/// The value an element offers as metadata: its cleaned `content`
/// attribute when it has one, else its cleaned text when that is not empty.
pub open spec fn node_value(html: Seq<char>, id: usize) -> Option<Seq<char>> {
    match elem_attr(html, id, "content"@) {
        Some(a) => Some(collapse_ws(a)),
        None => {
            let t = collapse_ws(node_text(html, id));
            if t.len() > 0 {
                Some(t)
            } else {
                None
            }
        },
    }
}

/// The value of the first of `ids` that offers one.
pub open spec fn first_value(html: Seq<char>, ids: Seq<usize>) -> Option<Seq<char>>
    decreases ids.len(),
{
    if ids.len() == 0 {
        None
    } else {
        match node_value(html, ids[0]) {
            Some(v) => Some(v),
            None => first_value(html, ids.drop_first()),
        }
    }
}

/// The first non-empty value found by trying the selectors in order over
/// the whole document; `None` at the first selector that does not parse.
pub open spec fn first_text_spec(html: Seq<char>, sels: Seq<Seq<char>>) -> Option<Seq<char>>
    decreases sels.len(),
{
    if sels.len() == 0 {
        None
    } else {
        match doc_select(html, sels[0]) {
            None => None,
            Some(ids) => match first_value(html, ids) {
                Some(v) => if v.len() > 0 {
                    Some(v)
                } else {
                    first_text_spec(html, sels.drop_first())
                },
                None => first_text_spec(html, sels.drop_first()),
            },
        }
    }
}

/// As `first_text_spec`, but searching below the element `root`.
pub open spec fn first_text_within(html: Seq<char>, root: usize, sels: Seq<Seq<char>>) -> Option<
    Option<Seq<char>>,
>
    decreases sels.len(),
{
    if sels.len() == 0 {
        Some(None)
    } else {
        match elem_select(html, root, sels[0]) {
            None => None,
            Some(ids) => match first_value(html, ids) {
                Some(v) => if v.len() > 0 {
                    Some(Some(v))
                } else {
                    first_text_within(html, root, sels.drop_first())
                },
                None => first_text_within(html, root, sels.drop_first()),
            },
        }
    }
}

/// The first of `ids` that is an `article` holding an `.article-content`.
pub open spec fn first_article_with_content(html: Seq<char>, ids: Seq<usize>) -> Option<usize>
    decreases ids.len(),
{
    if ids.len() == 0 {
        None
    } else if elem_select(html, ids[0], ".article-content"@) matches Some(c) && c.len() > 0 {
        Some(ids[0])
    } else {
        first_article_with_content(html, ids.drop_first())
    }
}

/// The article element that holds the article's content, whose metadata
/// wins over the rest of the page.
pub open spec fn metadata_root(html: Seq<char>) -> Option<usize> {
    match doc_select(html, "article"@) {
        Some(ids) => first_article_with_content(html, ids),
        None => None,
    }
}

/// A value found below the metadata root, else in the whole document.
pub open spec fn first_article_text_spec(html: Seq<char>, sels: Seq<Seq<char>>) -> Option<Seq<char>> {
    match metadata_root(html) {
        Some(root) => match first_text_within(html, root, sels) {
            None => None,
            Some(Some(v)) => Some(v),
            Some(None) => first_text_spec(html, sels),
        },
        None => first_text_spec(html, sels),
    }
}

/// The elements matching `sel` below `root` when there is a root, else in
/// the document (none when the selector does not parse).
pub open spec fn scoped_select(html: Seq<char>, root: Option<usize>, sel: Seq<char>) -> Seq<usize> {
    let found = match root {
        Some(r) => elem_select(html, r, sel),
        None => doc_select(html, sel),
    };
    match found {
        Some(ids) => ids,
        None => seq![],
    }
}

/// The cleaned texts of `ids`.
pub open spec fn cleaned_texts(html: Seq<char>, ids: Seq<usize>) -> Seq<Seq<char>> {
    ids.map_values(|id: usize| collapse_ws(node_text(html, id)))
}

/// The non-empty texts, in order.
pub open spec fn non_empty(vals: Seq<Seq<char>>) -> Seq<Seq<char>>
    decreases vals.len(),
{
    if vals.len() == 0 {
        vals
    } else {
        let p = non_empty(vals.drop_last());
        if vals.last().len() > 0 {
            p.push(vals.last())
        } else {
            p
        }
    }
}

/// The non-empty texts, each kept at its first occurrence only.
pub open spec fn distinct_non_empty(vals: Seq<Seq<char>>) -> Seq<Seq<char>>
    decreases vals.len(),
{
    if vals.len() == 0 {
        vals
    } else {
        let p = distinct_non_empty(vals.drop_last());
        if vals.last().len() > 0 && !p.contains(vals.last()) {
            p.push(vals.last())
        } else {
            p
        }
    }
}

/// The authors of the article: the author names of the article's overline,
/// joined by commas; failing those, the distinct author names of any
/// overline or article header.
pub open spec fn authors_spec(html: Seq<char>) -> Seq<char> {
    let root = metadata_root(html);
    let primary = non_empty(
        cleaned_texts(html, scoped_select(html, root, "p.article-overline .author-name"@)),
    );
    if primary.len() > 0 {
        join(primary, ", "@)
    } else {
        join(
            distinct_non_empty(
                cleaned_texts(
                    html,
                    scoped_select(
                        html,
                        root,
                        ".article-overline .author-name, .article-header .author-name"@,
                    ),
                ),
            ),
            ", "@,
        )
    }
}

/// The first non-empty text of `ids`.
pub open spec fn first_non_empty_text(html: Seq<char>, ids: Seq<usize>) -> Option<Seq<char>>
    decreases ids.len(),
{
    if ids.len() == 0 {
        None
    } else if collapse_ws(node_text(html, ids[0])).len() > 0 {
        Some(collapse_ws(node_text(html, ids[0])))
    } else {
        first_non_empty_text(html, ids.drop_first())
    }
}

/// The first non-empty trimmed comma-separated part.
pub open spec fn first_keyword(parts: Seq<Seq<char>>) -> Option<Seq<char>>
    decreases parts.len(),
{
    if parts.len() == 0 {
        None
    } else if trim(parts[0]).len() > 0 {
        Some(trim(parts[0]))
    } else {
        first_keyword(parts.drop_first())
    }
}

/// The section from the keywords meta elements: the first keyword of the
/// first element that has one; `None` as soon as such an element lacks a
/// `content` attribute.
pub open spec fn keyword_section(html: Seq<char>, ids: Seq<usize>) -> Option<Seq<char>>
    decreases ids.len(),
{
    if ids.len() == 0 {
        None
    } else {
        match elem_attr(html, ids[0], "content"@) {
            None => None,
            Some(a) => match first_keyword(split(collapse_ws(a), ","@)) {
                Some(k) => Some(k),
                None => keyword_section(html, ids.drop_first()),
            },
        }
    }
}

/// The section of an article: its article type, else its first category
/// link, else its first keyword.
pub open spec fn section_spec(html: Seq<char>) -> Option<Seq<char>> {
    let from_type = match first_text_spec(html, seq![".article-type"@]) {
        Some(t) => if collapse_ws(t).len() > 0 {
            Some(collapse_ws(t))
        } else {
            None
        },
        None => None,
    };
    if from_type is Some {
        from_type
    } else {
        match doc_select(html, "p.article-categories a"@) {
            None => None,
            Some(cats) => match first_non_empty_text(html, cats) {
                Some(v) => Some(v),
                None => match doc_select(html, "meta[name=\"keywords\"]"@) {
                    None => None,
                    Some(kws) => keyword_section(html, kws),
                },
            },
        }
    }
}

/// The pattern that finds a date in the raw page source.
pub open spec fn date_pattern() -> Seq<char> {
    r#"article-date\">\s*([^<]+)\s*<"#@
}

/// The date shown in an `article-date` element of the raw source.
pub open spec fn date_from_source_spec(html: Seq<char>) -> Option<Seq<char>> {
    match regex_captured(date_pattern(), html, 1) {
        Some(d) => Some(collapse_ws(d)),
        None => None,
    }
}

/// A body block with tag `name` and cleaned text `text`: headings of at
/// least 4 bytes marked with "## ", list items of at least 16 bytes marked
/// with "- ", quotes of at least 30 and paragraphs of at least 35 bytes kept
/// as they are; furniture and anything else dropped.
pub open spec fn body_block(name: Option<Seq<char>>, text: Seq<char>) -> Option<Seq<char>> {
    if skip_block_spec(text) {
        None
    } else if (name == Some("h2"@) || name == Some("h3"@)) && byte_len(text) >= 4 {
        Some("## "@ + text)
    } else if name == Some("li"@) && byte_len(text) >= 16 {
        Some("- "@ + text)
    } else if name == Some("blockquote"@) && byte_len(text) >= 30 {
        Some(text)
    } else if name == Some("p"@) && byte_len(text) >= 35 {
        Some(text)
    } else {
        None
    }
}

/// The text of a body element: cleaned, footnote marks removed.
pub open spec fn block_text(html: Seq<char>, id: usize) -> Seq<char> {
    inline_markers_spec(collapse_ws(node_text(html, id)))
}

/// The kept blocks among `ids`.
pub open spec fn blocks_of(html: Seq<char>, ids: Seq<usize>) -> Seq<Seq<char>>
    decreases ids.len(),
{
    if ids.len() == 0 {
        seq![]
    } else {
        let p = blocks_of(html, ids.drop_last());
        match body_block(elem_name(html, ids.last()), block_text(html, ids.last())) {
            Some(b) => p.push(b),
            None => p,
        }
    }
}

/// The selector of body elements.
pub open spec fn block_selector() -> Seq<char> {
    "p, h2, h3, li, blockquote"@
}

/// The kept blocks of one content container.
pub open spec fn container_blocks(html: Seq<char>, c: usize) -> Seq<Seq<char>> {
    match elem_select(html, c, block_selector()) {
        Some(ids) => blocks_of(html, ids),
        None => seq![],
    }
}

/// The blocks of the container with the most blocks (the first such).
pub open spec fn best_blocks(html: Seq<char>, cs: Seq<usize>) -> Seq<Seq<char>>
    decreases cs.len(),
{
    if cs.len() == 0 {
        seq![]
    } else {
        let p = best_blocks(html, cs.drop_last());
        let b = container_blocks(html, cs.last());
        if b.len() > p.len() {
            b
        } else {
            p
        }
    }
}

/// The body of an article: the de-duplicated blocks of its richest
/// `.article-content` container; `None` when there are none.
pub open spec fn body_spec(html: Seq<char>) -> Option<Seq<char>> {
    let cs = match doc_select(html, ".article-content"@) {
        Some(ids) => ids,
        None => seq![],
    };
    let blocks = dedupe_canonical(best_blocks(html, cs));
    if blocks.len() == 0 {
        None
    } else {
        Some(join(blocks, "\n\n"@))
    }
}


} // verus!

verus! {

/// The text of an element: its text nodes joined by spaces, whitespace
/// collapsed.
fn collect_text(nodes: &Vec<String>) -> (t: String)
    ensures
        t@ == collapse_ws(join(views(nodes@), seq![' '])),
{
    let joined = join_strings(nodes, " ");
    proof {
        reveal_strlit(" ");
        assert(" "@ =~= seq![' ']);
    }
    clean_whitespace(joined.as_str())
}

/// The value of the first of `ids` that offers one.
fn first_value_of(html: &str, ids: &Vec<usize>) -> (r: Option<String>)
    ensures
        opt_view(r) == first_value(html@, ids@),
{
    let attrs = attrs_of(html, ids, "content");
    let texts = texts_of(html, ids);
    let mut k: usize = 0;
    proof {
        reveal_strlit("content");
        assert(ids@.skip(0) =~= ids@);
    }
    while k < ids.len()
        invariant
            k <= ids.len(),
            attrs@.len() == ids@.len(),
            texts@.len() == ids@.len(),
            forall|i: int| 0 <= i < ids@.len() ==> opt_view(attrs@[i]) == elem_attr(html@, ids@[i], "content"@),
            forall|i: int| 0 <= i < ids@.len() ==> views(texts@[i]@) == elem_text(html@, ids@[i]),
            first_value(html@, ids@) == first_value(html@, ids@.skip(k as int)),
        decreases ids.len() - k,
    {
        proof {
            assert(ids@.skip(k as int)[0] == ids@[k as int]);
            assert(ids@.skip(k as int).drop_first() =~= ids@.skip(k + 1));
        }
        match &attrs[k] {
            Some(a) => {
                return Some(clean_whitespace(a.as_str()));
            },
            None => {
                let t = collect_text(&texts[k]);
                if !t.as_str().is_empty() {
                    return Some(t);
                }
            },
        }
        k = k + 1;
    }
    None
}

/// The first non-empty value found by trying `selectors` in order.
pub fn first_text(html: &str, selectors: &[&str]) -> (r: Option<String>)
    ensures
        opt_view(r) == first_text_spec(html@, str_views(selectors@)),
{
    let ghost sv = str_views(selectors@);
    let mut i: usize = 0;
    proof {
        assert(sv.skip(0) =~= sv);
    }
    while i < selectors.len()
        invariant
            i <= selectors.len(),
            sv == str_views(selectors@),
            first_text_spec(html@, sv) == first_text_spec(html@, sv.skip(i as int)),
        decreases selectors.len() - i,
    {
        proof {
            assert(sv.skip(i as int)[0] == selectors@[i as int]@);
            assert(sv.skip(i as int).drop_first() =~= sv.skip(i + 1));
        }
        let ids = match select_document(html, selectors[i]) {
            Some(ids) => ids,
            None => return None,
        };
        match first_value_of(html, &ids) {
            Some(v) => {
                if !v.as_str().is_empty() {
                    return Some(v);
                }
            },
            None => {},
        }
        i = i + 1;
    }
    None
}

/// As `first_text`, below the element `root`; `None` when a selector does
/// not parse, `Some(None)` when nothing was found.
fn first_text_below(html: &str, root: usize, selectors: &[&str]) -> (r: Option<Option<String>>)
    ensures
        match r {
            None => first_text_within(html@, root, str_views(selectors@)) is None,
            Some(o) => first_text_within(html@, root, str_views(selectors@)) == Some(opt_view(o)),
        },
{
    let ghost sv = str_views(selectors@);
    let mut i: usize = 0;
    proof {
        assert(sv.skip(0) =~= sv);
    }
    while i < selectors.len()
        invariant
            i <= selectors.len(),
            sv == str_views(selectors@),
            first_text_within(html@, root, sv) == first_text_within(html@, root, sv.skip(i as int)),
        decreases selectors.len() - i,
    {
        proof {
            assert(sv.skip(i as int)[0] == selectors@[i as int]@);
            assert(sv.skip(i as int).drop_first() =~= sv.skip(i + 1));
        }
        let ids = match select_within(html, root, selectors[i]) {
            Some(ids) => ids,
            None => return None,
        };
        match first_value_of(html, &ids) {
            Some(v) => {
                if !v.as_str().is_empty() {
                    return Some(Some(v));
                }
            },
            None => {},
        }
        i = i + 1;
    }
    Some(None)
}

/// The article element that holds the article content.
pub fn article_metadata_root(html: &str) -> (r: Option<usize>)
    ensures
        r == metadata_root(html@),
{
    proof {
        reveal_strlit("article");
        reveal_strlit(".article-content");
    }
    let ids = match select_document(html, "article") {
        Some(ids) => ids,
        None => return None,
    };
    let mut k: usize = 0;
    proof {
        assert(ids@.skip(0) =~= ids@);
    }
    while k < ids.len()
        invariant
            k <= ids.len(),
            doc_select(html@, "article"@) == Some(ids@),
            first_article_with_content(html@, ids@) == first_article_with_content(html@, ids@.skip(k as int)),
        decreases ids.len() - k,
    {
        proof {
            assert(ids@.skip(k as int)[0] == ids@[k as int]);
            assert(ids@.skip(k as int).drop_first() =~= ids@.skip(k + 1));
        }
        match select_within(html, ids[k], ".article-content") {
            Some(c) => {
                if c.len() > 0 {
                    return Some(ids[k]);
                }
            },
            None => {},
        }
        k = k + 1;
    }
    None
}

/// A value of the article's own metadata area, else of the whole page.
pub fn first_article_text(html: &str, selectors: &[&str]) -> (r: Option<String>)
    ensures
        opt_view(r) == first_article_text_spec(html@, str_views(selectors@)),
{
    match article_metadata_root(html) {
        Some(root) => match first_text_below(html, root, selectors) {
            None => None,
            Some(Some(v)) => Some(v),
            Some(None) => first_text(html, selectors),
        },
        None => first_text(html, selectors),
    }
}

/// The cleaned texts of the elements matching `selector` below `root`, or
/// in the whole page when there is no root.
pub(crate) fn cleaned_texts_of(html: &str, root: Option<usize>, selector: &str) -> (r: Vec<String>)
    ensures
        views(r@) == cleaned_texts(html@, scoped_select(html@, root, selector@)),
{
    let found = match root {
        Some(rt) => select_within(html, rt, selector),
        None => select_document(html, selector),
    };
    let ids = match found {
        Some(ids) => ids,
        None => Vec::new(),
    };
    let texts = texts_of(html, &ids);
    let mut out: Vec<String> = Vec::new();
    let mut k: usize = 0;
    while k < ids.len()
        invariant
            k <= ids.len(),
            texts@.len() == ids@.len(),
            ids@ == scoped_select(html@, root, selector@),
            forall|i: int| 0 <= i < ids@.len() ==> views(texts@[i]@) == elem_text(html@, ids@[i]),
            views(out@) == cleaned_texts(html@, ids@.take(k as int)),
        decreases ids.len() - k,
    {
        let t = collect_text(&texts[k]);
        proof {
            assert(views(texts@[k as int]@) == elem_text(html@, ids@[k as int]));
            assert(t@ == collapse_ws(node_text(html@, ids@[k as int])));
            let a = views(out@.push(t));
            let b = cleaned_texts(html@, ids@.take(k + 1));
            assert(ids@.take(k + 1).len() == k + 1);
            assert(cleaned_texts(html@, ids@.take(k as int)).len() == k);
            assert(views(out@).len() == out@.len());
            assert(out@.len() == k);
            assert(a.len() == b.len());
            assert forall|j: int| 0 <= j < a.len() implies a[j] == b[j] by {
                if j < k {
                    assert(a[j] == views(out@)[j]);
                    assert(b[j] == cleaned_texts(html@, ids@.take(k as int))[j]);
                }
            }
            assert(a =~= b);
        }
        out.push(t);
        k = k + 1;
    }
    proof {
        assert(ids@.take(ids.len() as int) =~= ids@);
    }
    out
}

/// The non-empty texts of `all`, each at its first occurrence.
pub(crate) fn distinct_non_empty_of(all: &Vec<String>) -> (r: Vec<String>)
    ensures
        views(r@) == distinct_non_empty(views(all@)),
{
    let ghost fv = views(all@);
    let mut authors: Vec<String> = Vec::new();
    let mut k: usize = 0;
    while k < all.len()
        invariant
            k <= all.len(),
            fv == views(all@),
            views(authors@) == distinct_non_empty(fv.take(k as int)),
        decreases all.len() - k,
    {
        proof {
            assert(fv.take(k + 1).drop_last() =~= fv.take(k as int));
            assert(fv.take(k + 1).last() == all@[k as int]@);
        }
        let value = &all[k];
        let mut found = false;
        let mut m: usize = 0;
        while m < authors.len()
            invariant
                m <= authors.len(),
                found ==> views(authors@).contains(value@),
                !found ==> forall|j: int| 0 <= j < m ==> authors@[j]@ != value@,
            decreases authors.len() - m,
        {
            if authors[m] == *value {
                found = true;
                assert(views(authors@)[m as int] == value@);
            }
            m = m + 1;
        }
        proof {
            if !found {
                assert forall|j: int| 0 <= j < views(authors@).len() implies views(authors@)[j] != value@ by {
                    assert(views(authors@)[j] == authors@[j]@);
                }
            }
        }
        if !value.as_str().is_empty() && !found {
            let v = value.clone();
            proof {
                assert(views(authors@.push(v)) =~= views(authors@).push(v@));
            }
            authors.push(v);
        }
        k = k + 1;
    }
    proof {
        assert(fv.take(all.len() as int) =~= fv);
    }
    authors
}

/// The authors of the article, joined by commas.
pub fn collect_authors(html: &str) -> (authors: String)
    ensures
        authors@ == authors_spec(html@),
{
    let root = article_metadata_root(html);
    let primary_all = cleaned_texts_of(html, root, "p.article-overline .author-name");
    let ghost pv = views(primary_all@);
    let mut primary: Vec<String> = Vec::new();
    let mut k: usize = 0;
    while k < primary_all.len()
        invariant
            k <= primary_all.len(),
            pv == views(primary_all@),
            views(primary@) == non_empty(pv.take(k as int)),
        decreases primary_all.len() - k,
    {
        proof {
            assert(pv.take(k + 1).drop_last() =~= pv.take(k as int));
            assert(pv.take(k + 1).last() == primary_all@[k as int]@);
        }
        if !primary_all[k].as_str().is_empty() {
            let v = primary_all[k].clone();
            proof {
                assert(views(primary@.push(v)) =~= views(primary@).push(v@));
            }
            primary.push(v);
        }
        k = k + 1;
    }
    proof {
        assert(pv.take(primary_all.len() as int) =~= pv);
    }
    if primary.len() > 0 {
        return join_strings(&primary, ", ");
    }
    let fallback_all = cleaned_texts_of(
        html,
        root,
        ".article-overline .author-name, .article-header .author-name",
    );
    let authors = distinct_non_empty_of(&fallback_all);
    join_strings(&authors, ", ")
}

} // verus!

verus! {

/// The first non-empty cleaned text among `ids`.
pub(crate) fn first_non_empty_text_of(html: &str, ids: &Vec<usize>) -> (r: Option<String>)
    ensures
        opt_view(r) == first_non_empty_text(html@, ids@),
{
    let texts = texts_of(html, ids);
    let mut k: usize = 0;
    proof {
        assert(ids@.skip(0) =~= ids@);
    }
    while k < ids.len()
        invariant
            k <= ids.len(),
            texts@.len() == ids@.len(),
            forall|i: int| 0 <= i < ids@.len() ==> views(texts@[i]@) == elem_text(html@, ids@[i]),
            first_non_empty_text(html@, ids@) == first_non_empty_text(html@, ids@.skip(k as int)),
        decreases ids.len() - k,
    {
        proof {
            assert(ids@.skip(k as int)[0] == ids@[k as int]);
            assert(ids@.skip(k as int).drop_first() =~= ids@.skip(k + 1));
        }
        let t = collect_text(&texts[k]);
        if !t.as_str().is_empty() {
            return Some(t);
        }
        k = k + 1;
    }
    None
}

/// The first non-empty trimmed part.
fn first_keyword_of(parts: &Vec<String>) -> (r: Option<String>)
    ensures
        opt_view(r) == first_keyword(views(parts@)),
{
    let ghost pv = views(parts@);
    let mut k: usize = 0;
    proof {
        assert(pv.skip(0) =~= pv);
    }
    while k < parts.len()
        invariant
            k <= parts.len(),
            pv == views(parts@),
            first_keyword(pv) == first_keyword(pv.skip(k as int)),
        decreases parts.len() - k,
    {
        proof {
            assert(pv.skip(k as int)[0] == parts@[k as int]@);
            assert(pv.skip(k as int).drop_first() =~= pv.skip(k + 1));
        }
        let t = trim_ws(parts[k].as_str());
        if !t.as_str().is_empty() {
            return Some(t);
        }
        k = k + 1;
    }
    None
}

/// The section from the keywords meta elements.
fn keyword_section_of(html: &str, ids: &Vec<usize>) -> (r: Option<String>)
    ensures
        opt_view(r) == keyword_section(html@, ids@),
{
    let attrs = attrs_of(html, ids, "content");
    let mut k: usize = 0;
    proof {
        reveal_strlit("content");
        reveal_strlit(",");
        assert(ids@.skip(0) =~= ids@);
    }
    while k < ids.len()
        invariant
            k <= ids.len(),
            attrs@.len() == ids@.len(),
            forall|i: int| 0 <= i < ids@.len() ==> opt_view(attrs@[i]) == elem_attr(html@, ids@[i], "content"@),
            keyword_section(html@, ids@) == keyword_section(html@, ids@.skip(k as int)),
        decreases ids.len() - k,
    {
        proof {
            assert(ids@.skip(k as int)[0] == ids@[k as int]);
            assert(ids@.skip(k as int).drop_first() =~= ids@.skip(k + 1));
        }
        match &attrs[k] {
            None => {
                return None;
            },
            Some(a) => {
                let value = clean_whitespace(a.as_str());
                proof {
                    reveal_strlit(",");
                }
                let parts = split_on(value.as_str(), ",");
                match first_keyword_of(&parts) {
                    Some(kw) => {
                        return Some(kw);
                    },
                    None => {},
                }
            },
        }
        k = k + 1;
    }
    None
}

/// The section of an article page.
pub fn extract_section(html: &str) -> (r: Option<String>)
    ensures
        opt_view(r) == section_spec(html@),
{
    proof {
        reveal_strlit("p.article-categories a");
        reveal_strlit("meta[name=\"keywords\"]");
    }
    let type_selector = [".article-type"];
    proof {
        assert(str_views(type_selector@) =~= seq![".article-type"@]);
    }
    match first_text(html, &type_selector) {
        Some(article_type) => {
            let normalized = clean_whitespace(article_type.as_str());
            if !normalized.as_str().is_empty() {
                return Some(normalized);
            }
        },
        None => {},
    }
    let cats = match select_document(html, "p.article-categories a") {
        Some(ids) => ids,
        None => return None,
    };
    match first_non_empty_text_of(html, &cats) {
        Some(v) => {
            return Some(v);
        },
        None => {},
    }
    let kws = match select_document(html, "meta[name=\"keywords\"]") {
        Some(ids) => ids,
        None => return None,
    };
    keyword_section_of(html, &kws)
}

/// The date shown in an `article-date` element of the raw page source.
pub fn extract_date_from_html(html: &str) -> (r: Option<String>)
    ensures
        opt_view(r) == date_from_source_spec(html@),
{
    match regex_capture(r#"article-date\">\s*([^<]+)\s*<"#, html, 1) {
        Some(d) => Some(clean_whitespace(d.as_str())),
        None => None,
    }
}

/// The body block of a `name` element with cleaned text `text`.
fn body_block_of(name: &Option<String>, text: String) -> (r: Option<String>)
    ensures
        opt_view(r) == body_block(opt_view(*name), text@),
{
    proof {
        reveal_strlit("h2");
        reveal_strlit("h3");
        reveal_strlit("li");
        reveal_strlit("blockquote");
        reveal_strlit("p");
        reveal_strlit("## ");
        reveal_strlit("- ");
    }
    if should_skip_block(text.as_str()) {
        return None;
    }
    let n = match name {
        Some(n) => n.as_str(),
        None => "",
    };
    proof {
        reveal_strlit("");
        if name.is_none() {
            assert(n@.len() == 0);
        }
    }
    let t = text.as_str();
    if (str_equals(n, "h2") || str_equals(n, "h3")) && byte_len_at_least(t, 4) {
        let mut b = copy_str("## ");
        push_str(&mut b, t);
        return Some(b);
    }
    if str_equals(n, "li") && byte_len_at_least(t, 16) {
        let mut b = copy_str("- ");
        push_str(&mut b, t);
        return Some(b);
    }
    if str_equals(n, "blockquote") && byte_len_at_least(t, 30) {
        return Some(text);
    }
    if str_equals(n, "p") && byte_len_at_least(t, 35) {
        return Some(text);
    }
    None
}

/// The kept blocks of one content container.
fn container_blocks_of(html: &str, container: usize) -> (r: Vec<String>)
    ensures
        views(r@) == container_blocks(html@, container),
{
    proof {
        reveal_strlit("p, h2, h3, li, blockquote");
    }
    let ids = match select_within(html, container, "p, h2, h3, li, blockquote") {
        Some(ids) => ids,
        None => return Vec::new(),
    };
    let names = names_of(html, &ids);
    let texts = texts_of(html, &ids);
    let mut blocks: Vec<String> = Vec::new();
    let mut k: usize = 0;
    while k < ids.len()
        invariant
            k <= ids.len(),
            elem_select(html@, container, block_selector()) == Some(ids@),
            names@.len() == ids@.len(),
            texts@.len() == ids@.len(),
            forall|i: int| 0 <= i < ids@.len() ==> opt_view(names@[i]) == elem_name(html@, ids@[i]),
            forall|i: int| 0 <= i < ids@.len() ==> views(texts@[i]@) == elem_text(html@, ids@[i]),
            views(blocks@) == blocks_of(html@, ids@.take(k as int)),
        decreases ids.len() - k,
    {
        proof {
            assert(ids@.take(k + 1).drop_last() =~= ids@.take(k as int));
            assert(ids@.take(k + 1).last() == ids@[k as int]);
        }
        let cleaned = collect_text(&texts[k]);
        let text = normalize_inline_markers(cleaned.as_str());
        match body_block_of(&names[k], text) {
            Some(b) => {
                proof {
                    assert(views(blocks@.push(b)) =~= views(blocks@).push(b@));
                }
                blocks.push(b);
            },
            None => {},
        }
        k = k + 1;
    }
    proof {
        assert(ids@.take(ids.len() as int) =~= ids@);
    }
    blocks
}

/// The article body: the de-duplicated blocks of the richest content
/// container, joined by blank lines; `None` when there are none.
pub fn extract_body(html: &str) -> (r: Option<String>)
    ensures
        opt_view(r) == body_spec(html@),
{
    proof {
        reveal_strlit(".article-content");
    }
    let cs = match select_document(html, ".article-content") {
        Some(ids) => ids,
        None => Vec::new(),
    };
    let ghost csv: Seq<usize> = match doc_select(html@, ".article-content"@) {
        Some(ids) => ids,
        None => seq![],
    };
    let mut best: Vec<String> = Vec::new();
    let mut k: usize = 0;
    while k < cs.len()
        invariant
            k <= cs.len(),
            cs@ == csv,
            views(best@) == best_blocks(html@, cs@.take(k as int)),
        decreases cs.len() - k,
    {
        proof {
            assert(cs@.take(k + 1).drop_last() =~= cs@.take(k as int));
            assert(cs@.take(k + 1).last() == cs@[k as int]);
        }
        let blocks = container_blocks_of(html, cs[k]);
        if blocks.len() > best.len() {
            best = blocks;
        }
        k = k + 1;
    }
    proof {
        assert(cs@.take(cs.len() as int) =~= cs@);
        reveal_strlit("\n\n");
    }
    dedupe_lines(&mut best);
    if best.len() == 0 {
        return None;
    }
    Some(join_strings(&best, "\n\n"))
}

/// A block the block rule keeps is among the blocks kept from `ids`.
proof fn lemma_kept_block_in_blocks(html: Seq<char>, ids: Seq<usize>, k: int, b: Seq<char>)
    requires
        0 <= k < ids.len(),
        body_block(elem_name(html, ids[k]), block_text(html, ids[k])) == Some(b),
    ensures
        blocks_of(html, ids).contains(b),
    decreases ids.len(),
{
    let pre = ids.drop_last();
    let p = blocks_of(html, pre);
    if k == ids.len() - 1 {
        assert(blocks_of(html, ids) == p.push(b));
        assert(p.push(b)[p.len() as int] == b);
    } else {
        assert(pre[k] == ids[k]);
        lemma_kept_block_in_blocks(html, pre, k, b);
        let j = choose|j: int| 0 <= j < p.len() && p[j] == b;
        match body_block(elem_name(html, ids.last()), block_text(html, ids.last())) {
            Some(x) => {
                assert(blocks_of(html, ids) == p.push(x));
                assert(p.push(x)[j] == b);
            },
            None => {},
        }
    }
}

/// In a page with one content container, a quotation of at least 30 bytes
/// that is not page furniture is kept in the body: the body is its blocks
/// joined by blank lines, and one of them reads as the quotation (the
/// quotation itself, unless an earlier block reads the same).
pub proof fn law_long_quotes_reach_the_body(html: Seq<char>, container: usize, ids: Seq<usize>, k: int)
    requires
        doc_select(html, ".article-content"@) == Some(seq![container]),
        elem_select(html, container, "p, h2, h3, li, blockquote"@) == Some(ids),
        0 <= k < ids.len(),
        elem_name(html, ids[k]) == Some("blockquote"@),
        byte_len(block_text(html, ids[k])) >= 30,
        !skip_block_spec(block_text(html, ids[k])),
    ensures
        body_spec(html) is Some,
        exists|blocks: Seq<Seq<char>>|
            body_spec(html) == Some(join(blocks, "\n\n"@)) && exists|j: int|
                0 <= j < blocks.len() && crate::clean::canonical(#[trigger] blocks[j]) == crate::clean::canonical(
                    block_text(html, ids[k]),
                ),
{
    reveal_strlit("h2");
    reveal_strlit("h3");
    reveal_strlit("li");
    reveal_strlit("blockquote");
    reveal_strlit("p");
    let t = block_text(html, ids[k]);
    assert("blockquote"@.len() == 10);
    assert("blockquote"@ != "h2"@ && "blockquote"@ != "h3"@ && "blockquote"@ != "li"@);
    assert(body_block(Some("blockquote"@), t) == Some(t));
    lemma_kept_block_in_blocks(html, ids, k, t);
    let cb = container_blocks(html, container);
    assert(cb == blocks_of(html, ids));
    let cs = seq![container];
    assert(cs.drop_last() =~= Seq::<usize>::empty());
    assert(best_blocks(html, Seq::<usize>::empty()) == Seq::<Seq<char>>::empty());
    assert(cs.last() == container);
    let i = choose|i: int| 0 <= i < cb.len() && cb[i] == t;
    assert(best_blocks(html, cs) == cb);
    crate::clean::law_dedupe_keeps_one_line_per_form(cb);
    let d = dedupe_canonical(cb);
    assert(crate::clean::canonical_seen(d, crate::clean::canonical(cb[i])));
    assert(d.len() > 0);
    assert(body_spec(html) == Some(join(d, "\n\n"@)));
    let j = choose|j: int| 0 <= j < d.len() && crate::clean::canonical(d[j]) == crate::clean::canonical(cb[i]);
    assert(crate::clean::canonical(d[j]) == crate::clean::canonical(t));
}

} // verus!
