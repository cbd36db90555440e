//! HTML documents, parsed and queried with the `scraper` crate. A document
//! is given by its source text; an element by the index of its node in the
//! parsed tree (the order in which `ego_tree` stores the nodes). Each query
//! parses the text again, so the answers depend on the source text alone.
use vstd::prelude::*;
use crate::text::{opt_view, views};

verus! {

/// The elements of the document `html` that match the CSS `selector`, in the
/// order `Html::select` yields them; `None` when the selector does not
/// parse.
pub uninterp spec fn doc_select(html: Seq<char>, selector: Seq<char>) -> Option<Seq<usize>>;

/// The elements below the element `scope` that match `selector`, in the
/// order `ElementRef::select` yields them; `None` when the selector does not
/// parse or `scope` is not an element.
pub uninterp spec fn elem_select(html: Seq<char>, scope: usize, selector: Seq<char>) -> Option<Seq<usize>>;

/// The text nodes below the element `id`, in document order
/// (`ElementRef::text`); empty when `id` is not an element.
pub uninterp spec fn elem_text(html: Seq<char>, id: usize) -> Seq<Seq<char>>;

/// The tag name of the element `id` (`Element::name`); `None` when `id` is
/// not an element.
pub uninterp spec fn elem_name(html: Seq<char>, id: usize) -> Option<Seq<char>>;

/// The value of attribute `attr` on the element `id` (`Element::attr`);
/// `None` when absent or when `id` is not an element.
pub uninterp spec fn elem_attr(html: Seq<char>, id: usize, attr: Seq<char>) -> Option<Seq<char>>;

/// The ancestors of node `id`, nearest first (`NodeRef::ancestors`).
pub uninterp spec fn node_ancestors(html: Seq<char>, id: usize) -> Seq<usize>;

pub open spec fn ids_view(r: Option<Vec<usize>>) -> Option<Seq<usize>> {
    match r {
        Some(v) => Some(v@),
        None => None,
    }
}

/// Parses `html` with `Html::parse_document`, `selector` with
/// `Selector::parse`, and returns the node indices of what `Html::select`
/// yields. The contract names the result `doc_select`.
#[verifier::external_body]
pub(crate) fn select_document(html: &str, selector: &str) -> (r: Option<Vec<usize>>)
    ensures
        ids_view(r) == doc_select(html@, selector@),
{
    let doc = scraper::Html::parse_document(html);
    let sel = scraper::Selector::parse(selector).ok()?;
    let index: std::collections::HashMap<_, usize> = doc.tree.nodes().enumerate().map(|(i, n)| (n.id(), i)).collect();
    Some(doc.select(&sel).map(|e| index[&e.id()]).collect())
}

/// Parses `html` and `selector` as above and returns the node indices of
/// what `ElementRef::select` yields below the element `scope`. The contract
/// names the result `elem_select`.
#[verifier::external_body]
pub(crate) fn select_within(html: &str, scope: usize, selector: &str) -> (r: Option<Vec<usize>>)
    ensures
        ids_view(r) == elem_select(html@, scope, selector@),
{
    let doc = scraper::Html::parse_document(html);
    let sel = scraper::Selector::parse(selector).ok()?;
    let nodes: Vec<_> = doc.tree.nodes().collect();
    let root = scraper::ElementRef::wrap(*nodes.get(scope)?)?;
    let index: std::collections::HashMap<_, usize> = nodes.iter().enumerate().map(|(i, n)| (n.id(), i)).collect();
    Some(root.select(&sel).map(|e| index[&e.id()]).collect())
}

/// Parses `html` and returns, for each index in `ids`, the text nodes that
/// `ElementRef::text` yields below that element. The contract names each
/// entry `elem_text`.
#[verifier::external_body]
pub(crate) fn texts_of(html: &str, ids: &Vec<usize>) -> (r: Vec<Vec<String>>)
    ensures
        r@.len() == ids@.len(),
        forall|i: int| 0 <= i < ids@.len() ==> views(r@[i]@) == elem_text(html@, ids@[i]),
{
    let doc = scraper::Html::parse_document(html);
    let nodes: Vec<_> = doc.tree.nodes().collect();
    let text = |i: &usize| nodes.get(*i).copied().and_then(scraper::ElementRef::wrap).map(|e| e.text().map(str::to_owned).collect());
    ids.iter().map(|i| text(i).unwrap_or_default()).collect()
}

/// Parses `html` and returns, for each index in `ids`, the tag name that
/// `Element::name` gives. The contract names each entry `elem_name`.
#[verifier::external_body]
pub(crate) fn names_of(html: &str, ids: &Vec<usize>) -> (r: Vec<Option<String>>)
    ensures
        r@.len() == ids@.len(),
        forall|i: int| 0 <= i < ids@.len() ==> opt_view(r@[i]) == elem_name(html@, ids@[i]),
{
    let doc = scraper::Html::parse_document(html);
    let nodes: Vec<_> = doc.tree.nodes().collect();
    let name = |i: &usize| nodes.get(*i).copied().and_then(scraper::ElementRef::wrap).map(|e| e.value().name().to_owned());
    ids.iter().map(name).collect()
}

/// Parses `html` and returns, for each index in `ids`, the value of
/// attribute `attr` that `Element::attr` gives. The contract names each
/// entry `elem_attr`.
#[verifier::external_body]
pub(crate) fn attrs_of(html: &str, ids: &Vec<usize>, attr: &str) -> (r: Vec<Option<String>>)
    ensures
        r@.len() == ids@.len(),
        forall|i: int| 0 <= i < ids@.len() ==> opt_view(r@[i]) == elem_attr(html@, ids@[i], attr@),
{
    let doc = scraper::Html::parse_document(html);
    let nodes: Vec<_> = doc.tree.nodes().collect();
    let value = |i: &usize| nodes.get(*i).copied().and_then(scraper::ElementRef::wrap).and_then(|e| e.attr(attr).map(str::to_owned));
    ids.iter().map(value).collect()
}

/// Parses `html` and returns the node indices of the ancestors of node `id`
/// that `NodeRef::ancestors` yields, nearest first. The contract names the
/// result `node_ancestors`.
#[verifier::external_body]
pub(crate) fn ancestors_of(html: &str, id: usize) -> (r: Vec<usize>)
    ensures
        r@ == node_ancestors(html@, id),
{
    let doc = scraper::Html::parse_document(html);
    let nodes: Vec<_> = doc.tree.nodes().collect();
    let index: std::collections::HashMap<_, usize> = nodes.iter().enumerate().map(|(i, n)| (n.id(), i)).collect();
    nodes.get(id).map(|n| n.ancestors().map(|a| index[&a.id()]).collect()).unwrap_or_default()
}

} // verus!
