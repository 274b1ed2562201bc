//! HTML pages parsed by `scraper`, URLs resolved by `url` and JSON read by
//! `serde_json`, seen through plain values.
//!
//! Each node of a parsed page is named by its position in a pre-order walk of
//! the document tree from the document node (position 0), so an element
//! always comes after its ancestors.

use vstd::prelude::*;

verus! {

#[verifier::external_type_specification]
#[verifier::external_body]
pub struct ExHtml(scraper::Html);

#[verifier::external_type_specification]
#[verifier::external_body]
pub struct ExSelector(scraper::Selector);

/// A selector parsed from the text it is kept with.
pub(crate) struct CssSelector {
    text: String,
    selector: scraper::Selector,
}

impl View for CssSelector {
    type V = Seq<char>;

    closed spec fn view(&self) -> Seq<char> {
        self.text@
    }
}

/// `Selector::parse`: the selector, when `css` parses as one.
#[verifier::external_body]
pub(crate) fn compile(css: &str) -> (r: Option<CssSelector>)
    ensures
        r is Some <==> spec_selector_parses(css@),
        r matches Some(s) ==> s@ == css@,
{
    match scraper::Selector::parse(css) {
        Ok(selector) => Some(CssSelector { text: css.to_string(), selector }),
        Err(_) => None,
    }
}

/// A page parsed as an HTML document, kept with its source text.
pub(crate) struct Page {
    source: String,
    document: scraper::Html,
    nodes: usize,
}

impl View for Page {
    type V = Seq<char>;

    closed spec fn view(&self) -> Seq<char> {
        self.source@
    }
}

/// The number of nodes in the document tree of `page`.
pub uninterp spec fn spec_node_count(page: Seq<char>) -> usize;

/// The elements of `page` that match the selector `css`, in the order of the
/// parsed tree's node list, or `None` when `css` is not a valid selector.
pub uninterp spec fn spec_select(page: Seq<char>, css: Seq<char>) -> Option<Seq<usize>>;

/// The descendants of element `scope` of `page` that match the selector `css`
/// (where `:scope` is that element), in document order; empty when `scope`
/// is not an element.
pub uninterp spec fn spec_select_in(page: Seq<char>, scope: usize, css: Seq<char>) -> Seq<usize>;

/// Whether `css` parses as a selector.
pub uninterp spec fn spec_selector_parses(css: Seq<char>) -> bool;

/// The text nodes under element `id` of `page`, concatenated in document order
/// (empty when `id` is not an element).
pub uninterp spec fn spec_text(page: Seq<char>, id: usize) -> Seq<char>;

/// The value of attribute `name` of element `id` of `page`.
pub uninterp spec fn spec_attr(page: Seq<char>, id: usize, name: Seq<char>) -> Option<Seq<char>>;

/// The local name of element `id` of `page`, or `None` when `id` is not an element.
pub uninterp spec fn spec_element_name(page: Seq<char>, id: usize) -> Option<Seq<char>>;

/// The nodes before node `id` of `page` under the same parent, nearest first.
pub uninterp spec fn spec_prev_siblings(page: Seq<char>, id: usize) -> Seq<usize>;

impl Page {
    /// `Html::parse_document`; the page remembers its source.
    #[verifier::external_body]
    pub(crate) fn parse(html: &str) -> (page: Page)
        ensures
            page@ == html@,
    {
        let document = scraper::Html::parse_document(html);
        let nodes = document.tree.root().descendants().count();
        Page { source: html.to_string(), document, nodes }
    }

    /// `Selector::parse` then `Html::select`: the matching elements of the
    /// whole document.
    #[verifier::external_body]
    pub(crate) fn select(&self, css: &str) -> (r: Result<Vec<usize>, ()>)
        ensures
            match r {
                Ok(ids) => spec_select(self@, css@) == Some(ids@),
                Err(_) => spec_select(self@, css@) is None,
            },
    {
        let selector = scraper::Selector::parse(css).map_err(|_| ())?;
        let order: Vec<_> = self.document.tree.root().descendants().map(|n| n.id()).collect();
        let found = self.document.select(&selector).map(|e| e.id());
        Ok(found.map(|n| order.iter().position(|id| *id == n).unwrap_or(self.nodes)).collect())
    }

    /// `ElementRef::select` on element `scope` with a parsed selector: the
    /// matching descendants of that element (none when `scope` is not an
    /// element). Each comes after `scope` in the walk and is a node of the page.
    #[verifier::external_body]
    pub(crate) fn select_in(&self, scope: usize, css: &CssSelector) -> (r: Vec<usize>)
        ensures
            r@ == spec_select_in(self@, scope, css@),
            forall|i: int| 0 <= i < r@.len() ==> scope < #[trigger] r@[i] < spec_node_count(self@),
    {
        let order: Vec<_> = self.document.tree.root().descendants().map(|n| n.id()).collect();
        let node = self.document.tree.root().descendants().nth(scope);
        let element = match node.and_then(scraper::ElementRef::wrap) {
            Some(e) => e,
            None => return Vec::new(),
        };
        let found = element.select(&css.selector).map(|e| e.id());
        found.map(|n| order.iter().position(|id| *id == n).unwrap_or(self.nodes)).collect()
    }

    /// `ElementRef::text`, collected into one string.
    #[verifier::external_body]
    pub(crate) fn text(&self, id: usize) -> (r: String)
        ensures
            r@ == spec_text(self@, id),
    {
        let node = self.document.tree.root().descendants().nth(id);
        node.and_then(scraper::ElementRef::wrap).map(|e| e.text().collect()).unwrap_or_default()
    }

    /// `ElementRef::attr`.
    #[verifier::external_body]
    pub(crate) fn attr(&self, id: usize, name: &str) -> (r: Option<String>)
        ensures
            match r {
                Some(v) => spec_attr(self@, id, name@) == Some(v@),
                None => spec_attr(self@, id, name@) is None,
            },
    {
        let node = self.document.tree.root().descendants().nth(id);
        node.and_then(scraper::ElementRef::wrap).and_then(|e| e.attr(name)).map(|v| v.to_string())
    }

    /// `Element::name` of node `id`, when it is an element.
    #[verifier::external_body]
    pub(crate) fn element_name(&self, id: usize) -> (r: Option<String>)
        ensures
            match r {
                Some(v) => spec_element_name(self@, id) == Some(v@),
                None => spec_element_name(self@, id) is None,
            },
    {
        let node = self.document.tree.root().descendants().nth(id);
        node.and_then(scraper::ElementRef::wrap).map(|e| e.value().name().to_string())
    }

    /// `NodeRef::prev_siblings` of node `id`.
    #[verifier::external_body]
    pub(crate) fn prev_siblings(&self, id: usize) -> (r: Vec<usize>)
        ensures
            r@ == spec_prev_siblings(self@, id),
    {
        let order: Vec<_> = self.document.tree.root().descendants().map(|n| n.id()).collect();
        let node = self.document.tree.root().descendants().nth(id);
        let found: Vec<_> = node.map(|n| n.prev_siblings().map(|s| s.id()).collect()).unwrap_or_default();
        found.iter().map(|n| order.iter().position(|id| id == n).unwrap_or(self.nodes)).collect()
    }
}

/// The `(key, value)` pairs of the query of `href` resolved against `base`,
/// decoded, in order; `None` when either fails to parse as a URL.
pub uninterp spec fn spec_link_query(base: Seq<char>, href: Seq<char>) -> Option<
    Seq<(Seq<char>, Seq<char>)>,
>;

/// `Url::parse(base)`, `Url::join(href)`, then `Url::query_pairs`.
#[verifier::external_body]
pub(crate) fn link_query(base: &str, href: &str) -> (r: Option<Vec<(String, String)>>)
    ensures
        match r {
            Some(pairs) => spec_link_query(base@, href@) == Some(
                pairs@.map_values(|p: (String, String)| (p.0@, p.1@)),
            ),
            None => spec_link_query(base@, href@) is None,
        },
{
    let url = url::Url::parse(base).and_then(|b| b.join(href)).ok()?;
    Some(url.query_pairs().map(|(k, v)| (k.into_owned(), v.into_owned())).collect())
}

/// For a JSON document, `Some` of the string at `body[outer][inner]` if there is
/// one there; `None` when `body` is not JSON.
pub uninterp spec fn spec_json_string_at(body: Seq<u8>, outer: Seq<char>, inner: Seq<char>) -> Option<
    Option<Seq<char>>,
>;

/// `serde_json::from_slice` into a `Value`, then indexing and `as_str`.
#[verifier::external_body]
pub(crate) fn json_string_at(body: &[u8], outer: &str, inner: &str) -> (r: Result<Option<String>, ()>)
    ensures
        match r {
            Ok(Some(s)) => spec_json_string_at(body@, outer@, inner@) == Some(Some(s@)),
            Ok(None) => spec_json_string_at(body@, outer@, inner@) == Some(None::<Seq<char>>),
            Err(_) => spec_json_string_at(body@, outer@, inner@) is None,
        },
{
    let value: serde_json::Value = serde_json::from_slice(body).map_err(|_| ())?;
    Ok(value[outer][inner].as_str().map(|s| s.to_string()))
}

} // verus!
