//! Parsed HTML documents and compiled selector paths, and the matching of one
//! against the other. Parsing and matching are scraper's.
use vstd::prelude::*;
use crate::text::{join_text_nodes, node_text};
use scraper::Selector as CompiledSelector;

verus! {

#[verifier::external_type_specification]
#[verifier::external_body]
pub struct ExHtml(scraper::Html);

#[verifier::external_type_specification]
#[verifier::external_body]
pub struct ExCompiledSelector(CompiledSelector);

/// Whether scraper's CSS grammar accepts the text as a selector group.
pub uninterp spec fn selector_parses(path: Seq<char>) -> bool;

/// What parsing `source` as an HTML document and selecting with `path` gives:
/// `None` where no element matches, else the descendant text nodes of the
/// first element that scraper's `select` yields.
pub uninterp spec fn first_match_nodes(source: Seq<char>, path: Seq<char>) -> Option<Seq<Seq<char>>>;

/// A parsed HTML document, with the text it was parsed from.
pub struct Document {
    source: String,
    tree: scraper::Html,
}

impl View for Document {
    type V = Seq<char>;

    closed spec fn view(&self) -> Seq<char> {
        self.source@
    }
}

/// A selector path that scraper's CSS grammar accepts, compiled.
pub struct CssPath {
    path: String,
    compiled: CompiledSelector,
}

impl View for CssPath {
    type V = Seq<char>;

    closed spec fn view(&self) -> Seq<char> {
        self.path@
    }
}

/// Relies on `scraper::Selector::parse`: it accepts or refuses a path by its
/// text alone. The compiled selector is kept with the text it came from.
#[verifier::external_body]
fn compile_css(path: &str) -> (r: Option<CssPath>)
    ensures
        r.is_some() == selector_parses(path@),
        r matches Some(c) ==> c@ == path@,
{
    match CompiledSelector::parse(path) {
        Ok(compiled) => Some(CssPath { path: path.to_string(), compiled }),
        Err(_) => None,
    }
}

/// Relies on `scraper::Html::parse_document`, which builds a tree from any
/// text, however malformed. The tree is kept with the text it came from.
#[verifier::external_body]
fn parse_html(source: String) -> (r: Document)
    ensures
        r@ == source@,
{
    let tree = scraper::Html::parse_document(&source);
    Document { source, tree }
}

impl Document {
    /// Parses HTML text; malformed input gives a best-effort tree, never an error.
    pub fn parse(source: String) -> (r: Document)
        ensures
            r@ == source@,
    {
        parse_html(source)
    }
}

impl CssPath {
    /// Compiles a selector path; `None` where the CSS grammar refuses it.
    pub fn parse(path: &str) -> (r: Option<CssPath>)
        ensures
            r.is_some() == selector_parses(path@),
            r matches Some(c) ==> c@ == path@,
    {
        compile_css(path)
    }
}

/// The views of a list of strings.
pub open spec fn string_views(v: Seq<String>) -> Seq<Seq<char>> {
    v.map_values(|t: String| t@)
}

/// Relies on `scraper::Html::select` with `Iterator::next`, which give the
/// first element that scraper's `select` yields for the selector, and on
/// `scraper::ElementRef::text`, which gives that element's descendant text
/// nodes in order. Only `parse_html` and `compile_css` build the tree and the
/// compiled selector, each from the text that the result is stated over.
#[verifier::external_body]
fn select_first(doc: &Document, css: &CssPath) -> (r: Option<Vec<String>>)
    ensures
        match r {
            Some(v) => first_match_nodes(doc@, css@) == Some(string_views(v@)),
            None => first_match_nodes(doc@, css@) is None,
        },
{
    doc.tree.select(&css.compiled).next().map(|e| e.text().map(|t| t.to_string()).collect())
}

/// The text that a selector path finds in a document: nothing where no
/// element matches, else the text of the first match.
pub open spec fn matched_text(source: Seq<char>, path: Seq<char>) -> Seq<char> {
    match first_match_nodes(source, path) {
        Some(nodes) => node_text(nodes),
        None => Seq::empty(),
    }
}

/// The text of the first element that scraper's `select` yields for `css`
/// in `doc`: all its descendant text nodes, each trimmed, joined by single
/// spaces. A path that matches nothing gives the empty text, which is no
/// error.
pub fn match_text(doc: &Document, css: &CssPath) -> (r: String)
    ensures
        r@ == matched_text(doc@, css@),
        first_match_nodes(doc@, css@) is None ==> r@.len() == 0,
{
    match select_first(doc, css) {
        Some(nodes) => join_text_nodes(&nodes),
        None => String::new(),
    }
}

} // verus!
