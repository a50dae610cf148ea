//! Finding the ticker symbols of a report.
//!
//! A report marks each prediction with a header element of class
//! `item-header`; the symbol is the first text directly inside it.

use crate::markup::{element_model, forest_model, Markup, Tag};
use crate::query::{find_all, forest_matches, tags};
use html_editor::{Element, Node};
use vstd::prelude::*;

verus! {

/// The selector of the header elements.
pub open spec fn header_selector() -> Seq<char> {
    ".item-header"@
}

/// The first text among `children`, if there is one.
pub open spec fn first_text(children: Seq<Markup>) -> Option<Seq<char>>
    decreases children.len(),
{
    if children.len() == 0 {
        None
    } else {
        match children[0] {
            Markup::Text(text) => Some(text),
            _ => first_text(children.skip(1)),
        }
    }
}

/// The symbols of the given headers, in their order; a header without a
/// text child has none.
pub open spec fn symbols_of(headers: Seq<Tag>) -> Seq<Seq<char>>
    decreases headers.len(),
{
    if headers.len() == 0 {
        seq![]
    } else {
        let before = symbols_of(headers.drop_last());
        match first_text(headers.last().children) {
            Some(symbol) => before.push(symbol),
            None => before,
        }
    }
}

/// The symbols of a document: those of its header elements, in document
/// order.
pub open spec fn header_symbols(forest: Seq<Markup>) -> Seq<Seq<char>> {
    symbols_of(forest_matches(forest, header_selector()))
}

/// The contents of a list of strings.
pub open spec fn texts(strings: Seq<String>) -> Seq<Seq<char>> {
    Seq::new(strings.len(), |i: int| strings[i]@)
}

/// The first text child of `element`.
pub fn first_text_child(element: &Element) -> (symbol: Option<String>)
    ensures
        match symbol {
            Some(text) => first_text(element_model(*element).children) == Some(text@),
            None => first_text(element_model(*element).children) is None,
        },
{
    let ghost children = element_model(*element).children;
    let mut i: usize = 0;
    assert(children.skip(0) =~= children);
    while i < element.children.len()
        invariant
            i <= element.children.len(),
            children == forest_model(element.children@),
            first_text(children) == first_text(children.skip(i as int)),
        decreases element.children.len() - i,
    {
        match &element.children[i] {
            Node::Text(text) => {
                return Some(text.clone());
            },
            _ => {
                assert(children.skip(i as int).skip(1) =~= children.skip(i as int + 1));
            },
        }
        i += 1;
    }
    None
}

/// The symbols of the given header elements, in their order.
pub fn symbols_from_headers(headers: &Vec<&Element>) -> (symbols: Vec<String>)
    ensures
        texts(symbols@) == symbols_of(tags(headers@)),
{
    let mut symbols: Vec<String> = Vec::new();
    let mut i: usize = 0;
    while i < headers.len()
        invariant
            i <= headers.len(),
            texts(symbols@) == symbols_of(tags(headers@).take(i as int)),
        decreases headers.len() - i,
    {
        assert(tags(headers@).take(i as int + 1).drop_last() =~= tags(headers@).take(i as int));
        match first_text_child(headers[i]) {
            Some(symbol) => {
                symbols.push(symbol);
            },
            None => {},
        }
        i += 1;
    }
    assert(tags(headers@).take(headers.len() as int) =~= tags(headers@));
    symbols
}

/// The symbols of the document `dom`: for each element of class
/// `item-header`, its first text child.
pub fn extract_symbols(dom: &Vec<Node>) -> (symbols: Vec<String>)
    ensures
        texts(symbols@) == header_symbols(forest_model(dom@)),
{
    let headers = find_all(dom, ".item-header");
    symbols_from_headers(&headers)
}

} // verus!
