//! Writing a percent change into the report.
//!
//! The change of a symbol goes into the element `div#<symbol>`: a text `": "`
//! and a `span` of class `primary blue` that holds the number are added after
//! the element's children. A symbol without such an element changes nothing.

use crate::digits::{decimal, decimal_text, lemma_decimal_digits_value};
use crate::markup::{
    element_model, forest_model, lemma_forest_model_push, node_model, pairs_model, Markup, Tag,
};
use crate::query::{
    find_first_mut, forest_first_match, forest_replace_first, lemma_first_match_is_selected,
    is_separator, lemma_replace_keeps_length, lemma_replaced_is_first_in_forest,
    lemma_unread_matches_nothing, selector_reads,
};
use crate::quotes::{percent_change, percent_change_of, Quote};
use crate::render::{
    lemma_first_match_of_trimmed, lemma_trimmed_concat, lemma_trimmed_replace, trimmed,
    trimmed_tag,
};
use crate::text::{
    blank, free_of, is_space, lemma_fields_of_one, lemma_trim_end_keeps, lemma_utf8_len_of_narrow,
    trimmed_text,
};
use html_editor::{Element, Node};
use vstd::prelude::*;
use vstd::string::StringExecFns;

verus! {

/// The element that shows a percent change.
pub open spec fn percent_span(percent: int) -> Markup {
    Markup::Element(
        Tag {
            name: "span"@,
            attrs: seq![("class"@, "primary blue"@)],
            children: seq![Markup::Text(decimal(percent))],
        },
    )
}

/// The nodes that annotate an element with a percent change.
pub open spec fn annotation(percent: int) -> Seq<Markup> {
    seq![Markup::Text(": "@), percent_span(percent)]
}

/// `tag` with the annotation after its children.
pub open spec fn with_annotation(tag: Tag, percent: int) -> Tag {
    Tag { children: tag.children + annotation(percent), ..tag }
}

/// The selector of the element that belongs to `symbol`.
pub open spec fn target_selector(symbol: Seq<char>) -> Seq<char> {
    "div#"@ + symbol
}

/// The element that belongs to `symbol`: the first in document order that
/// the symbol's selector matches.
pub open spec fn target(forest: Seq<Markup>, symbol: Seq<char>) -> Option<Tag> {
    forest_first_match(forest, target_selector(symbol))
}

/// The document after the change of `symbol` was written into it.
pub open spec fn annotated(forest: Seq<Markup>, symbol: Seq<char>, percent: int) -> Seq<Markup> {
    match target(forest, symbol) {
        Some(tag) => forest_replace_first(
            forest,
            target_selector(symbol),
            with_annotation(tag, percent),
        ),
        None => forest,
    }
}

/// Adds the annotation for `percent` after the children of `element`.
pub fn append_annotation(element: &mut Element, percent: i128)
    ensures
        element_model(*final(element)) == with_annotation(
            element_model(*old(element)),
            percent as int,
        ),
{
    let mut attrs: Vec<(&str, &str)> = Vec::new();
    attrs.push(("class", "primary blue"));
    let mut inner: Vec<Node> = Vec::new();
    inner.push(Node::Text(decimal_text(percent)));
    let span = Node::new_element("span", attrs, inner);
    let separator = Node::Text(String::from_str(": "));
    proof {
        assert(pairs_model(attrs@) =~= seq![("class"@, "primary blue"@)]);
        assert(forest_model(inner@) =~= seq![Markup::Text(decimal(percent as int))]);
        lemma_forest_model_push(element.children@, separator);
        lemma_forest_model_push(element.children@.push(separator), span);
        assert(forest_model(element.children@).push(node_model(separator)).push(node_model(span))
            =~= forest_model(element.children@) + annotation(percent as int));
    }
    element.children.push(separator);
    element.children.push(span);
}

/// Writes the change `percent` of `symbol` into the document: the first
/// element that `div#<symbol>` selects gets the annotation. Returns whether
/// there was such an element; if not, the document stays as it is. The
/// symbol goes into the selector as it stands.
pub fn annotate(dom: &mut Vec<Node>, symbol: &str, percent: i128) -> (found: bool)
    ensures
        found == (target(forest_model(old(dom)@), symbol@) is Some),
        forest_model(final(dom)@) == annotated(
            forest_model(old(dom)@),
            symbol@,
            percent as int,
        ),
        !found ==> *final(dom) == *old(dom),
{
    let mut selector = String::from_str("div#");
    selector.append(symbol);
    match find_first_mut(dom, selector.as_str()) {
        None => false,
        Some(element) => {
            append_annotation(element, percent);
            true
        },
    }
}

/// One symbol's step of a run: the quotes that were fetched for `symbol` are
/// reduced to their percent change, and that is written into the document.
/// No quotes at all count as no change.
pub fn annotate_symbol(dom: &mut Vec<Node>, symbol: &str, quotes: &Vec<Quote>) -> (found: bool)
    ensures
        found == (target(forest_model(old(dom)@), symbol@) is Some),
        forest_model(final(dom)@) == annotated(
            forest_model(old(dom)@),
            symbol@,
            percent_change_of(quotes@),
        ),
        !found ==> *final(dom) == *old(dom),
{
    let percent = percent_change(quotes);
    annotate(dom, symbol, percent)
}

/// A symbol without an element of its own leaves the document as it is.
pub proof fn lemma_without_target_unchanged(forest: Seq<Markup>, symbol: Seq<char>, percent: int)
    requires
        target(forest, symbol) is None,
    ensures
        annotated(forest, symbol, percent) == forest,
{
}

/// After the change of a symbol was written, the symbol's element is the
/// same one with the annotation at its end: its name and attributes are as
/// they were, and its children are the earlier ones, the text `": "`, and
/// the `span` with the number. The document has as many nodes as before.
pub proof fn lemma_annotation_is_found_again(forest: Seq<Markup>, symbol: Seq<char>, percent: int)
    requires
        target(forest, symbol) is Some,
    ensures
        target(annotated(forest, symbol, percent), symbol) == Some(
            with_annotation(target(forest, symbol)->Some_0, percent),
        ),
        annotated(forest, symbol, percent).len() == forest.len(),
{
    let selector = target_selector(symbol);
    let new = with_annotation(target(forest, symbol)->Some_0, percent);
    lemma_replace_keeps_length(forest, selector, new);
    lemma_first_match_is_selected(forest, selector);
    lemma_replaced_is_first_in_forest(forest, selector, new);
}

/// A symbol whose selector the reader does not get through has no element
/// of its own.
pub proof fn lemma_unread_symbol_has_no_target(forest: Seq<Markup>, symbol: Seq<char>)
    requires
        !selector_reads(target_selector(symbol)),
    ensures
        target(forest, symbol) is None,
{
    lemma_unread_matches_nothing(forest, target_selector(symbol));
}

/// A symbol without `.`, `#` and `,` is looked up, whatever else it holds:
/// the reader gets through its selector.
pub proof fn lemma_plain_symbol_is_read(symbol: Seq<char>)
    requires
        free_of(symbol, '.'),
        free_of(symbol, '#'),
        free_of(symbol, ','),
    ensures
        selector_reads(target_selector(symbol)),
{
    reveal_strlit("div#");
    let selector = target_selector(symbol);
    assert forall|i: int| 4 <= i < selector.len() implies selector[i] == symbol[i - 4] by {}
    lemma_fields_of_one(selector, ',');
    lemma_trim_end_keeps(selector, 3);
    let part = trimmed_text(selector);
    lemma_utf8_len_of_narrow(part.take(3));
    assert forall|j: int| 1 <= j < part.len() && is_separator(#[trigger] part[j]) implies j
        == 3 by {}
}

/// Trimming leaves the annotation as it is.
pub proof fn lemma_annotation_survives_trimming(percent: int)
    ensures
        trimmed(annotation(percent)) == annotation(percent),
{
    reveal_strlit(": ");
    let number = decimal(percent);
    assert(!blank(": "@)) by {
        assert(!is_space(": "@[0]));
    }
    assert(!blank(number)) by {
        if percent < 0 {
            assert(!is_space(number[0]));
        } else {
            lemma_decimal_digits_value(percent as nat);
        }
    }
    let inner = seq![Markup::Text(number)];
    assert(inner.skip(1) =~= Seq::<Markup>::empty());
    assert(trimmed(inner) =~= inner) by {
        reveal_with_fuel(trimmed, 2);
    }
    let pair = annotation(percent);
    assert(pair.skip(1).skip(1) =~= Seq::<Markup>::empty());
    let span = percent_span(percent)->Element_0;
    assert(trimmed_tag(span) == span);
    assert(trimmed(pair.skip(1)) =~= pair.skip(1));
}

/// In the trimmed document an annotated element still ends with the
/// annotation: its children are the trimmed earlier ones, the text `": "`,
/// and the `span` with the number.
pub proof fn lemma_trimmed_keeps_annotation(tag: Tag, percent: int)
    ensures
        trimmed_tag(with_annotation(tag, percent)) == with_annotation(trimmed_tag(tag), percent),
{
    lemma_trimmed_concat(tag.children, annotation(percent));
    lemma_annotation_survives_trimming(percent);
}

/// Writing a change and then trimming gives what trimming and then writing
/// gives: the trimmed document differs from what it would be without the
/// change only in the two nodes at the end of the symbol's element.
pub proof fn lemma_trimmed_annotated(forest: Seq<Markup>, symbol: Seq<char>, percent: int)
    ensures
        trimmed(annotated(forest, symbol, percent)) == annotated(
            trimmed(forest),
            symbol,
            percent,
        ),
{
    let selector = target_selector(symbol);
    lemma_first_match_of_trimmed(forest, selector);
    match target(forest, symbol) {
        Some(tag) => {
            lemma_trimmed_replace(forest, selector, with_annotation(tag, percent));
            lemma_trimmed_keeps_annotation(tag, percent);
        },
        None => {},
    }
}

} // verus!
