//! Turning the document back into text.

use crate::markup::{forest_model, Markup, Tag};
use crate::query::{
    forest_first_match, forest_replace_first, selected, tag_first_match, tag_replace_first,
};
use crate::text::blank;
use html_editor::operation::{Editable, Htmlifiable};
use html_editor::Node;
use vstd::prelude::*;

verus! {

/// Whether trimming leaves the node where it is: a comment goes, and so
/// does a text of nothing but white space.
pub open spec fn stays(node: Markup) -> bool {
    match node {
        Markup::Text(text) => !blank(text),
        Markup::Comment(_) => false,
        _ => true,
    }
}

/// An element with its children trimmed.
pub open spec fn trimmed_tag(tag: Tag) -> Tag
    decreases tag,
{
    Tag { children: trimmed(tag.children), ..tag }
}

/// The trimmed document: comments and texts of nothing but white space are
/// gone, at every depth; all else is as it was and where it was.
pub open spec fn trimmed(forest: Seq<Markup>) -> Seq<Markup>
    decreases forest,
{
    if forest.len() == 0 {
        forest
    } else {
        let rest = trimmed(forest.skip(1));
        match forest[0] {
            Markup::Element(tag) => seq![Markup::Element(trimmed_tag(tag))] + rest,
            node => if stays(node) {
                seq![node] + rest
            } else {
                rest
            },
        }
    }
}

/// The text that `html_editor` writes for `forest`.
pub uninterp spec fn html_text(forest: Seq<Markup>) -> Seq<char>;

/// `Editable::trim` of `html_editor` on a list of nodes.
///
/// Trusted: it removes the comments and the texts that are empty once
/// trimmed of white space, in the list and in the children of every element
/// that stays, and changes nothing else.
#[verifier::external_body]
pub(crate) fn trim(dom: &mut Vec<Node>)
    ensures
        forest_model(final(dom)@) == trimmed(forest_model(old(dom)@)),
{
    dom.trim();
}

/// `Htmlifiable::html` of `html_editor` on a list of nodes.
///
/// Trusted: the text depends on the content of the nodes alone.
#[verifier::external_body]
pub(crate) fn html(dom: &Vec<Node>) -> (text: String)
    ensures
        text@ == html_text(forest_model(dom@)),
{
    dom.html()
}

/// Trims the document and returns its text.
pub fn render(dom: &mut Vec<Node>) -> (text: String)
    ensures
        forest_model(final(dom)@) == trimmed(forest_model(old(dom)@)),
        text@ == html_text(trimmed(forest_model(old(dom)@))),
{
    trim(dom);
    html(dom)
}

/// Trimming goes through a document piece by piece.
pub proof fn lemma_trimmed_concat(first: Seq<Markup>, second: Seq<Markup>)
    ensures
        trimmed(first + second) == trimmed(first) + trimmed(second),
    decreases first.len(),
{
    if first.len() > 0 {
        lemma_trimmed_concat(first.skip(1), second);
        assert((first + second).skip(1) =~= first.skip(1) + second);
    }
}

/// A trimmed document has no more nodes than it had.
pub proof fn lemma_trimmed_is_no_longer(forest: Seq<Markup>)
    ensures
        trimmed(forest).len() <= forest.len(),
    decreases forest,
{
    if forest.len() > 0 {
        lemma_trimmed_is_no_longer(forest.skip(1));
    }
}

/// Trimming an element keeps its first match, trimmed; where it has none,
/// the trimmed element has none.
pub proof fn lemma_first_match_of_trimmed_tag(tag: Tag, selector: Seq<char>)
    ensures
        tag_first_match(trimmed_tag(tag), selector) == match tag_first_match(tag, selector) {
            Some(found) => Some(trimmed_tag(found)),
            None => None,
        },
    decreases tag,
{
    if !selected(tag, selector) {
        lemma_first_match_of_trimmed(tag.children, selector);
    }
}

/// Trimming a document keeps its first match, trimmed; where it has none,
/// the trimmed document has none.
pub proof fn lemma_first_match_of_trimmed(forest: Seq<Markup>, selector: Seq<char>)
    ensures
        forest_first_match(trimmed(forest), selector) == match forest_first_match(
            forest,
            selector,
        ) {
            Some(found) => Some(trimmed_tag(found)),
            None => None,
        },
    decreases forest,
{
    if forest.len() > 0 {
        let rest = trimmed(forest.skip(1));
        lemma_first_match_of_trimmed(forest.skip(1), selector);
        match forest[0] {
            Markup::Element(tag) => {
                lemma_first_match_of_trimmed_tag(tag, selector);
                let head = seq![Markup::Element(trimmed_tag(tag))];
                assert((head + rest).skip(1) =~= rest);
            },
            node => {
                if stays(node) {
                    assert((seq![node] + rest).skip(1) =~= rest);
                }
            },
        }
    }
}

/// Replacing the first match at or below an element and then trimming
/// gives what trimming and then replacing gives.
pub proof fn lemma_trimmed_replace_in_tag(tag: Tag, selector: Seq<char>, new: Tag)
    ensures
        trimmed_tag(tag_replace_first(tag, selector, new)) == tag_replace_first(
            trimmed_tag(tag),
            selector,
            trimmed_tag(new),
        ),
    decreases tag,
{
    if !selected(tag, selector) {
        lemma_trimmed_replace(tag.children, selector, new);
    }
}

/// Replacing the first match of a document and then trimming gives what
/// trimming and then replacing gives.
pub proof fn lemma_trimmed_replace(forest: Seq<Markup>, selector: Seq<char>, new: Tag)
    ensures
        trimmed(forest_replace_first(forest, selector, new)) == forest_replace_first(
            trimmed(forest),
            selector,
            trimmed_tag(new),
        ),
    decreases forest,
{
    if forest.len() > 0 {
        let tail = forest.skip(1);
        let rest = trimmed(tail);
        let replaced = forest_replace_first(forest, selector, new);
        lemma_trimmed_replace(tail, selector, new);
        match forest[0] {
            Markup::Element(tag) => {
                lemma_first_match_of_trimmed_tag(tag, selector);
                lemma_trimmed_replace_in_tag(tag, selector, new);
                let head = seq![Markup::Element(trimmed_tag(tag))];
                assert((head + rest).skip(1) =~= rest);
                if tag_first_match(tag, selector) is Some {
                    assert(replaced.skip(1) =~= tail);
                } else {
                    assert(replaced.skip(1) =~= forest_replace_first(tail, selector, new));
                }
            },
            node => {
                assert(replaced.skip(1) =~= forest_replace_first(tail, selector, new));
                if stays(node) {
                    assert((seq![node] + rest).skip(1) =~= rest);
                }
            },
        }
    }
}

} // verus!
