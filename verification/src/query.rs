//! Selector queries on the document tree.
//!
//! `html_editor` reads a selector from its text and decides which elements
//! it matches. The functions here say, over the model, which elements a
//! query finds and in which order.
//!
//! The reader of `html_editor` does not get through every text. It takes
//! the parts between commas, each without the white space around it, and
//! cuts a part before each `.` and `#` behind its first character. It finds
//! these places as byte offsets and then asks for the character with that
//! number; and it cuts one byte behind the beginning. So it stops where a
//! part begins with a character of several bytes, and where a `.` or `#`
//! lies as many bytes, or more, from the beginning as the part has
//! characters. A selector that it does not get through matches nothing
//! here.

use crate::markup::{element_model, forest_model, lemma_element_node_model, Markup, Tag};
use html_editor::operation::{Queryable, Selector};
use html_editor::{Element, Node};
use crate::text::{
    chars_of, field_views, fields, lemma_fields_of_narrow, lemma_trimmed_narrow,
    lemma_utf8_len_of_narrow, split_fields, trim_chars, trimmed_text, utf8_len, utf8_width,
    utf8_width_of,
};
use vstd::prelude::*;
use vstd::utf8::is_ascii_chars;

verus! {

/// Whether the selector that `html_editor` reads from the text `selector`
/// matches an element with this name and these attributes.
pub uninterp spec fn selects(
    selector: Seq<char>,
    name: Seq<char>,
    attrs: Seq<(Seq<char>, Seq<char>)>,
) -> bool;

/// Whether `c` begins a class or an id in a selector.
pub open spec fn is_separator(c: char) -> bool {
    c == '.' || c == '#'
}

/// Whether the reader gets through `part`, one part of a selector without
/// the white space around it: the part is empty, or its first character
/// takes one byte and each `.` and `#` behind it lies fewer bytes from the
/// beginning than the part has characters.
pub open spec fn part_reads(part: Seq<char>) -> bool {
    part.len() == 0 || (utf8_width(part[0]) == 1 && forall|j: int|
        1 <= j < part.len() && is_separator(#[trigger] part[j]) ==> utf8_len(part.take(j))
            < part.len())
}

/// Whether the reader gets through the selector: through each of its parts
/// between commas.
pub open spec fn selector_reads(selector: Seq<char>) -> bool {
    forall|i: int|
        0 <= i < fields(selector, ',').len() ==> part_reads(
            trimmed_text(#[trigger] fields(selector, ',')[i]),
        )
}

/// Whether the selector matches the element itself. A selector that the
/// reader does not get through matches nothing.
pub open spec fn selected(tag: Tag, selector: Seq<char>) -> bool {
    selector_reads(selector) && selects(selector, tag.name, tag.attrs)
}

/// The matching elements at or below `tag` in document order: the element
/// itself, then those below it.
pub open spec fn tag_matches(tag: Tag, selector: Seq<char>) -> Seq<Tag>
    decreases tag,
{
    let own = if selected(tag, selector) {
        seq![tag]
    } else {
        seq![]
    };
    own + forest_matches(tag.children, selector)
}

/// The matching elements in a list of nodes in document order.
pub open spec fn forest_matches(forest: Seq<Markup>, selector: Seq<char>) -> Seq<Tag>
    decreases forest,
{
    if forest.len() == 0 {
        seq![]
    } else {
        let head = match forest[0] {
            Markup::Element(tag) => tag_matches(tag, selector),
            _ => seq![],
        };
        head + forest_matches(forest.skip(1), selector)
    }
}

/// The first matching element at or below `tag` in document order.
pub open spec fn tag_first_match(tag: Tag, selector: Seq<char>) -> Option<Tag>
    decreases tag,
{
    if selected(tag, selector) {
        Some(tag)
    } else {
        forest_first_match(tag.children, selector)
    }
}

/// The first matching element in a list of nodes in document order.
pub open spec fn forest_first_match(forest: Seq<Markup>, selector: Seq<char>) -> Option<Tag>
    decreases forest,
{
    if forest.len() == 0 {
        None
    } else {
        let head = match forest[0] {
            Markup::Element(tag) => tag_first_match(tag, selector),
            _ => None,
        };
        if head is Some {
            head
        } else {
            forest_first_match(forest.skip(1), selector)
        }
    }
}

/// `tag` with its first matching element replaced by `new`.
pub open spec fn tag_replace_first(tag: Tag, selector: Seq<char>, new: Tag) -> Tag
    decreases tag,
{
    if selected(tag, selector) {
        new
    } else {
        Tag { children: forest_replace_first(tag.children, selector, new), ..tag }
    }
}

/// The list of nodes with its first matching element replaced by `new`, and
/// the list itself where nothing matches.
pub open spec fn forest_replace_first(
    forest: Seq<Markup>,
    selector: Seq<char>,
    new: Tag,
) -> Seq<Markup>
    decreases forest,
{
    if forest.len() == 0 {
        forest
    } else {
        match forest[0] {
            Markup::Element(tag) if tag_first_match(tag, selector) is Some => seq![
                Markup::Element(tag_replace_first(tag, selector, new)),
            ] + forest.skip(1),
            _ => seq![forest[0]] + forest_replace_first(forest.skip(1), selector, new),
        }
    }
}

/// The models of a list of elements.
pub open spec fn tags(elements: Seq<&Element>) -> Seq<Tag> {
    Seq::new(elements.len(), |i: int| element_model(*elements[i]))
}

/// `Selector::matches` of `html_editor`, for the selector that
/// `Selector::from` reads from `selector`.
///
/// Trusted: the answer depends on the selector's text and on the element's
/// name and attributes alone. Only a text that `Selector::from` gets through
/// is handed to it.
#[verifier::external_body]
pub(crate) fn selector_matches(selector: &str, element: &Element) -> (matches: bool)
    requires
        selector_reads(selector@),
    ensures
        matches == selects(selector@, element.name@, element_model(*element).attrs),
{
    Selector::from(selector).matches(element)
}

/// `Queryable::query_mut` of `html_editor` on a list of nodes, for the
/// selector that `Selector::from` reads from `selector`.
///
/// Trusted: the result is the first element in document order that the
/// selector matches; there is none exactly when nothing matches, and then
/// the list is as it was; what the caller writes through the reference
/// replaces that element and nothing else.
#[verifier::external_body]
pub(crate) fn query_mut<'a>(dom: &'a mut Vec<Node>, selector: &str) -> (found: Option<
    &'a mut Element,
>)
    requires
        selector_reads(selector@),
    ensures
        match found {
            None => {
                &&& forest_first_match(forest_model(old(dom)@), selector@) is None
                &&& *final(dom) == *old(dom)
            },
            Some(element) => {
                &&& forest_first_match(forest_model(old(dom)@), selector@) == Some(
                    element_model(*element),
                )
                &&& forest_model(final(dom)@) == forest_replace_first(
                    forest_model(old(dom)@),
                    selector@,
                    element_model(*final(element)),
                )
            },
        },
{
    dom.query_mut(&Selector::from(selector))
}

/// A selector that the reader does not get through matches nothing at or
/// below an element.
pub proof fn lemma_unread_matches_no_tag(tag: Tag, selector: Seq<char>)
    requires
        !selector_reads(selector),
    ensures
        tag_matches(tag, selector) == Seq::<Tag>::empty(),
        tag_first_match(tag, selector) is None,
    decreases tag,
{
    lemma_unread_matches_nothing(tag.children, selector);
}

/// A selector that the reader does not get through matches nothing in a
/// list of nodes.
pub proof fn lemma_unread_matches_nothing(forest: Seq<Markup>, selector: Seq<char>)
    requires
        !selector_reads(selector),
    ensures
        forest_matches(forest, selector) == Seq::<Tag>::empty(),
        forest_first_match(forest, selector) is None,
    decreases forest,
{
    if forest.len() > 0 {
        match forest[0] {
            Markup::Element(tag) => {
                lemma_unread_matches_no_tag(tag, selector);
            },
            _ => {},
        }
        lemma_unread_matches_nothing(forest.skip(1), selector);
    }
}

/// The first match at or below an element is the first of all matches
/// there.
pub proof fn lemma_first_of_tag_matches(tag: Tag, selector: Seq<char>)
    ensures
        tag_first_match(tag, selector) == if tag_matches(tag, selector).len() > 0 {
            Some(tag_matches(tag, selector)[0])
        } else {
            None
        },
    decreases tag,
{
    lemma_first_of_forest_matches(tag.children, selector);
}

/// The first match in a list of nodes is the first of all matches in it.
pub proof fn lemma_first_of_forest_matches(forest: Seq<Markup>, selector: Seq<char>)
    ensures
        forest_first_match(forest, selector) == if forest_matches(forest, selector).len() > 0 {
            Some(forest_matches(forest, selector)[0])
        } else {
            None
        },
    decreases forest,
{
    if forest.len() > 0 {
        match forest[0] {
            Markup::Element(tag) => {
                lemma_first_of_tag_matches(tag, selector);
            },
            _ => {},
        }
        lemma_first_of_forest_matches(forest.skip(1), selector);
    }
}

/// Where nothing at or below an element matches, replacing the first match
/// changes nothing.
pub proof fn lemma_replace_nothing_in_tag(tag: Tag, selector: Seq<char>, new: Tag)
    requires
        tag_first_match(tag, selector) is None,
    ensures
        tag_replace_first(tag, selector, new) == tag,
    decreases tag,
{
    lemma_replace_nothing_in_forest(tag.children, selector, new);
}

/// Where nothing in a list of nodes matches, replacing the first match
/// changes nothing.
pub proof fn lemma_replace_nothing_in_forest(forest: Seq<Markup>, selector: Seq<char>, new: Tag)
    requires
        forest_first_match(forest, selector) is None,
    ensures
        forest_replace_first(forest, selector, new) == forest,
    decreases forest,
{
    if forest.len() > 0 {
        lemma_replace_nothing_in_forest(forest.skip(1), selector, new);
    }
}

/// Where the first match at or below an element was replaced by an element
/// that the selector matches as well, that one is the first match.
pub proof fn lemma_replaced_is_first_in_tag(tag: Tag, selector: Seq<char>, new: Tag)
    requires
        tag_first_match(tag, selector) is Some,
        selected(new, selector),
    ensures
        tag_first_match(tag_replace_first(tag, selector, new), selector) == Some(new),
    decreases tag,
{
    if !selected(tag, selector) {
        lemma_replaced_is_first_in_forest(tag.children, selector, new);
    }
}

/// Where the first match in a list of nodes was replaced by an element that
/// the selector matches as well, that one is the first match.
pub proof fn lemma_replaced_is_first_in_forest(forest: Seq<Markup>, selector: Seq<char>, new: Tag)
    requires
        forest_first_match(forest, selector) is Some,
        selected(new, selector),
    ensures
        forest_first_match(forest_replace_first(forest, selector, new), selector) == Some(new),
    decreases forest,
{
    let replaced = forest_replace_first(forest, selector, new);
    match forest[0] {
        Markup::Element(tag) if tag_first_match(tag, selector) is Some => {
            lemma_replaced_is_first_in_tag(tag, selector, new);
        },
        _ => {
            lemma_replaced_is_first_in_forest(forest.skip(1), selector, new);
            assert(replaced.skip(1) =~= forest_replace_first(forest.skip(1), selector, new));
        },
    }
}

/// Replacing the first match leaves a list of nodes as long as it was.
pub proof fn lemma_replace_keeps_length(forest: Seq<Markup>, selector: Seq<char>, new: Tag)
    ensures
        forest_replace_first(forest, selector, new).len() == forest.len(),
    decreases forest,
{
    if forest.len() > 0 {
        lemma_replace_keeps_length(forest.skip(1), selector, new);
    }
}

/// The first match of a selector is an element that the selector matches.
pub proof fn lemma_first_match_is_selected(forest: Seq<Markup>, selector: Seq<char>)
    requires
        forest_first_match(forest, selector) is Some,
    ensures
        selected(forest_first_match(forest, selector)->Some_0, selector),
    decreases forest,
{
    match forest[0] {
        Markup::Element(tag) if tag_first_match(tag, selector) is Some => {
            if !selected(tag, selector) {
                lemma_first_match_is_selected(tag.children, selector);
            }
        },
        _ => {
            lemma_first_match_is_selected(forest.skip(1), selector);
        },
    }
}

/// The reader gets through every selector within ASCII.
pub proof fn lemma_ascii_selector_is_read(selector: Seq<char>)
    requires
        is_ascii_chars(selector),
    ensures
        selector_reads(selector),
{
    assert forall|i: int| 0 <= i < fields(selector, ',').len() implies part_reads(
        trimmed_text(#[trigger] fields(selector, ',')[i]),
    ) by {
        lemma_fields_of_narrow(selector, ',', i);
        lemma_trimmed_narrow(fields(selector, ',')[i]);
        let part = trimmed_text(fields(selector, ',')[i]);
        assert forall|j: int| 1 <= j < part.len() implies utf8_len(part.take(j)) < part.len() by {
            lemma_utf8_len_of_narrow(part.take(j));
        }
    }
}

/// Whether the reader gets through `part`, one part of a selector without
/// the white space around it.
pub fn part_is_read(part: &Vec<char>) -> (reads: bool)
    ensures
        reads == part_reads(part@),
{
    let n: usize = part.len();
    if n == 0 {
        return true;
    }
    if utf8_width_of(part[0]) != 1 {
        return false;
    }
    let mut bytes: u128 = 1;
    let mut j: usize = 1;
    assert(utf8_len(part@.take(1).drop_last()) == 0);
    while j < n
        invariant
            1 <= j <= n == part.len(),
            bytes == utf8_len(part@.take(j as int)),
            bytes <= 4 * j,
            utf8_width(part@[0]) == 1,
            forall|k: int|
                1 <= k < j && is_separator(#[trigger] part@[k]) ==> utf8_len(part@.take(k)) < n,
        decreases n - j,
    {
        let c: char = part[j];
        if (c == '.' || c == '#') && bytes >= n as u128 {
            return false;
        }
        assert(part@.take(j as int + 1).drop_last() =~= part@.take(j as int));
        bytes = bytes + utf8_width_of(c) as u128;
        j += 1;
    }
    true
}

/// Whether the reader gets through the selector.
pub fn selector_is_read(selector: &str) -> (reads: bool)
    ensures
        reads == selector_reads(selector@),
{
    let chars = chars_of(selector);
    let parts = split_fields(&chars, ',');
    let mut i: usize = 0;
    while i < parts.len()
        invariant
            i <= parts.len(),
            field_views(parts@) == fields(selector@, ','),
            forall|k: int|
                0 <= k < i ==> part_reads(trimmed_text(#[trigger] fields(selector@, ',')[k])),
        decreases parts.len() - i,
    {
        assert(field_views(parts@)[i as int] == parts@[i as int]@);
        let part = trim_chars(&parts[i]);
        if !part_is_read(&part) {
            return false;
        }
        i += 1;
    }
    true
}

/// Adds to `found` the elements of `nodes` that the selector matches, in
/// document order.
fn collect_matches<'a>(nodes: &'a Vec<Node>, selector: &str, found: &mut Vec<&'a Element>)
    requires
        selector_reads(selector@),
    ensures
        tags(final(found)@) == tags(old(found)@) + forest_matches(
            forest_model(nodes@),
            selector@,
        ),
    decreases nodes,
{
    let ghost forest = forest_model(nodes@);
    let ghost start = tags(found@);
    let mut i: usize = 0;
    assert(forest.skip(0) =~= forest);
    while i < nodes.len()
        invariant
            i <= nodes.len(),
            selector_reads(selector@),
            forest == forest_model(nodes@),
            tags(found@) + forest_matches(forest.skip(i as int), selector@) == start
                + forest_matches(forest, selector@),
        decreases nodes.len() - i,
    {
        let ghost before = tags(found@);
        let ghost rest = forest_matches(forest.skip(i as int + 1), selector@);
        assert(forest.skip(i as int).skip(1) =~= forest.skip(i as int + 1));
        match &nodes[i] {
            Node::Element(element) => {
                proof {
                    lemma_element_node_model(*element);
                }
                let ghost tag = element_model(*element);
                if selector_matches(selector, element) {
                    found.push(element);
                }
                collect_matches(&element.children, selector, found);
                assert(tags(found@) + rest =~= before + (tag_matches(tag, selector@) + rest));
            },
            _ => {},
        }
        i += 1;
    }
}

/// The elements of the document that the selector matches, in document
/// order. A selector that the reader does not get through finds none.
pub fn find_all<'a>(dom: &'a Vec<Node>, selector: &str) -> (found: Vec<&'a Element>)
    ensures
        tags(found@) == forest_matches(forest_model(dom@), selector@),
{
    let mut found: Vec<&'a Element> = Vec::new();
    if selector_is_read(selector) {
        collect_matches(dom, selector, &mut found);
        assert(Seq::<Tag>::empty() + forest_matches(forest_model(dom@), selector@)
            =~= forest_matches(forest_model(dom@), selector@));
    } else {
        proof {
            lemma_unread_matches_nothing(forest_model(dom@), selector@);
        }
    }
    found
}

/// The first element of the document in document order that the selector
/// matches, to be changed in place; the document is as it was where there
/// is none. A selector that the reader does not get through finds none.
pub fn find_first_mut<'a>(dom: &'a mut Vec<Node>, selector: &str) -> (found: Option<
    &'a mut Element,
>)
    ensures
        match found {
            None => {
                &&& forest_first_match(forest_model(old(dom)@), selector@) is None
                &&& *final(dom) == *old(dom)
            },
            Some(element) => {
                &&& forest_first_match(forest_model(old(dom)@), selector@) == Some(
                    element_model(*element),
                )
                &&& forest_model(final(dom)@) == forest_replace_first(
                    forest_model(old(dom)@),
                    selector@,
                    element_model(*final(element)),
                )
            },
        },
{
    if selector_is_read(selector) {
        query_mut(dom, selector)
    } else {
        proof {
            lemma_unread_matches_nothing(forest_model(dom@), selector@);
        }
        None
    }
}

} // verus!
