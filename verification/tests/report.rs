use html_editor::operation::Htmlifiable;
use html_editor::{parse, Element, Node};
use stock_verifier::annotate::{annotate, annotate_symbol, append_annotation};
use stock_verifier::query::{find_all, find_first_mut};
use stock_verifier::quotes::Quote;
use stock_verifier::render::render;
use stock_verifier::symbols::{extract_symbols, first_text_child, symbols_from_headers};

fn document(html: &str) -> Vec<Node> {
    parse(html).unwrap()
}

fn text(content: &str) -> Node {
    Node::Text(String::from(content))
}

fn quote(open: i64, close: i64) -> Quote {
    Quote { open, close }
}

const REPORT: &str = "<html><body>\
     <div class=\"item\"><h2 class=\"item-header\">ABC</h2><div id=\"ABC\">predicted 12</div></div>\
     <div class=\"item\"><h2 class=\"item-header\">XYZ</h2><div id=\"XYZ\">predicted -3</div></div>\
     </body></html>";

#[test]
fn symbols_come_in_the_order_of_their_headers() {
    let dom = document(
        "<div class=\"item-header\">AAA</div><p>between</p>\
         <section><span class=\"item-header\">BBB</span></section>\
         <div class=\"item-header\">CCC</div>",
    );
    assert_eq!(extract_symbols(&dom), vec!["AAA", "BBB", "CCC"]);
}

#[test]
fn a_document_without_headers_has_no_symbols() {
    let dom = document("<div class=\"item\">AAA</div><div id=\"item-header\">BBB</div>");
    assert!(extract_symbols(&dom).is_empty());
    assert!(extract_symbols(&Vec::new()).is_empty());
}

#[test]
fn a_header_among_other_classes_counts() {
    let dom = document("<div class=\"big item-header red\">AAA</div>");
    assert_eq!(extract_symbols(&dom), vec!["AAA"]);
}

#[test]
fn a_header_without_text_has_no_symbol() {
    let dom = document(
        "<div class=\"item-header\"><b>AAA</b></div>\
         <div class=\"item-header\"></div>\
         <div class=\"item-header\">CCC</div>",
    );
    assert_eq!(extract_symbols(&dom), vec!["CCC"]);
}

#[test]
fn the_first_text_child_is_the_symbol() {
    let dom = document("<div class=\"item-header\"><b>x</b>ABC<i>y</i>DEF</div>");
    assert_eq!(extract_symbols(&dom), vec!["ABC"]);
}

#[test]
fn the_symbol_is_taken_as_it_stands() {
    let dom = document("<div class=\"item-header\"> ABC <b>x</b></div>");
    assert_eq!(extract_symbols(&dom), vec![" ABC "]);
    let dom = document("<div class=\"item-header\">\n  <b>ABC</b>\n</div>");
    assert_eq!(extract_symbols(&dom), vec!["\n  "]);
}

#[test]
fn a_header_comes_before_the_headers_inside_it() {
    let dom = document(
        "<div class=\"item-header\">OUT<span class=\"item-header\">IN</span>\
         <span class=\"item-header\"><b class=\"item-header\">DEEP</b>MID</span></div>\
         <div class=\"item-header\">NEXT</div>",
    );
    assert_eq!(extract_symbols(&dom), vec!["OUT", "IN", "MID", "DEEP", "NEXT"]);
}

#[test]
fn all_matches_are_found_in_document_order() {
    let dom = document(
        "<ul class=\"x\"><li class=\"x\">a</li><li>b</li><li class=\"y x\">c</li></ul>\
         text<!-- x --><p class=\"x\">d</p>",
    );
    let found = find_all(&dom, ".x");
    let names: Vec<&str> = found.iter().map(|element| element.name.as_str()).collect();
    assert_eq!(names, vec!["ul", "li", "li", "p"]);
    let inner: Vec<String> = found.iter().map(|element| element.children.html()).collect();
    assert_eq!(inner[1], "a");
    assert_eq!(inner[2], "c");
    assert_eq!(inner[3], "d");
    assert_eq!(find_all(&dom, "li").len(), 3);
    assert_eq!(find_all(&dom, "li.x").len(), 2);
    assert_eq!(find_all(&dom, "li, p").len(), 4);
    assert!(find_all(&dom, ".z").is_empty());
    assert!(find_all(&dom, "\u{e9}").is_empty());
    assert!(find_all(&dom, "li,\u{e9}").is_empty());
}

#[test]
fn the_first_match_is_the_first_that_is_found() {
    let mut dom = document("<p><b class=\"x\">1</b></p><b class=\"x\">2</b>");
    let first = find_all(&dom, ".x")[0].html();
    assert_eq!(first, "<b class=\"x\">1</b>");
    match find_first_mut(&mut dom, ".x") {
        Some(element) => {
            assert_eq!(element.html(), first);
            element.name = String::from("i");
        }
        None => panic!("there are two matches"),
    }
    assert_eq!(dom.html(), "<p><i class=\"x\">1</i></p><b class=\"x\">2</b>");
    assert!(find_first_mut(&mut dom, ".z").is_none());
    assert!(find_first_mut(&mut dom, ".x\u{e9}").is_none());
    assert_eq!(dom.html(), "<p><i class=\"x\">1</i></p><b class=\"x\">2</b>");
}

#[test]
fn first_text_child_of_an_element() {
    let bold = Node::new_element("b", vec![], vec![]);
    let element = Element::new("h2", vec![], vec![bold, text("ABC"), text("DEF")]);
    assert_eq!(first_text_child(&element), Some(String::from("ABC")));
    let element = Element::new("h2", vec![], vec![Node::Comment(String::from("ABC"))]);
    assert_eq!(first_text_child(&element), None);
    let element = Element::new("h2", vec![], vec![]);
    assert_eq!(first_text_child(&element), None);
}

#[test]
fn symbols_of_given_headers() {
    let first = Element::new("h2", vec![], vec![text("AAA")]);
    let second = Element::new("h2", vec![], vec![]);
    let third = Element::new("h2", vec![], vec![text("CCC"), text("DDD")]);
    let headers = vec![&first, &second, &third, &first];
    assert_eq!(symbols_from_headers(&headers), vec!["AAA", "CCC", "AAA"]);
    assert!(symbols_from_headers(&Vec::new()).is_empty());
}

#[test]
fn a_change_is_appended_to_the_element_of_its_symbol() {
    let mut dom = document("<div class=\"item-header\">ABC</div><div id=\"ABC\">predicted</div>");
    assert_eq!(extract_symbols(&dom), vec!["ABC"]);
    let quotes = vec![quote(50, 52), quote(51, 49), quote(49, 55)];
    assert!(annotate_symbol(&mut dom, "ABC", &quotes));
    assert_eq!(
        render(&mut dom),
        "<div class=\"item-header\">ABC</div>\
         <div id=\"ABC\">predicted: <span class=\"primary blue\">10</span></div>"
    );
    match &dom[1] {
        Node::Element(target) => {
            assert_eq!(target.children.len(), 3);
            assert_eq!(target.children[1].html(), ": ");
            assert_eq!(target.children[2].html(), "<span class=\"primary blue\">10</span>");
            match &target.children[2] {
                Node::Element(span) => {
                    assert_eq!(span.name, "span");
                    let class = (String::from("class"), String::from("primary blue"));
                    assert_eq!(span.attrs, vec![class]);
                    assert_eq!(span.children.len(), 1);
                    assert_eq!(span.children[0].html(), "10");
                }
                _ => panic!("the annotation ends with an element"),
            }
        }
        _ => panic!("the second node is an element"),
    }
}

#[test]
fn a_symbol_without_element_leaves_the_document_as_it_is() {
    let html = "<div class=\"item-header\">ABC</div>\
                <div id=\"XYZ\">predicted</div><p id=\"ABC\">no div</p>";
    let mut dom = document(html);
    let before = dom.html();
    assert!(!annotate(&mut dom, "ABC", 10));
    assert_eq!(dom.html(), before);
    assert!(!annotate_symbol(&mut dom, "ABC", &vec![quote(50, 55)]));
    assert_eq!(dom.html(), before);
    assert_eq!(render(&mut dom), html);
}

#[test]
fn only_the_missing_symbol_goes_without_annotation() {
    let mut dom = document(
        "<h2 class=\"item-header\">AAA</h2><h2 class=\"item-header\">BBB</h2>\
         <div id=\"BBB\">b</div>",
    );
    let symbols = extract_symbols(&dom);
    assert_eq!(symbols, vec!["AAA", "BBB"]);
    assert!(!annotate(&mut dom, &symbols[0], 1));
    assert!(annotate(&mut dom, &symbols[1], 2));
    assert_eq!(
        render(&mut dom),
        "<h2 class=\"item-header\">AAA</h2><h2 class=\"item-header\">BBB</h2>\
         <div id=\"BBB\">b: <span class=\"primary blue\">2</span></div>"
    );
}

#[test]
fn a_symbol_outside_ascii_is_looked_up_like_any_other() {
    let mut dom = document(
        "<h2 class=\"item-header\">\u{e9}t\u{e9}</h2><div id=\"\u{e9}t\u{e9}\">a</div>\
         <h2 class=\"item-header\">\u{682a}</h2><div id=\"\u{682a}\">b</div>",
    );
    let symbols = extract_symbols(&dom);
    assert_eq!(symbols, vec!["\u{e9}t\u{e9}", "\u{682a}"]);
    assert!(annotate(&mut dom, &symbols[0], 10));
    assert!(annotate_symbol(&mut dom, &symbols[1], &vec![quote(1, 30_000_000)]));
    assert!(!annotate(&mut dom, "\u{e8}t\u{e9}", 10));
    assert_eq!(
        render(&mut dom),
        "<h2 class=\"item-header\">\u{e9}t\u{e9}</h2>\
         <div id=\"\u{e9}t\u{e9}\">a: <span class=\"primary blue\">10</span></div>\
         <h2 class=\"item-header\">\u{682a}</h2>\
         <div id=\"\u{682a}\">b: <span class=\"primary blue\">2999999900</span></div>"
    );
}

#[test]
fn a_symbol_that_the_selector_reader_stops_at_finds_nothing() {
    let html = "<div id=\"\u{e9}\u{e9}\u{e9}.x\">a</div><div id=\"A\">b</div>";
    let mut dom = document(html);
    assert!(!annotate(&mut dom, "\u{e9}\u{e9}\u{e9}.x", 10));
    assert!(!annotate(&mut dom, "A,\u{e9}", 10));
    assert!(!annotate(&mut dom, "B, \u{e9}", 10));
    assert!(!annotate_symbol(&mut dom, "\u{e9}\u{e9}\u{e9}#", &vec![quote(50, 55)]));
    assert_eq!(dom.html(), html);
    assert!(annotate(&mut dom, "A", 10));
}

#[test]
fn the_first_element_of_the_symbol_is_the_one() {
    let mut dom = document(
        "<section><div id=\"ABC\">first</div></section><div id=\"ABC\">second</div>",
    );
    assert!(annotate(&mut dom, "ABC", -10));
    assert_eq!(
        dom.html(),
        "<section><div id=\"ABC\">first: <span class=\"primary blue\">-10</span></div></section>\
         <div id=\"ABC\">second</div>"
    );
}

#[test]
fn an_outer_element_comes_before_the_ones_inside_it() {
    let mut dom = document("<div id=\"ABC\"><div id=\"ABC\">inner</div></div>");
    assert!(annotate(&mut dom, "ABC", 0));
    assert_eq!(
        dom.html(),
        "<div id=\"ABC\"><div id=\"ABC\">inner</div>: <span class=\"primary blue\">0</span></div>"
    );
}

#[test]
fn the_symbol_is_put_into_the_selector_as_it_stands() {
    let mut dom = document("<div id=\"BRK.B\">dotted</div><div id=\"BRK\" class=\"B\">split</div>");
    assert!(annotate(&mut dom, "BRK.B", 4));
    assert_eq!(
        dom.html(),
        "<div id=\"BRK.B\">dotted</div>\
         <div class=\"B\" id=\"BRK\">split: <span class=\"primary blue\">4</span></div>"
    );
    let mut dom = document("<div id=\"abc\">lower</div>");
    assert!(!annotate(&mut dom, "ABC", 4));
    assert!(!annotate(&mut dom, " abc", 4));
    assert!(!annotate(&mut dom, "", 4));
}

#[test]
fn each_annotation_is_appended_after_the_last() {
    let mut dom = document("<div id=\"ABC\"></div>");
    assert!(annotate(&mut dom, "ABC", 1));
    assert!(annotate(&mut dom, "ABC", -2));
    assert_eq!(
        dom.html(),
        "<div id=\"ABC\">: <span class=\"primary blue\">1</span>\
         : <span class=\"primary blue\">-2</span></div>"
    );
}

#[test]
fn an_annotation_on_an_element_of_ones_own() {
    let mut element = Element::new("div", vec![("id", "ABC")], vec![text("was")]);
    append_annotation(&mut element, -2_999_999_900);
    assert_eq!(element.name, "div");
    assert_eq!(element.attrs, vec![(String::from("id"), String::from("ABC"))]);
    assert_eq!(
        element.html(),
        "<div id=\"ABC\">was: <span class=\"primary blue\">-2999999900</span></div>"
    );
}

#[test]
fn rendering_trims_the_document() {
    let mut dom = document(
        "<!DOCTYPE html>\n<html>\n  <body>\n    <!-- generated -->\n    \
         <p> kept </p>\n  </body>\n</html>\n",
    );
    assert_eq!(render(&mut dom), "<!DOCTYPE html><html><body><p> kept </p></body></html>");
    assert_eq!(dom.html(), "<!DOCTYPE html><html><body><p> kept </p></body></html>");
    assert_eq!(render(&mut Vec::new()), "");
}

#[test]
fn a_whole_report_is_annotated_symbol_by_symbol() {
    let mut dom = document(REPORT);
    let symbols = extract_symbols(&dom);
    assert_eq!(symbols, vec!["ABC", "XYZ"]);
    let fetched = vec![vec![quote(1000, 1010), quote(1010, 1125)], vec![]];
    let mut found = Vec::new();
    let mut i = 0;
    while i < symbols.len() {
        found.push(annotate_symbol(&mut dom, &symbols[i], &fetched[i]));
        i += 1;
    }
    assert_eq!(found, vec![true, true]);
    assert_eq!(
        render(&mut dom),
        "<html><body>\
         <div class=\"item\"><h2 class=\"item-header\">ABC</h2>\
         <div id=\"ABC\">predicted 12: <span class=\"primary blue\">13</span></div></div>\
         <div class=\"item\"><h2 class=\"item-header\">XYZ</h2>\
         <div id=\"XYZ\">predicted -3: <span class=\"primary blue\">0</span></div></div>\
         </body></html>"
    );
}

#[test]
fn the_annotation_survives_trimming() {
    let html = "<div>\n  <!-- predicted -->\n  <div id=\"ABC\">\n    <b>12</b>\n  </div>\n</div>\n";
    let mut first = document(html);
    assert!(annotate(&mut first, "ABC", -7));
    let written = render(&mut first);
    assert_eq!(
        written,
        "<div><div id=\"ABC\"><b>12</b>: <span class=\"primary blue\">-7</span></div></div>"
    );
    let mut second = document(html);
    render(&mut second);
    assert!(annotate(&mut second, "ABC", -7));
    assert_eq!(second.html(), written);
}
