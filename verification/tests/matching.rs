use selector_engine::attr::{
    AttrSelectorOperation, AttrSelectorOperator, CaseSensitivity, NamespaceConstraint,
};
use selector_engine::context::MatchingContext;
use selector_engine::element_ref::ElementRef;
use selector_engine::matching::{
    matches_compound_selector, matches_selector, matches_selector_with_context,
    matches_simple_selector,
};
use selector_engine::selector::{NonTSPseudoClass, Selector, SimpleSelector};
use selector_engine::tree::{split_words, Attribute, Element, Html, Node, QualName};

fn element(name: &str, attrs: &[(&str, &str)]) -> Node {
    let attrs = attrs.iter().map(|(name, value)| Attribute::new(name, value)).collect();
    Node::Element(Element::new(QualName::html(name), attrs))
}

fn text(content: &str) -> Node {
    Node::Text(content.to_string())
}

fn tree(entries: Vec<(Option<usize>, Node)>) -> Html {
    Html::from_nodes(entries).unwrap()
}

fn matches(selector: &str, tree: &Html, id: usize) -> bool {
    let selector = Selector::parse(selector).unwrap();
    selector.matches(&ElementRef::wrap(tree, id).unwrap())
}

fn selected(selector: &str, tree: &Html) -> Vec<usize> {
    let selector = Selector::parse(selector).unwrap();
    tree.select(&selector).iter().map(|e| e.opaque()).collect()
}

/// `<div><p><span/></p></div>` under a document.
fn nested() -> Html {
    tree(vec![
        (None, Node::Document),
        (Some(0), element("div", &[])),
        (Some(1), element("p", &[])),
        (Some(2), element("span", &[])),
    ])
}

/// A document with a list whose items carry classes, separated by text and a comment.
fn list() -> Html {
    tree(vec![
        (None, Node::Document),
        (Some(0), element("ul", &[("id", "menu")])),
        (Some(1), element("li", &[("class", "first item")])),
        (Some(1), text(" ")),
        (Some(1), element("li", &[("class", "item")])),
        (Some(1), Node::Comment("gap".to_string())),
        (Some(1), element("li", &[("class", "item last")])),
        (Some(6), element("a", &[("href", "/x")])),
    ])
}

#[test]
fn type_selector_matches_only_that_type() {
    let t = nested();
    assert!(matches("p", &t, 2));
    assert!(!matches("p", &t, 1));
    assert!(!matches("p", &t, 3));
    assert_eq!(selected("p", &t), vec![2]);
}

#[test]
fn class_must_be_present() {
    let t = tree(vec![
        (None, Node::Fragment),
        (Some(0), element("p", &[("class", "my_class")])),
        (Some(0), element("p", &[])),
        (Some(0), element("div", &[("class", "my_class")])),
    ]);
    assert!(matches("p.my_class", &t, 1));
    assert!(!matches("p.my_class", &t, 2));
    assert!(!matches("p.my_class", &t, 3));
    assert!(!matches("p.MY_CLASS", &t, 1));
    assert_eq!(selected(".my_class", &t), vec![1, 3]);
}

#[test]
fn id_is_compared_case_sensitively() {
    let t = tree(vec![
        (None, Node::Fragment),
        (Some(0), element("p", &[("id", "link_id_456")])),
        (Some(0), element("p", &[("id", "Link_id_456")])),
        (Some(0), element("p", &[])),
    ]);
    assert!(matches("#link_id_456", &t, 1));
    assert!(!matches("#link_id_456", &t, 2));
    assert!(!matches("#link_id_456", &t, 3));
    assert!(!matches("#LINK_ID_456", &t, 1));
}

#[test]
fn href_presence() {
    let t = tree(vec![
        (None, Node::Fragment),
        (Some(0), element("a", &[("href", "https://www.example.com")])),
        (Some(0), element("a", &[])),
        (Some(0), element("p", &[])),
        (Some(0), element("p", &[("href", "x")])),
        (Some(0), element("area", &[("href", "x")])),
    ]);
    assert!(matches("a[href]", &t, 1));
    assert!(!matches("a[href]", &t, 2));
    assert!(!matches("a[href]", &t, 3));
    assert!(!matches("a[href]", &t, 4));
    assert!(ElementRef::wrap(&t, 1).unwrap().is_link());
    assert!(!ElementRef::wrap(&t, 2).unwrap().is_link());
    assert!(!ElementRef::wrap(&t, 3).unwrap().is_link());
    assert!(!ElementRef::wrap(&t, 4).unwrap().is_link());
    assert!(ElementRef::wrap(&t, 5).unwrap().is_link());
}

#[test]
fn combinators_on_nested_elements() {
    let t = nested();
    assert!(matches("div > p", &t, 2));
    assert!(matches("div span", &t, 3));
    assert!(!matches("div > span", &t, 3));
    assert!(matches("div p", &t, 2));
    assert!(matches("div > p > span", &t, 3));
    assert!(matches("div p span", &t, 3));
    assert!(!matches("p div", &t, 1));
    assert!(!matches("span > p", &t, 2));
    assert!(!matches("div > p", &t, 3));
}

#[test]
fn descendant_search_backtracks() {
    let t = tree(vec![
        (None, Node::Document),
        (Some(0), element("section", &[])),
        (Some(1), element("div", &[("class", "a")])),
        (Some(2), element("div", &[])),
        (Some(3), element("p", &[])),
    ]);
    assert!(matches("section > .a p", &t, 4));
    assert!(matches("section > div p", &t, 4));
    assert!(!matches("section > div > p", &t, 4));
    assert!(matches("div div p", &t, 4));
    assert!(!matches("div div div p", &t, 4));
}

#[test]
fn sibling_combinators_skip_what_is_not_an_element() {
    let t = list();
    assert!(matches("li + li", &t, 4));
    assert!(matches(".first + .item", &t, 4));
    assert!(matches(".item + .last", &t, 6));
    assert!(!matches(".first + .last", &t, 6));
    assert!(matches(".first ~ .last", &t, 6));
    assert!(matches("li ~ li", &t, 6));
    assert!(!matches("li ~ li", &t, 2));
    assert!(!matches("li + li", &t, 2));
    assert!(!matches(".last ~ .first", &t, 2));
    assert!(matches(".first ~ li a", &t, 7));
    assert!(matches("#menu > .first + li + li > a[href]", &t, 7));
}

#[test]
fn a_group_matches_when_one_of_its_selectors_does() {
    let t = nested();
    assert!(matches("a, p", &t, 2));
    assert!(matches("p, a", &t, 2));
    assert!(!matches("a, b", &t, 2));
    assert_eq!(selected("div, span", &t), vec![1, 3]);
    assert_eq!(selected("*", &t), vec![1, 2, 3]);
    assert_eq!(selected("b", &t), Vec::<usize>::new());
}

#[test]
fn matching_twice_gives_the_same_answer() {
    let t = list();
    let selector = Selector::parse("ul > li ~ .last a, .first").unwrap();
    for id in [1, 2, 4, 6, 7] {
        let element = ElementRef::wrap(&t, id).unwrap();
        let first = selector.matches(&element);
        assert_eq!(first, selector.matches(&element));
        assert_eq!(first, selector.clone().matches(&element));
    }
}

#[test]
fn changing_an_unrelated_node_changes_nothing() {
    let before = list();
    let after = tree(vec![
        (None, Node::Document),
        (Some(0), element("ul", &[("id", "menu")])),
        (Some(1), element("li", &[("class", "first item")])),
        (Some(1), text(" ")),
        (Some(1), element("li", &[("class", "item")])),
        (Some(1), Node::Comment("gap".to_string())),
        (Some(1), element("li", &[("class", "changed"), ("id", "other")])),
        (Some(6), element("b", &[])),
    ]);
    for selector in ["ul > li", ".first + li", "#menu .item", "li ~ li", ".last", "li:empty"] {
        assert_eq!(matches(selector, &before, 4), matches(selector, &after, 4));
        assert_eq!(matches(selector, &before, 2), matches(selector, &after, 2));
    }
    assert!(matches(".last", &before, 6));
    assert!(!matches(".last", &after, 6));
}

#[test]
fn names_are_lower_cased_on_html_elements_only() {
    let t = tree(vec![
        (None, Node::Document),
        (Some(0), element("div", &[("title", "x")])),
        (Some(1), Node::Element(Element::new(QualName::new("urn:x", "viewBox"), vec![
            Attribute::new("viewBox", "0"),
        ]))),
    ]);
    assert!(matches("DIV", &t, 1));
    assert!(matches("[TITLE]", &t, 1));
    assert!(matches("viewBox", &t, 2));
    assert!(!matches("viewbox", &t, 2));
    assert!(matches("[viewBox]", &t, 2));
    assert!(!matches("[VIEWBOX]", &t, 2));
    assert!(ElementRef::wrap(&t, 1).unwrap().is_html_element_in_html_document());
    assert!(!ElementRef::wrap(&t, 2).unwrap().is_html_element_in_html_document());
}

fn titled(value: &str) -> Html {
    tree(vec![(None, Node::Document), (Some(0), element("p", &[("title", value)]))])
}

#[test]
fn attribute_equals() {
    assert!(matches("[title=abc]", &titled("abc"), 1));
    assert!(!matches("[title=abc]", &titled("abcd"), 1));
    assert!(!matches("[title=abc]", &titled("ABC"), 1));
    assert!(matches("[title=abc i]", &titled("ABC"), 1));
    assert!(matches("[title=ABC i]", &titled("abc"), 1));
    assert!(!matches("[title=abc s]", &titled("ABC"), 1));
    assert!(matches("[title='']", &titled(""), 1));
    assert!(!matches("[other=abc]", &titled("abc"), 1));
}

#[test]
fn attribute_includes() {
    assert!(matches("[title~=b]", &titled("a b c"), 1));
    assert!(matches("[title~=a]", &titled("a b c"), 1));
    assert!(matches("[title~=c]", &titled("a\tb\nc"), 1));
    assert!(!matches("[title~=b]", &titled("abc"), 1));
    assert!(!matches("[title~='a b']", &titled("a b c"), 1));
    assert!(!matches("[title~='']", &titled("a b"), 1));
    assert!(matches("[title~=B i]", &titled("a b c"), 1));
}

#[test]
fn attribute_dash_match() {
    assert!(matches("[title|=en]", &titled("en"), 1));
    assert!(matches("[title|=en]", &titled("en-US"), 1));
    assert!(!matches("[title|=en]", &titled("english"), 1));
    assert!(!matches("[title|=en]", &titled("fr-en"), 1));
    assert!(matches("[title|=EN i]", &titled("en-US"), 1));
}

#[test]
fn attribute_prefix_suffix_substring() {
    assert!(matches("[title^=ab]", &titled("abc"), 1));
    assert!(!matches("[title^=bc]", &titled("abc"), 1));
    assert!(!matches("[title^='']", &titled("abc"), 1));
    assert!(matches("[title$=bc]", &titled("abc"), 1));
    assert!(!matches("[title$=ab]", &titled("abc"), 1));
    assert!(!matches("[title$='']", &titled("abc"), 1));
    assert!(matches("[title*=b]", &titled("abc"), 1));
    assert!(matches("[title*=abc]", &titled("abc"), 1));
    assert!(!matches("[title*=ac]", &titled("abc"), 1));
    assert!(!matches("[title*='']", &titled("abc"), 1));
    assert!(matches("[title*=B i]", &titled("abc"), 1));
    assert!(matches("[title^=AB i]", &titled("abc"), 1));
    assert!(matches("[title$=BC i]", &titled("abc"), 1));
    assert!(matches("[title*=é]", &titled("café au lait"), 1));
}

#[test]
fn operations_are_evaluated_on_the_value() {
    let equal = AttrSelectorOperation::WithValue {
        operator: AttrSelectorOperator::Equal,
        case_sensitivity: CaseSensitivity::CaseSensitive,
        value: "x".to_string(),
    };
    assert!(equal.eval_str("x"));
    assert!(!equal.eval_str("y"));
    assert!(AttrSelectorOperation::Exists.eval_str("anything"));
    assert!(AttrSelectorOperation::Exists.eval_str(""));
}

#[test]
fn case_modes_compare_strings() {
    assert!(CaseSensitivity::CaseSensitive.eq_str("abc", "abc"));
    assert!(!CaseSensitivity::CaseSensitive.eq_str("abc", "abC"));
    assert!(!CaseSensitivity::CaseSensitive.eq_str("abc", "ab"));
    assert!(CaseSensitivity::AsciiCaseInsensitive.eq_str("abc", "aBC"));
    assert!(!CaseSensitivity::AsciiCaseInsensitive.eq_str("abc", "abd"));
    assert!(!CaseSensitivity::AsciiCaseInsensitive.eq_str("é", "É"));
    assert!(CaseSensitivity::AsciiCaseInsensitive.eq_str("", ""));
}

#[test]
fn namespaces_of_attributes() {
    let linked = Attribute {
        name: QualName::new("http://www.w3.org/1999/xlink", "href"),
        value: "x".to_string(),
    };
    let t = tree(vec![
        (None, Node::Document),
        (Some(0), Node::Element(Element::new(QualName::html("a"), vec![linked]))),
    ]);
    let a = ElementRef::wrap(&t, 1).unwrap();
    assert!(!matches("[href]", &t, 1));
    assert!(!matches("[|href]", &t, 1));
    assert!(matches("[*|href]", &t, 1));
    assert!(!a.is_link());
    assert!(a.attr_matches(&NamespaceConstraint::Any, "href", &AttrSelectorOperation::Exists));
    assert!(a.attr_matches(
        &NamespaceConstraint::Specific("http://www.w3.org/1999/xlink".to_string()),
        "href",
        &AttrSelectorOperation::Exists
    ));
    assert!(!a.attr_matches(
        &NamespaceConstraint::Specific(String::new()),
        "href",
        &AttrSelectorOperation::Exists
    ));
}

#[test]
fn root_is_the_child_of_the_document_or_has_no_parent() {
    let t = nested();
    assert!(matches(":root", &t, 1));
    assert!(!matches(":root", &t, 2));
    assert!(matches(":root > p", &t, 2));
    let lone = tree(vec![(None, element("html", &[])), (Some(0), element("body", &[]))]);
    assert!(ElementRef::wrap(&lone, 0).unwrap().is_root());
    assert!(!ElementRef::wrap(&lone, 1).unwrap().is_root());
    let fragment = tree(vec![(None, Node::Fragment), (Some(0), element("p", &[]))]);
    assert!(!ElementRef::wrap(&fragment, 1).unwrap().is_root());
}

#[test]
fn empty_means_no_element_and_no_text_but_whitespace() {
    let t = tree(vec![
        (None, Node::Document),
        (Some(0), element("div", &[])),
        (Some(1), element("p", &[])),
        (Some(1), element("p", &[])),
        (Some(3), text(" \n\t")),
        (Some(3), Node::Comment("note".to_string())),
        (Some(1), element("p", &[])),
        (Some(6), text(" x ")),
        (Some(1), element("p", &[])),
        (Some(8), text("")),
    ]);
    assert!(!matches(":empty", &t, 1));
    assert!(matches(":empty", &t, 2));
    assert!(matches(":empty", &t, 3));
    assert!(!matches(":empty", &t, 6));
    assert!(matches(":empty", &t, 8));
    assert_eq!(selected("p:empty", &t), vec![2, 3, 8]);
}

#[test]
fn state_pseudo_classes_never_match() {
    let t = list();
    for selector in [":hover", ":active", ":link", ":visited", "a:link", "a:hover"] {
        assert_eq!(selected(selector, &t), Vec::<usize>::new());
    }
    let a = ElementRef::wrap(&t, 7).unwrap();
    let nothing = MatchingContext::new();
    assert!(!a.match_non_ts_pseudo_class(&NonTSPseudoClass::Link, &nothing));
    assert!(!a.match_non_ts_pseudo_class(&NonTSPseudoClass::Hover, &nothing));
}

#[test]
fn a_context_puts_elements_in_states() {
    let t = list();
    let mut context = MatchingContext::new();
    context.insert(7, NonTSPseudoClass::Hover);
    context.insert(7, NonTSPseudoClass::Link);
    context.insert(4, NonTSPseudoClass::Active);
    assert!(context.holds(7, &NonTSPseudoClass::Hover));
    assert!(context.holds(4, &NonTSPseudoClass::Active));
    assert!(!context.holds(7, &NonTSPseudoClass::Active));
    assert!(!context.holds(4, &NonTSPseudoClass::Hover));
    assert!(!context.holds(2, &NonTSPseudoClass::Link));
    let a = ElementRef::wrap(&t, 7).unwrap();
    let li = ElementRef::wrap(&t, 4).unwrap();
    assert!(a.match_non_ts_pseudo_class(&NonTSPseudoClass::Hover, &context));
    assert!(!a.match_non_ts_pseudo_class(&NonTSPseudoClass::Visited, &context));
    let hovered = Selector::parse("a:hover").unwrap();
    assert!(hovered.matches_with_context(&a, &context));
    assert!(!hovered.matches(&a));
    assert!(!hovered.matches_with_context(&li, &context));
    let chain = Selector::parse("li:active ~ li > a:link:hover").unwrap();
    assert!(chain.matches_with_context(&a, &context));
    assert!(matches_selector_with_context(chain.get(0).unwrap(), &a, &context));
    assert!(!matches_selector(chain.get(0).unwrap(), &a));
    assert!(!Selector::parse("a:visited").unwrap().matches_with_context(&a, &context));
}

#[test]
fn selectors_can_be_matched_one_by_one() {
    let t = list();
    let selector = Selector::parse("ul > li.item, a").unwrap();
    let li = ElementRef::wrap(&t, 4).unwrap();
    let a = ElementRef::wrap(&t, 7).unwrap();
    assert!(matches_selector(selector.get(0).unwrap(), &li));
    assert!(!matches_selector(selector.get(1).unwrap(), &li));
    assert!(!matches_selector(selector.get(0).unwrap(), &a));
    assert!(matches_selector(selector.get(1).unwrap(), &a));
    let nothing = MatchingContext::new();
    let compound = &selector.get(0).unwrap().compounds()[0];
    assert!(matches_compound_selector(compound, &li, &nothing));
    assert!(!matches_compound_selector(compound, &a, &nothing));
    assert!(matches_simple_selector(&SimpleSelector::Universal, &a, &nothing));
    assert!(matches_simple_selector(
        &SimpleSelector::Class("last".to_string()),
        &ElementRef::wrap(&t, 6).unwrap(),
        &nothing
    ));
    assert!(!matches_simple_selector(&SimpleSelector::Id("menu".to_string()), &a, &nothing));
}

#[test]
fn navigation_between_elements() {
    let t = list();
    let ul = ElementRef::wrap(&t, 1).unwrap();
    let first = ElementRef::wrap(&t, 2).unwrap();
    let middle = ElementRef::wrap(&t, 4).unwrap();
    let last = ElementRef::wrap(&t, 6).unwrap();
    assert!(ul.parent_element().is_none());
    assert_eq!(first.parent_element().unwrap().opaque(), 1);
    assert_eq!(ul.first_child_element().unwrap().opaque(), 2);
    assert_eq!(ul.last_child_element().unwrap().opaque(), 6);
    assert!(first.first_child_element().is_none());
    assert!(first.last_child_element().is_none());
    assert!(first.prev_sibling_element().is_none());
    assert_eq!(first.next_sibling_element().unwrap().opaque(), 4);
    assert_eq!(middle.prev_sibling_element().unwrap().opaque(), 2);
    assert_eq!(middle.next_sibling_element().unwrap().opaque(), 6);
    assert!(last.next_sibling_element().is_none());
    assert_eq!(last.prev_sibling_element().unwrap().opaque(), 4);
    assert_eq!(last.first_child_element().unwrap().opaque(), 7);
    assert_eq!(middle.get_local_name(), "li");
    assert_eq!(middle.get_namespace(), "http://www.w3.org/1999/xhtml");
    assert_eq!(middle.value().classes, vec!["item".to_string()]);
}

#[test]
fn only_elements_can_be_referred_to() {
    let t = list();
    assert!(ElementRef::wrap(&t, 0).is_none());
    assert!(ElementRef::wrap(&t, 3).is_none());
    assert!(ElementRef::wrap(&t, 5).is_none());
    assert!(ElementRef::wrap(&t, 8).is_none());
    assert!(ElementRef::wrap(&t, 7).is_some());
    assert_eq!(t.len(), 8);
    assert!(t.get(3).unwrap().is_text());
    assert!(t.get(0).unwrap().is_document());
    assert!(t.get(1).unwrap().is_element());
    assert!(t.get(8).is_none());
}

#[test]
fn a_tree_needs_a_root_and_earlier_parents() {
    assert!(Html::from_nodes(vec![]).is_none());
    assert!(Html::from_nodes(vec![(Some(0), Node::Document)]).is_none());
    assert!(Html::from_nodes(vec![(None, Node::Document), (None, Node::Document)]).is_none());
    assert!(Html::from_nodes(vec![(None, Node::Document), (Some(1), text("x"))]).is_none());
    assert!(Html::from_nodes(vec![(None, Node::Document), (Some(2), text("x")), (Some(0), text("y"))]).is_none());
    assert!(Html::from_nodes(vec![(None, Node::Document)]).is_some());
    assert!(Html::from_nodes(vec![(None, Node::Document), (Some(0), text("x")), (Some(0), text("y"))]).is_some());
}

#[test]
fn id_and_classes_come_from_the_attributes() {
    let made = Element::new(
        QualName::html("p"),
        vec![
            Attribute::new("class", "  a b\tc\n"),
            Attribute::new("id", "first"),
            Attribute::new("id", "second"),
            Attribute::new("class", "d"),
        ],
    );
    assert_eq!(made.id, Some("first".to_string()));
    assert_eq!(made.classes, vec!["a".to_string(), "b".to_string(), "c".to_string()]);
    assert_eq!(made.attrs.len(), 4);
    let bare = Element::new(QualName::html("p"), vec![]);
    assert_eq!(bare.id, None);
    assert!(bare.classes.is_empty());
    assert_eq!(split_words(""), Vec::<String>::new());
    assert_eq!(split_words(" \t "), Vec::<String>::new());
    assert_eq!(split_words("one"), vec!["one".to_string()]);
    assert_eq!(split_words("one\x0ctwo  three "), vec!["one", "two", "three"]);
}
