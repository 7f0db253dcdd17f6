use std::borrow::Cow;
use std::cell::{Ref, RefCell};

use html5ever::tendril::{StrTendril, TendrilSink};
use html5ever::tree_builder::{ElementFlags, NodeOrText, QuirksMode, TreeSink};
use html5ever::{parse_document, parse_fragment, LocalName, Namespace, ParseOpts};
use selector_engine::attr::CaseSensitivity;
use selector_engine::selector::Selector;
use selector_engine::tree::{Attribute, Element, Html, Node, QualName};

/// What the HTML parser has made of a node so far.
enum Kind {
    Root,
    Doctype,
    Comment(String),
    Text(String),
    Element(html5ever::QualName, Vec<html5ever::Attribute>),
    Instruction,
}

struct Draft {
    parent: Option<usize>,
    children: Vec<usize>,
    kind: Kind,
}

/// Receives the nodes that the HTML parser makes, and keeps them in a list.
struct Sink {
    nodes: RefCell<Vec<Draft>>,
}

impl Sink {
    fn new() -> Sink {
        let root = Draft { parent: None, children: Vec::new(), kind: Kind::Root };
        Sink { nodes: RefCell::new(vec![root]) }
    }

    fn create(&self, kind: Kind) -> usize {
        let mut nodes = self.nodes.borrow_mut();
        nodes.push(Draft { parent: None, children: Vec::new(), kind });
        nodes.len() - 1
    }

    fn detach(&self, id: usize) {
        let mut nodes = self.nodes.borrow_mut();
        if let Some(parent) = nodes[id].parent.take() {
            nodes[parent].children.retain(|child| *child != id);
        }
    }

    /// Puts `child` among the children of `parent`, at the place `at`. Text that
    /// comes right after text is added to it.
    fn insert(&self, parent: usize, at: usize, child: NodeOrText<usize>) {
        match child {
            NodeOrText::AppendNode(id) => {
                self.detach(id);
                let mut nodes = self.nodes.borrow_mut();
                let at = at.min(nodes[parent].children.len());
                nodes[parent].children.insert(at, id);
                nodes[id].parent = Some(parent);
            },
            NodeOrText::AppendText(text) => {
                {
                    let mut nodes = self.nodes.borrow_mut();
                    let at = at.min(nodes[parent].children.len());
                    if at > 0 {
                        let before = nodes[parent].children[at - 1];
                        if let Kind::Text(existing) = &mut nodes[before].kind {
                            existing.push_str(&text);
                            return;
                        }
                    }
                }
                let id = self.create(Kind::Text(text.to_string()));
                self.insert(parent, at, NodeOrText::AppendNode(id));
            },
        }
    }

    fn place_of(&self, id: usize) -> Option<(usize, usize)> {
        let nodes = self.nodes.borrow();
        let parent = nodes[id].parent?;
        let at = nodes[parent].children.iter().position(|child| *child == id)?;
        Some((parent, at))
    }
}

impl TreeSink for Sink {
    type Handle = usize;
    type Output = Sink;
    type ElemName<'a> = Ref<'a, html5ever::QualName>;

    fn finish(self) -> Sink {
        self
    }

    fn parse_error(&self, _msg: Cow<'static, str>) {}

    fn get_document(&self) -> usize {
        0
    }

    fn elem_name<'a>(&'a self, target: &'a usize) -> Ref<'a, html5ever::QualName> {
        Ref::map(self.nodes.borrow(), |nodes| match &nodes[*target].kind {
            Kind::Element(name, _) => name,
            _ => panic!("not an element"),
        })
    }

    fn create_element(
        &self,
        name: html5ever::QualName,
        attrs: Vec<html5ever::Attribute>,
        _flags: ElementFlags,
    ) -> usize {
        self.create(Kind::Element(name, attrs))
    }

    fn create_comment(&self, text: StrTendril) -> usize {
        self.create(Kind::Comment(text.to_string()))
    }

    fn create_pi(&self, _target: StrTendril, _data: StrTendril) -> usize {
        self.create(Kind::Instruction)
    }

    fn append(&self, parent: &usize, child: NodeOrText<usize>) {
        self.insert(*parent, usize::MAX, child);
    }

    fn append_based_on_parent_node(
        &self,
        element: &usize,
        prev_element: &usize,
        child: NodeOrText<usize>,
    ) {
        if self.place_of(*element).is_some() {
            self.append_before_sibling(element, child);
        } else {
            self.append(prev_element, child);
        }
    }

    fn append_doctype_to_document(
        &self,
        _name: StrTendril,
        _public_id: StrTendril,
        _system_id: StrTendril,
    ) {
        let id = self.create(Kind::Doctype);
        self.insert(0, usize::MAX, NodeOrText::AppendNode(id));
    }

    fn get_template_contents(&self, target: &usize) -> usize {
        *target
    }

    fn same_node(&self, x: &usize, y: &usize) -> bool {
        x == y
    }

    fn set_quirks_mode(&self, _mode: QuirksMode) {}

    fn append_before_sibling(&self, sibling: &usize, new_node: NodeOrText<usize>) {
        if let Some((parent, at)) = self.place_of(*sibling) {
            self.insert(parent, at, new_node);
        }
    }

    fn add_attrs_if_missing(&self, target: &usize, attrs: Vec<html5ever::Attribute>) {
        let mut nodes = self.nodes.borrow_mut();
        if let Kind::Element(_, existing) = &mut nodes[*target].kind {
            for attr in attrs {
                if !existing.iter().any(|a| a.name == attr.name) {
                    existing.push(attr);
                }
            }
        }
    }

    fn remove_from_parent(&self, target: &usize) {
        self.detach(*target);
    }

    fn reparent_children(&self, node: &usize, new_parent: &usize) {
        let children = self.nodes.borrow()[*node].children.clone();
        for child in children {
            self.insert(*new_parent, usize::MAX, NodeOrText::AppendNode(child));
        }
    }
}

/// Makes a tree of what the sink has received, the nodes in document order.
fn to_tree(sink: Sink, root: Node) -> Html {
    let drafts = sink.nodes.into_inner();
    let mut root = Some(root);
    let mut entries: Vec<(Option<usize>, Node)> = Vec::new();
    let mut pending: Vec<(usize, Option<usize>)> = vec![(0, None)];
    while let Some((id, parent)) = pending.pop() {
        let place = entries.len();
        let node = match &drafts[id].kind {
            Kind::Root => root.take().unwrap(),
            Kind::Doctype => Node::Doctype,
            Kind::Comment(text) => Node::Comment(text.clone()),
            Kind::Text(text) => Node::Text(text.clone()),
            Kind::Instruction => Node::ProcessingInstruction,
            Kind::Element(name, attrs) => {
                let attrs = attrs
                    .iter()
                    .map(|a| Attribute {
                        name: QualName::new(&a.name.ns, &a.name.local),
                        value: a.value.to_string(),
                    })
                    .collect();
                Node::Element(Element::new(QualName::new(&name.ns, &name.local), attrs))
            },
        };
        entries.push((parent, node));
        for child in drafts[id].children.iter().rev() {
            pending.push((*child, Some(place)));
        }
    }
    Html::from_nodes(entries).unwrap()
}

fn html_parse_fragment(html: &str) -> Html {
    let context = html5ever::QualName::new(
        None,
        Namespace::from("http://www.w3.org/1999/xhtml"),
        LocalName::from("body"),
    );
    let sink = parse_fragment(Sink::new(), ParseOpts::default(), context, Vec::new(), false).one(html);
    to_tree(sink, Node::Fragment)
}

fn html_parse_document(html: &str) -> Html {
    let sink = parse_document(Sink::new(), ParseOpts::default()).one(html);
    to_tree(sink, Node::Document)
}

#[test]
fn test_has_id() {
    let html = "<p id='link_id_456'>hey there</p>";
    let fragment = html_parse_fragment(html);
    let sel = Selector::parse("p").unwrap();

    let element = fragment.select(&sel).into_iter().next().unwrap();
    assert_eq!(true, element.has_id("link_id_456", CaseSensitivity::CaseSensitive));

    let html = "<p>hey there</p>";
    let fragment = html_parse_fragment(html);
    let element = fragment.select(&sel).into_iter().next().unwrap();
    assert_eq!(false, element.has_id("any_link_id", CaseSensitivity::CaseSensitive));
}

#[test]
fn test_is_link() {
    let html = "<a href='https://www.example.com'>Example website</a>";
    let fragment = html_parse_fragment(html);
    let sel = Selector::parse("a").unwrap();
    let element = fragment.select(&sel).into_iter().next().unwrap();
    assert_eq!(true, element.is_link());

    let html = "<p>hey there</p>";
    let fragment = html_parse_fragment(html);
    let sel = Selector::parse("p").unwrap();
    let element = fragment.select(&sel).into_iter().next().unwrap();
    assert_eq!(false, element.is_link());
}

#[test]
fn test_has_class() {
    let html = "<p class='my_class'>hey there</p>";
    let fragment = html_parse_fragment(html);
    let sel = Selector::parse("p").unwrap();
    let element = fragment.select(&sel).into_iter().next().unwrap();
    assert_eq!(true, element.has_class("my_class", CaseSensitivity::CaseSensitive));

    let html = "<p>hey there</p>";
    let fragment = html_parse_fragment(html);
    let sel = Selector::parse("p").unwrap();
    let element = fragment.select(&sel).into_iter().next().unwrap();
    assert_eq!(false, element.has_class("my_class", CaseSensitivity::CaseSensitive));
}

#[test]
fn has_id_and_has_class_follow_the_case_mode() {
    let fragment = html_parse_fragment("<p id='Link_Id' class='One two'>hey there</p>");
    let sel = Selector::parse("p").unwrap();
    let element = fragment.select(&sel).into_iter().next().unwrap();
    assert!(element.has_id("Link_Id", CaseSensitivity::CaseSensitive));
    assert!(!element.has_id("link_id", CaseSensitivity::CaseSensitive));
    assert!(element.has_id("link_id", CaseSensitivity::AsciiCaseInsensitive));
    assert!(!element.has_id("link", CaseSensitivity::AsciiCaseInsensitive));
    assert!(element.has_class("two", CaseSensitivity::CaseSensitive));
    assert!(!element.has_class("one", CaseSensitivity::CaseSensitive));
    assert!(element.has_class("one", CaseSensitivity::AsciiCaseInsensitive));
    assert!(!element.has_class("One two", CaseSensitivity::CaseSensitive));
}

fn count(tree: &Html, selector: &str) -> usize {
    tree.select(&Selector::parse(selector).unwrap()).len()
}

#[test]
fn selectors_on_a_parsed_document() {
    let document = html_parse_document(
        "<!DOCTYPE html><html><head><title>t</title></head>\
         <body><div><p><span></span></p></div><p class='my_class'>x</p>\
         <a href='#'>y</a><a>z</a></body></html>",
    );
    assert_eq!(count(&document, "p"), 2);
    assert_eq!(count(&document, "p.my_class"), 1);
    assert_eq!(count(&document, "div > p"), 1);
    assert_eq!(count(&document, "div span"), 1);
    assert_eq!(count(&document, "div > span"), 0);
    assert_eq!(count(&document, "a[href]"), 1);
    assert_eq!(count(&document, "a"), 2);
    assert_eq!(count(&document, ":root"), 1);
    assert_eq!(count(&document, "html:root > body p"), 2);
    assert_eq!(count(&document, "span:empty"), 1);
    assert_eq!(count(&document, "div:empty"), 0);
    assert_eq!(count(&document, "div + p"), 1);
    assert_eq!(count(&document, "div ~ a"), 2);
    assert_eq!(count(&document, "head, body"), 2);
}

#[test]
fn selected_elements_come_in_document_order() {
    let fragment = html_parse_fragment("<ul><li id='a'><b id='b'></b></li><li id='c'></li></ul>");
    let found = fragment.select(&Selector::parse("li, b").unwrap());
    let ids: Vec<String> = found.iter().map(|e| e.value().id.clone().unwrap()).collect();
    assert_eq!(ids, vec!["a", "b", "c"]);
}
