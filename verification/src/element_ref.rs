//! A reference to an element of a tree, and the queries a selector makes of it.

use crate::attr::{
    AttrSelectorOperation, AttrSelectorOperationView, CaseSensitivity, NamespaceConstraint,
    NamespaceConstraintView,
};
use crate::context::MatchingContext;
use crate::selector::{NonTSPseudoClass, PseudoElement};
use crate::text::{contains_non_whitespace, has_non_whitespace, str_eq};
use crate::tree::{tree_wf, Element, ElementView, Html, Node, NodeView, TreeNodeView};
use vstd::prelude::*;

verus! {

/// The namespace of HTML elements.
pub open spec fn html_namespace() -> Seq<char> {
    "http://www.w3.org/1999/xhtml"@
}

/// Whether `id` is the position of an element in the arena.
pub open spec fn is_element_at(t: Seq<TreeNodeView>, id: usize) -> bool {
    id < t.len() && t[id as int].value is Element
}

/// The last element among `kids[..k]`.
pub open spec fn last_element_before(t: Seq<TreeNodeView>, kids: Seq<usize>, k: int) -> Option<usize>
    decreases k,
{
    if k <= 0 || k > kids.len() {
        None
    } else if is_element_at(t, kids[k - 1]) {
        Some(kids[k - 1])
    } else {
        last_element_before(t, kids, k - 1)
    }
}

/// The first element among `kids[k..]`.
pub open spec fn first_element_from(t: Seq<TreeNodeView>, kids: Seq<usize>, k: int) -> Option<usize>
    decreases kids.len() - k,
{
    if k < 0 || k >= kids.len() {
        None
    } else if is_element_at(t, kids[k]) {
        Some(kids[k])
    } else {
        first_element_from(t, kids, k + 1)
    }
}

/// Whether a child of this kind keeps its parent from being empty: an element, or
/// text that is not all whitespace.
pub open spec fn is_content(value: NodeView) -> bool {
    match value {
        NodeView::Element(_) => true,
        NodeView::Text(text) => has_non_whitespace(text),
        _ => false,
    }
}

/// Whether a name is that of an element that can be a hyperlink: `a`, `area` or `link`.
pub open spec fn is_anchor_like(local: Seq<char>) -> bool {
    local == "a"@ || local == "area"@ || local == "link"@
}

/// The model of an [`ElementRef`]: a tree and the position of one of its elements.
pub struct ElementRefView {
    pub tree: Seq<TreeNodeView>,
    pub id: usize,
}

impl ElementRefView {
    /// The tree is well formed and `id` is one of its elements.
    pub open spec fn wf(self) -> bool {
        tree_wf(self.tree) && is_element_at(self.tree, self.id)
    }

    /// The node that the reference points at.
    pub open spec fn node(self) -> TreeNodeView {
        self.tree[self.id as int]
    }

    /// The element data of that node.
    pub open spec fn element(self) -> ElementView {
        self.node().value->Element_0
    }

    /// The same tree, seen from node `id`.
    pub open spec fn at(self, id: usize) -> ElementRefView {
        ElementRefView { tree: self.tree, id }
    }

    /// The same tree, seen from node `id`, if there is one.
    pub open spec fn option_at(self, id: Option<usize>) -> Option<ElementRefView> {
        match id {
            Some(id) => Some(self.at(id)),
            None => None,
        }
    }

    /// The parent, if it is an element.
    pub open spec fn parent_element(self) -> Option<ElementRefView> {
        match self.node().parent {
            Some(p) => if is_element_at(self.tree, p) {
                Some(self.at(p))
            } else {
                None
            },
            None => None,
        }
    }

    /// The nearest earlier sibling that is an element.
    pub open spec fn prev_sibling_element(self) -> Option<ElementRefView> {
        match self.node().parent {
            Some(p) => self.option_at(
                last_element_before(self.tree, self.tree[p as int].children, self.node().index as int),
            ),
            None => None,
        }
    }

    /// The nearest later sibling that is an element.
    pub open spec fn next_sibling_element(self) -> Option<ElementRefView> {
        match self.node().parent {
            Some(p) => self.option_at(
                first_element_from(self.tree, self.tree[p as int].children, self.node().index + 1),
            ),
            None => None,
        }
    }

    /// The first child that is an element.
    pub open spec fn first_child_element(self) -> Option<ElementRefView> {
        self.option_at(first_element_from(self.tree, self.node().children, 0))
    }

    /// The last child that is an element.
    pub open spec fn last_child_element(self) -> Option<ElementRefView> {
        self.option_at(
            last_element_before(self.tree, self.node().children, self.node().children.len() as int),
        )
    }

    /// The element is in the HTML namespace.
    pub open spec fn is_html_element_in_html_document(self) -> bool {
        self.element().name.ns == html_namespace()
    }

    /// One of the element's classes equals `name` under `case_sensitivity`.
    pub open spec fn has_class(self, name: Seq<char>, case_sensitivity: CaseSensitivity) -> bool {
        exists|i: int|
            0 <= i < self.element().classes.len() && case_sensitivity.eq_str_spec(
                #[trigger] self.element().classes[i],
                name,
            )
    }

    /// The element has an id, and `id` equals it under `case_sensitivity`.
    pub open spec fn has_id(self, id: Seq<char>, case_sensitivity: CaseSensitivity) -> bool {
        match self.element().id {
            Some(value) => case_sensitivity.eq_str_spec(id, value),
            None => false,
        }
    }

    /// Attribute `i` of the element is in an admitted namespace, has the local name
    /// `local_name`, and its value satisfies `operation`.
    pub open spec fn attr_matches_at(
        self,
        i: int,
        ns: NamespaceConstraintView,
        local_name: Seq<char>,
        operation: AttrSelectorOperationView,
    ) -> bool {
        let attr = self.element().attrs[i];
        &&& ns.admits(attr.name.ns)
        &&& attr.name.local == local_name
        &&& operation.eval_spec(attr.value)
    }

    /// Some attribute of the element matches.
    pub open spec fn attr_matches(
        self,
        ns: NamespaceConstraintView,
        local_name: Seq<char>,
        operation: AttrSelectorOperationView,
    ) -> bool {
        exists|i: int|
            0 <= i < self.element().attrs.len() && #[trigger] self.attr_matches_at(
                i,
                ns,
                local_name,
                operation,
            )
    }

    /// The element has no parent, or its parent is the document.
    pub open spec fn is_root(self) -> bool {
        match self.node().parent {
            Some(p) => self.tree[p as int].value is Document,
            None => true,
        }
    }

    /// No child is an element or text with more than whitespace.
    pub open spec fn is_empty(self) -> bool {
        forall|k: int|
            0 <= k < self.node().children.len() ==> !is_content(
                self.tree[(#[trigger] self.node().children[k]) as int].value,
            )
    }

    /// The element is anchor-like and carries an `href` attribute in no namespace.
    pub open spec fn is_link(self) -> bool {
        &&& is_anchor_like(self.element().name.local)
        &&& self.attr_matches(
            NamespaceConstraintView::Specific(""@),
            "href"@,
            AttrSelectorOperationView::Exists,
        )
    }
}

/// Among the first `k` of `kids`, the last element, if any, stands at a place below `k`.
pub proof fn lemma_last_element_before(t: Seq<TreeNodeView>, kids: Seq<usize>, k: int)
    ensures
        last_element_before(t, kids, k) matches Some(c) ==> is_element_at(t, c) && exists|j: int|
            0 <= j < k && j < kids.len() && #[trigger] kids[j] == c,
    decreases k,
{
    if k <= 0 || k > kids.len() {
    } else if is_element_at(t, kids[k - 1]) {
        assert(kids[k - 1] == kids[k - 1]);
    } else {
        lemma_last_element_before(t, kids, k - 1);
    }
}

impl ElementRefView {
    /// The parent element of an element of a well-formed tree is an element of the
    /// same tree that stands before it in the arena.
    pub proof fn lemma_parent_element(self)
        requires
            self.wf(),
        ensures
            self.parent_element() matches Some(p) ==> p.wf() && p.tree == self.tree && p.id
                < self.id,
    {
        assert(crate::tree::node_wf(self.tree, self.id as int));
    }

    /// The nearest earlier sibling element of an element of a well-formed tree is an
    /// element of the same tree, under the same parent, at an earlier place.
    pub proof fn lemma_prev_sibling_element(self)
        requires
            self.wf(),
        ensures
            self.prev_sibling_element() matches Some(s) ==> {
                &&& s.wf()
                &&& s.tree == self.tree
                &&& s.node().parent == self.node().parent
                &&& s.node().index < self.node().index
            },
    {
        assert(crate::tree::node_wf(self.tree, self.id as int));
        if let Some(p) = self.node().parent {
            let kids = self.tree[p as int].children;
            lemma_last_element_before(self.tree, kids, self.node().index as int);
            if let Some(c) = last_element_before(self.tree, kids, self.node().index as int) {
                let j = choose|j: int|
                    0 <= j < self.node().index && j < kids.len() && #[trigger] kids[j] == c;
                assert(crate::tree::node_wf(self.tree, p as int));
                assert(crate::tree::child_wf(self.tree, p as int, j));
            }
        }
    }
}

/// A reference to an element of a tree.
#[derive(Clone, Copy)]
pub struct ElementRef<'a> {
    tree: &'a Html,
    id: usize,
}

impl<'a> View for ElementRef<'a> {
    type V = ElementRefView;

    closed spec fn view(&self) -> ElementRefView {
        ElementRefView { tree: self.tree@, id: self.id }
    }
}

/// The model of an optional reference.
pub open spec fn option_view<'a>(r: Option<ElementRef<'a>>) -> Option<ElementRefView> {
    match r {
        Some(e) => Some(e@),
        None => None,
    }
}

impl<'a> ElementRef<'a> {
    #[verifier::type_invariant]
    spec fn inv(self) -> bool {
        is_element_at(self.tree@, self.id)
    }

    /// The element at position `id` of `tree`, if that node is an element.
    pub fn wrap(tree: &'a Html, id: usize) -> (r: Option<ElementRef<'a>>)
        ensures
            r is Some <==> is_element_at(tree@, id),
            r matches Some(e) ==> e@ == (ElementRefView { tree: tree@, id }) && e@.wf(),
    {
        if id < tree.len() && tree.value(id).is_element() {
            Some(ElementRef { tree, id })
        } else {
            None
        }
    }

    /// The element's position in its tree, which identifies it there.
    pub fn opaque(&self) -> (r: usize)
        ensures
            r == self@.id,
            self@.wf(),
    {
        proof {
            use_type_invariant(self);
        }
        let _ = self.tree.len();
        self.id
    }

    /// The element's name, id, classes and attributes.
    pub fn value(&self) -> (r: &'a Element)
        ensures
            r@ == self@.element(),
    {
        proof {
            use_type_invariant(self);
        }
        match self.tree.value(self.id) {
            Node::Element(element) => element,
            _ => vstd::pervasive::unreached(),
        }
    }

    /// A reference into the same tree, where `id` is known to be an element.
    fn sibling(&self, id: usize) -> (r: ElementRef<'a>)
        requires
            is_element_at(self@.tree, id),
        ensures
            r@ == self@.at(id),
    {
        ElementRef { tree: self.tree, id }
    }

    /// The parent, if it is an element.
    pub fn parent_element(&self) -> (r: Option<ElementRef<'a>>)
        ensures
            option_view(r) == self@.parent_element(),
    {
        proof {
            use_type_invariant(self);
        }
        match self.tree.parent(self.id) {
            Some(p) => {
                assert(crate::tree::node_wf(self@.tree, self.id as int));
                if self.tree.value(p).is_element() {
                    Some(self.sibling(p))
                } else {
                    None
                }
            },
            None => None,
        }
    }

    /// The last element among the first `k` of `kids`.
    fn last_element_before(&self, kids: &Vec<usize>, k: usize) -> (r: Option<ElementRef<'a>>)
        requires
            k <= kids.len(),
            forall|j: int| 0 <= j < kids.len() ==> kids@[j] < self@.tree.len(),
        ensures
            option_view(r) == self@.option_at(last_element_before(self@.tree, kids@, k as int)),
    {
        let mut i = k;
        while i > 0
            invariant
                i <= k <= kids.len(),
                forall|j: int| 0 <= j < kids.len() ==> kids@[j] < self@.tree.len(),
                last_element_before(self@.tree, kids@, k as int) == last_element_before(
                    self@.tree,
                    kids@,
                    i as int,
                ),
            decreases i,
        {
            let c = kids[i - 1];
            if self.tree.value(c).is_element() {
                return Some(self.sibling(c));
            }
            i -= 1;
        }
        None
    }

    /// The first element among `kids[k..]`.
    fn first_element_from(&self, kids: &Vec<usize>, k: usize) -> (r: Option<ElementRef<'a>>)
        requires
            k <= kids.len(),
            forall|j: int| 0 <= j < kids.len() ==> kids@[j] < self@.tree.len(),
        ensures
            option_view(r) == self@.option_at(first_element_from(self@.tree, kids@, k as int)),
    {
        let mut i = k;
        while i < kids.len()
            invariant
                k <= i <= kids.len(),
                forall|j: int| 0 <= j < kids.len() ==> kids@[j] < self@.tree.len(),
                first_element_from(self@.tree, kids@, k as int) == first_element_from(
                    self@.tree,
                    kids@,
                    i as int,
                ),
            decreases kids.len() - i,
        {
            let c = kids[i];
            if self.tree.value(c).is_element() {
                return Some(self.sibling(c));
            }
            i += 1;
        }
        None
    }

    /// The first child that is an element.
    pub fn first_child_element(&self) -> (r: Option<ElementRef<'a>>)
        ensures
            option_view(r) == self@.first_child_element(),
    {
        proof {
            use_type_invariant(self);
        }
        let kids = self.tree.children(self.id);
        proof {
            self.lemma_children_in_range(self.id as int);
        }
        self.first_element_from(kids, 0)
    }

    /// The last child that is an element.
    pub fn last_child_element(&self) -> (r: Option<ElementRef<'a>>)
        ensures
            option_view(r) == self@.last_child_element(),
    {
        proof {
            use_type_invariant(self);
        }
        let kids = self.tree.children(self.id);
        proof {
            self.lemma_children_in_range(self.id as int);
        }
        self.last_element_before(kids, kids.len())
    }

    /// The nearest earlier sibling that is an element.
    pub fn prev_sibling_element(&self) -> (r: Option<ElementRef<'a>>)
        ensures
            option_view(r) == self@.prev_sibling_element(),
    {
        proof {
            use_type_invariant(self);
        }
        match self.tree.parent(self.id) {
            Some(p) => {
                assert(crate::tree::node_wf(self@.tree, self.id as int));
                let kids = self.tree.children(p);
                proof {
                    self.lemma_children_in_range(p as int);
                }
                self.last_element_before(kids, self.tree.index(self.id))
            },
            None => None,
        }
    }

    /// The nearest later sibling that is an element.
    pub fn next_sibling_element(&self) -> (r: Option<ElementRef<'a>>)
        ensures
            option_view(r) == self@.next_sibling_element(),
    {
        proof {
            use_type_invariant(self);
        }
        match self.tree.parent(self.id) {
            Some(p) => {
                assert(crate::tree::node_wf(self@.tree, self.id as int));
                let kids = self.tree.children(p);
                proof {
                    self.lemma_children_in_range(p as int);
                }
                let index = self.tree.index(self.id);
                assert(index < kids.len());
                self.first_element_from(kids, index + 1)
            },
            None => None,
        }
    }

    /// The children of a node of a well-formed tree are positions in its arena.
    proof fn lemma_children_in_range(&self, i: int)
        requires
            tree_wf(self@.tree),
            0 <= i < self@.tree.len(),
        ensures
            forall|j: int|
                0 <= j < self@.tree[i].children.len() ==> (#[trigger] self@.tree[i].children[j])
                    < self@.tree.len(),
    {
        assert(crate::tree::node_wf(self@.tree, i));
        assert forall|j: int| 0 <= j < self@.tree[i].children.len() implies (
        #[trigger] self@.tree[i].children[j]) < self@.tree.len() by {
            assert(crate::tree::child_wf(self@.tree, i, j));
        }
    }

    /// Whether the element is in the HTML namespace.
    pub fn is_html_element_in_html_document(&self) -> (r: bool)
        ensures
            r == self@.is_html_element_in_html_document(),
    {
        str_eq(self.value().name.ns.as_str(), "http://www.w3.org/1999/xhtml")
    }

    /// The local name of the element.
    pub fn get_local_name(&self) -> (r: &'a String)
        ensures
            r@ == self@.element().name.local,
    {
        &self.value().name.local
    }

    /// The namespace of the element.
    pub fn get_namespace(&self) -> (r: &'a String)
        ensures
            r@ == self@.element().name.ns,
    {
        &self.value().name.ns
    }

    /// Whether the element is in the state that a pseudo-class names. That depends
    /// on nothing in the tree: it is what `context` says of the element.
    pub fn match_non_ts_pseudo_class(
        &self,
        pc: &NonTSPseudoClass,
        context: &MatchingContext,
    ) -> (r: bool)
        ensures
            r == context@.contains((self@.id, *pc)),
    {
        context.holds(self.id, pc)
    }

    /// No pseudo-element ever matches.
    pub fn match_pseudo_element(&self, pe: &PseudoElement) -> (r: bool)
        ensures
            !r,
    {
        false
    }

    /// Whether one of the element's classes equals `name` under `case_sensitivity`.
    pub fn has_class(&self, name: &str, case_sensitivity: CaseSensitivity) -> (r: bool)
        ensures
            r == self@.has_class(name@, case_sensitivity),
    {
        let element = self.value();
        let mut i: usize = 0;
        while i < element.classes.len()
            invariant
                i <= element.classes.len(),
                element@ == self@.element(),
                forall|k: int|
                    0 <= k < i ==> !case_sensitivity.eq_str_spec(
                        #[trigger] self@.element().classes[k],
                        name@,
                    ),
            decreases element.classes.len() - i,
        {
            if case_sensitivity.eq_str(element.classes[i].as_str(), name) {
                assert(element@.classes[i as int] == element.classes@[i as int]@);
                return true;
            }
            assert(element@.classes[i as int] == element.classes@[i as int]@);
            i += 1;
        }
        false
    }

    /// Whether the element has an id that equals `id` under `case_sensitivity`.
    pub fn has_id(&self, id: &str, case_sensitivity: CaseSensitivity) -> (r: bool)
        ensures
            r == self@.has_id(id@, case_sensitivity),
    {
        match &self.value().id {
            Some(value) => case_sensitivity.eq_str(id, value.as_str()),
            None => false,
        }
    }

    /// Whether some attribute of the element is in an admitted namespace, has the
    /// local name `local_name`, and a value that satisfies `operation`.
    pub fn attr_matches(
        &self,
        ns: &NamespaceConstraint,
        local_name: &str,
        operation: &AttrSelectorOperation,
    ) -> (r: bool)
        ensures
            r == self@.attr_matches(ns@, local_name@, operation@),
    {
        let element = self.value();
        let mut i: usize = 0;
        while i < element.attrs.len()
            invariant
                i <= element.attrs.len(),
                element@ == self@.element(),
                forall|k: int|
                    0 <= k < i ==> !#[trigger] self@.attr_matches_at(
                        k,
                        ns@,
                        local_name@,
                        operation@,
                    ),
            decreases element.attrs.len() - i,
        {
            let attr = &element.attrs[i];
            assert(element@.attrs[i as int] == attr@);
            if ns.admits(&attr.name.ns) && str_eq(attr.name.local.as_str(), local_name)
                && operation.eval_str(attr.value.as_str()) {
                assert(self@.attr_matches_at(i as int, ns@, local_name@, operation@));
                return true;
            }
            i += 1;
        }
        false
    }

    /// Whether the element has no parent, or the document for its parent.
    pub fn is_root(&self) -> (r: bool)
        ensures
            r == self@.is_root(),
    {
        proof {
            use_type_invariant(self);
        }
        match self.tree.parent(self.id) {
            Some(p) => {
                assert(crate::tree::node_wf(self@.tree, self.id as int));
                self.tree.value(p).is_document()
            },
            None => true,
        }
    }

    /// Whether no child of the element is an element or text with more than
    /// whitespace.
    pub fn is_empty(&self) -> (r: bool)
        ensures
            r == self@.is_empty(),
    {
        proof {
            use_type_invariant(self);
        }
        let kids = self.tree.children(self.id);
        proof {
            self.lemma_children_in_range(self.id as int);
        }
        let mut i: usize = 0;
        while i < kids.len()
            invariant
                i <= kids.len(),
                kids@ == self@.node().children,
                forall|j: int| 0 <= j < kids.len() ==> (#[trigger] kids@[j]) < self@.tree.len(),
                forall|k: int|
                    0 <= k < i ==> !is_content(
                        self@.tree[(#[trigger] self@.node().children[k]) as int].value,
                    ),
            decreases kids.len() - i,
        {
            let content = match self.tree.value(kids[i]) {
                Node::Element(_) => true,
                Node::Text(text) => contains_non_whitespace(text.as_str()),
                _ => false,
            };
            if content {
                return false;
            }
            i += 1;
        }
        true
    }

    /// Whether the element is anchor-like and carries an `href` attribute in no
    /// namespace.
    pub fn is_link(&self) -> (r: bool)
        ensures
            r == self@.is_link(),
    {
        let local = self.get_local_name().as_str();
        if str_eq(local, "a") || str_eq(local, "area") || str_eq(local, "link") {
            let none = NamespaceConstraint::Specific(String::new());
            assert(none@ == NamespaceConstraintView::Specific(""@)) by {
                reveal_strlit("");
                assert(none@->Specific_0 =~= ""@);
            }
            self.attr_matches(&none, "href", &AttrSelectorOperation::Exists)
        } else {
            false
        }
    }
}

} // verus!
