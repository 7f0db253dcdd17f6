//! The node tree that selectors are matched against.
//!
//! A tree is an arena of nodes. Every node but the first has a parent that was
//! added before it, and the children of a node are kept in the order in which
//! they were added. The tree is read-only once built.

use crate::text::{chars_of, is_whitespace, is_whitespace_char, push_char, str_eq};
use vstd::prelude::*;

verus! {

/// A namespace together with a local name.
#[derive(Clone, Debug, PartialEq, Eq)]
pub struct QualName {
    /// The namespace; the empty string stands for none.
    pub ns: String,
    pub local: String,
}

/// The mathematical model of a [`QualName`].
pub struct QualNameView {
    pub ns: Seq<char>,
    pub local: Seq<char>,
}

impl View for QualName {
    type V = QualNameView;

    open spec fn view(&self) -> QualNameView {
        QualNameView { ns: self.ns@, local: self.local@ }
    }
}

impl QualName {
    /// The name `local` in the namespace `ns`.
    pub fn new(ns: &str, local: &str) -> (r: QualName)
        ensures
            r@ == (QualNameView { ns: ns@, local: local@ }),
    {
        QualName { ns: ns.to_owned(), local: local.to_owned() }
    }

    /// The name `local` in the HTML namespace.
    pub fn html(local: &str) -> (r: QualName)
        ensures
            r@ == (QualNameView { ns: "http://www.w3.org/1999/xhtml"@, local: local@ }),
    {
        QualName::new("http://www.w3.org/1999/xhtml", local)
    }
}

/// One attribute of an element.
#[derive(Clone, Debug, PartialEq, Eq)]
pub struct Attribute {
    pub name: QualName,
    pub value: String,
}

/// The mathematical model of an [`Attribute`].
pub struct AttributeView {
    pub name: QualNameView,
    pub value: Seq<char>,
}

impl View for Attribute {
    type V = AttributeView;

    open spec fn view(&self) -> AttributeView {
        AttributeView { name: self.name@, value: self.value@ }
    }
}

impl Attribute {
    /// The attribute `local` in no namespace, with the value `value`.
    pub fn new(local: &str, value: &str) -> (r: Attribute)
        ensures
            r@ == (AttributeView {
                name: QualNameView { ns: Seq::empty(), local: local@ },
                value: value@,
            }),
    {
        Attribute {
            name: QualName { ns: String::new(), local: local.to_owned() },
            value: value.to_owned(),
        }
    }
}

/// What a selector can read of an element: its name, id, classes and attributes.
#[derive(Clone, Debug, PartialEq, Eq)]
pub struct Element {
    pub name: QualName,
    pub id: Option<String>,
    pub classes: Vec<String>,
    pub attrs: Vec<Attribute>,
}

/// The mathematical model of an [`Element`].
pub struct ElementView {
    pub name: QualNameView,
    pub id: Option<Seq<char>>,
    pub classes: Seq<Seq<char>>,
    pub attrs: Seq<AttributeView>,
}

impl View for Element {
    type V = ElementView;

    open spec fn view(&self) -> ElementView {
        ElementView {
            name: self.name@,
            id: match self.id {
                Some(id) => Some(id@),
                None => None,
            },
            classes: Seq::new(self.classes@.len(), |i: int| self.classes@[i]@),
            attrs: Seq::new(self.attrs@.len(), |i: int| self.attrs@[i]@),
        }
    }
}

/// The models of a list of attributes.
pub open spec fn attributes_view(attrs: Seq<Attribute>) -> Seq<AttributeView> {
    Seq::new(attrs.len(), |i: int| attrs[i]@)
}

/// The value of the first attribute at or after `from` whose local name is `local`.
pub open spec fn first_value_named(attrs: Seq<AttributeView>, local: Seq<char>, from: int) -> Option<
    Seq<char>,
>
    decreases attrs.len() - from,
{
    if from < 0 || from >= attrs.len() {
        None
    } else if attrs[from].name.local == local {
        Some(attrs[from].value)
    } else {
        first_value_named(attrs, local, from + 1)
    }
}

/// The words of `s` from `p` on, where `word` holds the characters of the word
/// that is being read: words are the runs of characters between whitespace.
pub open spec fn words_from(s: Seq<char>, p: int, word: Seq<char>) -> Seq<Seq<char>>
    decreases s.len() - p,
{
    let done = if word.len() > 0 {
        seq![word]
    } else {
        Seq::empty()
    };
    if p < 0 || p >= s.len() {
        done
    } else if is_whitespace(s[p]) {
        done + words_from(s, p + 1, Seq::empty())
    } else {
        words_from(s, p + 1, word.push(s[p]))
    }
}

/// The words of a string.
pub open spec fn words(s: Seq<char>) -> Seq<Seq<char>> {
    words_from(s, 0, Seq::empty())
}

/// The id that a list of attributes gives an element: the value of the first
/// attribute named `id`.
pub open spec fn id_of(attrs: Seq<AttributeView>) -> Option<Seq<char>> {
    first_value_named(attrs, "id"@, 0)
}

/// The classes that a list of attributes gives an element: the words of the
/// first attribute named `class`.
pub open spec fn classes_of(attrs: Seq<AttributeView>) -> Seq<Seq<char>> {
    match first_value_named(attrs, "class"@, 0) {
        Some(value) => words(value),
        None => Seq::empty(),
    }
}

/// The value of the first attribute whose local name is `local`.
fn find_value<'a>(attrs: &'a Vec<Attribute>, local: &str) -> (r: Option<&'a String>)
    ensures
        match r {
            Some(value) => first_value_named(attributes_view(attrs@), local@, 0) == Some(value@),
            None => first_value_named(attributes_view(attrs@), local@, 0) is None,
        },
{
    let mut i: usize = 0;
    while i < attrs.len()
        invariant
            i <= attrs.len(),
            first_value_named(attributes_view(attrs@), local@, 0) == first_value_named(
                attributes_view(attrs@),
                local@,
                i as int,
            ),
        decreases attrs.len() - i,
    {
        assert(attributes_view(attrs@)[i as int] == attrs@[i as int]@);
        if str_eq(attrs[i].name.local.as_str(), local) {
            return Some(&attrs[i].value);
        }
        i += 1;
    }
    None
}

/// The words of a string: the runs of characters between whitespace.
pub fn split_words(value: &str) -> (r: Vec<String>)
    ensures
        Seq::new(r@.len(), |i: int| r@[i]@) == words(value@),
{
    let chars = chars_of(value);
    let mut found: Vec<String> = Vec::new();
    let mut word = String::new();
    let mut p: usize = 0;
    assert(Seq::new(found@.len(), |i: int| found@[i]@) =~= Seq::<Seq<char>>::empty());
    while p < chars.len()
        invariant
            p <= chars.len(),
            chars@ == value@,
            words(value@) == Seq::new(found@.len(), |i: int| found@[i]@) + words_from(
                chars@,
                p as int,
                word@,
            ),
        decreases chars.len() - p,
    {
        let ghost before = Seq::new(found@.len(), |i: int| found@[i]@);
        let c = chars[p];
        if is_whitespace_char(c) {
            if word.as_str().unicode_len() > 0 {
                let ghost w = word@;
                found.push(word);
                word = String::new();
                assert(Seq::new(found@.len(), |i: int| found@[i]@) =~= before + seq![w]);
                assert(before + (seq![w] + words_from(chars@, p + 1, Seq::empty())) =~= (before
                    + seq![w]) + words_from(chars@, p + 1, Seq::empty()));
            } else {
                assert(word@ =~= Seq::<char>::empty());
                assert(Seq::<Seq<char>>::empty() + words_from(chars@, p + 1, Seq::empty())
                    =~= words_from(chars@, p + 1, Seq::empty()));
            }
        } else {
            push_char(&mut word, c);
        }
        p += 1;
    }
    let ghost before = Seq::new(found@.len(), |i: int| found@[i]@);
    if word.as_str().unicode_len() > 0 {
        let ghost w = word@;
        found.push(word);
        assert(Seq::new(found@.len(), |i: int| found@[i]@) =~= before + seq![w]);
    } else {
        assert(before + Seq::<Seq<char>>::empty() =~= before);
    }
    found
}

impl Element {
    /// An element with the given name and attributes. Its id and its classes are
    /// taken from the attributes named `id` and `class`.
    pub fn new(name: QualName, attrs: Vec<Attribute>) -> (r: Element)
        ensures
            r@.name == name@,
            r@.attrs == attributes_view(attrs@),
            r@.id == id_of(attributes_view(attrs@)),
            r@.classes == classes_of(attributes_view(attrs@)),
    {
        let id = match find_value(&attrs, "id") {
            Some(value) => Some(value.clone()),
            None => None,
        };
        let classes = match find_value(&attrs, "class") {
            Some(value) => split_words(value.as_str()),
            None => Vec::new(),
        };
        let r = Element { name, id, classes, attrs };
        assert(r@.classes =~= classes_of(attributes_view(attrs@)));
        assert(r@.attrs =~= attributes_view(attrs@));
        r
    }
}

/// The kinds of node in a tree.
#[derive(Clone, Debug, PartialEq, Eq)]
pub enum Node {
    Document,
    Fragment,
    Doctype,
    Comment(String),
    Text(String),
    Element(Element),
    ProcessingInstruction,
}

/// The mathematical model of a [`Node`].
pub enum NodeView {
    Document,
    Fragment,
    Doctype,
    Comment(Seq<char>),
    Text(Seq<char>),
    Element(ElementView),
    ProcessingInstruction,
}

impl View for Node {
    type V = NodeView;

    open spec fn view(&self) -> NodeView {
        match self {
            Node::Document => NodeView::Document,
            Node::Fragment => NodeView::Fragment,
            Node::Doctype => NodeView::Doctype,
            Node::Comment(text) => NodeView::Comment(text@),
            Node::Text(text) => NodeView::Text(text@),
            Node::Element(element) => NodeView::Element(element@),
            Node::ProcessingInstruction => NodeView::ProcessingInstruction,
        }
    }
}

impl Node {
    /// Whether the node is an element.
    pub fn is_element(&self) -> (r: bool)
        ensures
            r == (self@ is Element),
    {
        match self {
            Node::Element(_) => true,
            _ => false,
        }
    }

    /// Whether the node is text.
    pub fn is_text(&self) -> (r: bool)
        ensures
            r == (self@ is Text),
    {
        match self {
            Node::Text(_) => true,
            _ => false,
        }
    }

    /// Whether the node is the document.
    pub fn is_document(&self) -> (r: bool)
        ensures
            r == (self@ is Document),
    {
        match self {
            Node::Document => true,
            _ => false,
        }
    }
}

/// One node of a tree as the model sees it: its links and its value.
pub struct TreeNodeView {
    /// The parent's position in the arena; `None` for the root only.
    pub parent: Option<usize>,
    /// The node's place among its parent's children; 0 for the root.
    pub index: usize,
    /// The children's positions in the arena, in document order.
    pub children: Seq<usize>,
    pub value: NodeView,
}

/// The `k`-th child of node `i` is a later node that names `i` as its parent and `k`
/// as its place.
pub open spec fn child_wf(t: Seq<TreeNodeView>, i: int, k: int) -> bool {
    let c = t[i].children[k];
    &&& i < c < t.len()
    &&& t[c as int].parent == Some(i as usize)
    &&& t[c as int].index == k
}

/// Node `i` is linked consistently with its parent and its children.
pub open spec fn node_wf(t: Seq<TreeNodeView>, i: int) -> bool {
    &&& (i == 0 <==> t[i].parent is None)
    &&& (t[i].parent matches Some(p) ==> {
        &&& p < i
        &&& t[i].index < t[p as int].children.len()
        &&& t[p as int].children[t[i].index as int] == i
    })
    &&& forall|k: int| 0 <= k < t[i].children.len() ==> #[trigger] child_wf(t, i, k)
}

/// The arena is a tree: it has a root, and every node is linked consistently.
pub open spec fn tree_wf(t: Seq<TreeNodeView>) -> bool {
    &&& t.len() > 0
    &&& forall|i: int| 0 <= i < t.len() ==> #[trigger] node_wf(t, i)
}

/// A description of a tree is valid when its first entry has no parent and every
/// other entry names an earlier entry as its parent.
pub open spec fn valid_entries(e: Seq<(Option<usize>, NodeView)>) -> bool {
    &&& e.len() > 0
    &&& e[0].0 is None
    &&& forall|i: int| 0 < i < e.len() ==> ((#[trigger] e[i]).0 matches Some(p) && p < i)
}

/// The entries among the first `n` that name `p` as their parent, in order.
pub open spec fn children_among(e: Seq<(Option<usize>, NodeView)>, p: int, n: int) -> Seq<usize>
    decreases n,
{
    if n <= 0 {
        Seq::empty()
    } else {
        let rest = children_among(e, p, n - 1);
        if e[n - 1].0 == Some(p as usize) {
            rest.push((n - 1) as usize)
        } else {
            rest
        }
    }
}

/// The tree of the first `n` entries of a description.
pub open spec fn build_tree(e: Seq<(Option<usize>, NodeView)>, n: int) -> Seq<TreeNodeView> {
    Seq::new(
        n as nat,
        |i: int|
            TreeNodeView {
                parent: e[i].0,
                index: match e[i].0 {
                    Some(p) => children_among(e, p as int, i).len() as usize,
                    None => 0,
                },
                children: children_among(e, i, n),
                value: e[i].1,
            },
    )
}

/// The model of a list of entries.
pub open spec fn entries_view(v: Seq<(Option<usize>, Node)>) -> Seq<(Option<usize>, NodeView)> {
    Seq::new(v.len(), |i: int| (v[i].0, v[i].1@))
}

/// Every child listed for `p` among the first `n` entries is an entry below `n`
/// that names `p`, and the list is in increasing order.
proof fn lemma_children_among(e: Seq<(Option<usize>, NodeView)>, p: int, n: int)
    requires
        0 <= p < usize::MAX,
        0 <= n <= e.len() <= usize::MAX,
    ensures
        children_among(e, p, n).len() <= n,
        forall|k: int|
            0 <= k < children_among(e, p, n).len() ==> {
                let c = #[trigger] children_among(e, p, n)[k];
                &&& c < n
                &&& e[c as int].0 == Some(p as usize)
                &&& children_among(e, p, c as int).len() == k
            },
        forall|c: int|
            0 <= c < n && e[c].0 == Some(p as usize) ==> {
                let k = #[trigger] children_among(e, p, c).len();
                &&& k < children_among(e, p, n).len()
                &&& children_among(e, p, n)[k as int] == c
            },
    decreases n,
{
    if n > 0 {
        lemma_children_among(e, p, n - 1);
        let rest = children_among(e, p, n - 1);
        if e[n - 1].0 == Some(p as usize) {
            assert forall|k: int| 0 <= k < children_among(e, p, n).len() implies {
                let c = #[trigger] children_among(e, p, n)[k];
                &&& c < n
                &&& e[c as int].0 == Some(p as usize)
                &&& children_among(e, p, c as int).len() == k
            } by {
                if k < rest.len() {
                    assert(children_among(e, p, n)[k] == rest[k]);
                }
            }
        }
    }
}

/// No entry among the first `n` names a parent at or beyond `n - 1`.
proof fn lemma_no_children_yet(e: Seq<(Option<usize>, NodeView)>, p: int, n: int)
    requires
        valid_entries(e),
        0 <= n <= e.len(),
        n <= p + 1,
        p <= usize::MAX,
    ensures
        children_among(e, p, n) == Seq::<usize>::empty(),
    decreases n,
{
    if n > 0 {
        lemma_no_children_yet(e, p, n - 1);
        if n - 1 > 0 {
            assert(e[n - 1].0 matches Some(q) && q < n - 1);
        }
        assert(e[n - 1].0 != Some(p as usize));
    }
}

/// A valid description builds a well-formed tree.
pub proof fn lemma_build_tree_wf(e: Seq<(Option<usize>, NodeView)>)
    requires
        valid_entries(e),
        e.len() <= usize::MAX,
    ensures
        tree_wf(build_tree(e, e.len() as int)),
{
    let n = e.len() as int;
    let t = build_tree(e, n);
    assert forall|i: int| 0 <= i < t.len() implies #[trigger] node_wf(t, i) by {
        lemma_children_among(e, i, n);
        if let Some(p) = e[i].0 {
            lemma_children_among(e, p as int, n);
        }
        assert forall|k: int| 0 <= k < t[i].children.len() implies #[trigger] child_wf(t, i, k) by {
            let c = children_among(e, i, n)[k];
            assert(e[c as int].0 == Some(i as usize));
        }
    }
}

/// A node of the arena.
struct TreeNode {
    parent: Option<usize>,
    index: usize,
    children: Vec<usize>,
    value: Node,
}

impl View for TreeNode {
    type V = TreeNodeView;

    closed spec fn view(&self) -> TreeNodeView {
        TreeNodeView {
            parent: self.parent,
            index: self.index,
            children: self.children@,
            value: self.value@,
        }
    }
}

/// A tree of nodes. Its model is the arena as a sequence, the root first.
pub struct Html {
    nodes: Vec<TreeNode>,
}

impl View for Html {
    type V = Seq<TreeNodeView>;

    closed spec fn view(&self) -> Seq<TreeNodeView> {
        Seq::new(self.nodes@.len(), |i: int| self.nodes@[i]@)
    }
}

impl Html {
    #[verifier::type_invariant]
    spec fn inv(self) -> bool {
        tree_wf(self@)
    }

    /// Builds a tree from a description: each entry gives a node's parent, as the
    /// position of an earlier entry, and the node's value. The first entry is the
    /// root and has no parent. Returns `None` exactly when the description is not
    /// valid.
    pub fn from_nodes(entries: Vec<(Option<usize>, Node)>) -> (r: Option<Html>)
        ensures
            r is Some <==> valid_entries(entries_view(entries@)),
            r matches Some(tree) ==> {
                &&& tree@ == build_tree(entries_view(entries@), entries@.len() as int)
                &&& tree_wf(tree@)
            },
    {
        let ghost e = entries_view(entries@);
        let mut nodes: Vec<TreeNode> = Vec::new();
        for entry in it: entries
            invariant
                e == entries_view(entries@),
                it.seq() == entries@,
                nodes@.len() == it.index(),
                it.index() > 0 ==> valid_entries(e.take(it.index() as int)),
                Seq::new(nodes@.len(), |i: int| nodes@[i]@) == build_tree(e, it.index() as int),
        {
            let ghost i = nodes@.len() as int;
            let ghost before = Seq::new(nodes@.len(), |j: int| nodes@[j]@);
            let (parent, value) = entry;
            assert(e[i] == (parent, value@));
            let ghost old_nodes = nodes@;
            let id = nodes.len();
            match parent {
                None => {
                    if id != 0 {
                        assert(!valid_entries(e));
                        return None;
                    }
                    nodes.push(TreeNode { parent: None, index: 0, children: Vec::new(), value });
                },
                Some(p) => {
                    if p >= id {
                        assert(!valid_entries(e));
                        return None;
                    }
                    let index = nodes[p].children.len();
                    nodes[p].children.push(id);
                    nodes.push(TreeNode { parent, index, children: Vec::new(), value });
                },
            }
            proof {
                assert(valid_entries(e.take(i + 1))) by {
                    assert forall|j: int| 0 < j < i + 1 implies ((#[trigger] e.take(
                        i + 1,
                    )[j]).0 matches Some(q) && q < j) by {
                        if j < i {
                            assert(e.take(i)[j] == e[j]);
                        }
                    }
                    if i > 0 {
                        assert(e.take(i)[0] == e[0]);
                    }
                }
                let after = Seq::new(nodes@.len(), |j: int| nodes@[j]@);
                let target = build_tree(e, i + 1);
                lemma_no_children_yet(e.take(i + 1), i, i + 1);
                lemma_children_take(e, i + 1, i, i + 1);
                assert forall|j: int| 0 <= j < i + 1 implies after[j] == target[j] by {
                    if j < i {
                        assert(before[j] == build_tree(e, i)[j]);
                        assert(before[j] == old_nodes[j]@);
                        assert(children_among(e, j, i + 1) == if e[i].0 == Some(j as usize) {
                            children_among(e, j, i).push(i as usize)
                        } else {
                            children_among(e, j, i)
                        });
                    } else if let Some(p) = parent {
                        assert(before[p as int] == build_tree(e, i)[p as int]);
                        assert(before[p as int] == old_nodes[p as int]@);
                    }
                }
                assert(after =~= target);
            }
        }
        if nodes.len() == 0 {
            return None;
        }
        proof {
            assert(e.take(e.len() as int) =~= e);
            lemma_build_tree_wf(e);
        }
        let tree = Html { nodes };
        Some(tree)
    }

    /// The number of nodes.
    pub fn len(&self) -> (n: usize)
        ensures
            n == self@.len(),
            tree_wf(self@),
    {
        proof {
            use_type_invariant(self);
        }
        self.nodes.len()
    }

    /// The value of node `id`, if there is such a node.
    pub fn get(&self, id: usize) -> (r: Option<&Node>)
        ensures
            r is Some <==> id < self@.len(),
            r matches Some(node) ==> node@ == self@[id as int].value,
    {
        if id < self.nodes.len() {
            Some(&self.nodes[id].value)
        } else {
            None
        }
    }

    /// The value of node `id`.
    pub(crate) fn value(&self, id: usize) -> (r: &Node)
        requires
            id < self@.len(),
        ensures
            r@ == self@[id as int].value,
    {
        &self.nodes[id].value
    }

    /// The parent of node `id`.
    pub(crate) fn parent(&self, id: usize) -> (r: Option<usize>)
        requires
            id < self@.len(),
        ensures
            r == self@[id as int].parent,
            tree_wf(self@),
    {
        proof {
            use_type_invariant(self);
        }
        self.nodes[id].parent
    }

    /// The place of node `id` among its parent's children.
    pub(crate) fn index(&self, id: usize) -> (r: usize)
        requires
            id < self@.len(),
        ensures
            r == self@[id as int].index,
    {
        self.nodes[id].index
    }

    /// The children of node `id`.
    pub(crate) fn children(&self, id: usize) -> (r: &Vec<usize>)
        requires
            id < self@.len(),
        ensures
            r@ == self@[id as int].children,
            tree_wf(self@),
    {
        proof {
            use_type_invariant(self);
        }
        &self.nodes[id].children
    }
}

/// Children counted over a prefix of the description are those counted over the whole.
proof fn lemma_children_take(e: Seq<(Option<usize>, NodeView)>, m: int, p: int, n: int)
    requires
        0 <= n <= m <= e.len(),
    ensures
        children_among(e.take(m), p, n) == children_among(e, p, n),
    decreases n,
{
    if n > 0 {
        lemma_children_take(e, m, p, n - 1);
    }
}

} // verus!
