//! What matching depends on.
//!
//! Whether a selector matches an element is decided by the nodes on the way from
//! the element to the root: the element, its ancestors, and the earlier siblings
//! of each of them. Of the children of those nodes, matching reads only whether
//! they are content. No other node has any influence on the result.

use crate::attr::{lemma_case_sensitive_eq, CaseSensitivity};
use crate::element_ref::{is_content, is_element_at, last_element_before, ElementRefView};
use crate::matching::{
    matches_compound_selector_spec, matches_simple_selector_spec, nth_ancestor, nth_prev_sibling,
};
use crate::selector::{
    list_matches, ComplexSelectorView, NonTSPseudoClass, SimpleSelectorView,
};
use crate::tree::{child_wf, node_wf, tree_wf, NodeView, TreeNodeView};
use vstd::prelude::*;

verus! {

/// Node `m` is a sibling of node `n` that comes before it.
pub open spec fn is_earlier_sibling(t: Seq<TreeNodeView>, m: int, n: int) -> bool {
    &&& 0 <= m < t.len()
    &&& t[n].parent is Some
    &&& t[m].parent == t[n].parent
    &&& t[m].index < t[n].index
}

/// Node `m` lies on the way from node `n` to the root: it is `n`, an earlier
/// sibling of `n`, or it lies on the way from the parent of `n`.
pub open spec fn on_path(t: Seq<TreeNodeView>, n: int, m: int) -> bool
    decreases n,
{
    m == n || match t[n].parent {
        Some(p) => 0 <= p < n && (is_earlier_sibling(t, m, n) || on_path(t, p as int, m)),
        None => false,
    }
}

/// Two trees hold the same nodes on the way from `n` to the root, and the children
/// of those nodes are content in the one tree exactly when they are in the other.
pub open spec fn same_on_path(t1: Seq<TreeNodeView>, t2: Seq<TreeNodeView>, n: int) -> bool {
    forall|m: int|
        0 <= m < t1.len() && #[trigger] on_path(t1, n, m) ==> {
            &&& m < t2.len()
            &&& t1[m] == t2[m]
            &&& forall|j: int|
                0 <= j < t1[m].children.len() ==> is_content(
                    t1[(#[trigger] t1[m].children[j]) as int].value,
                ) == is_content(t2[t1[m].children[j] as int].value)
        }
}

/// The parent and the earlier siblings of a node on the way lie on the way too.
pub proof fn lemma_on_path_step(t: Seq<TreeNodeView>, n: int, m: int)
    requires
        tree_wf(t),
        0 <= n < t.len(),
        0 <= m < t.len(),
        on_path(t, n, m),
    ensures
        t[m].parent matches Some(p) ==> on_path(t, n, p as int),
        forall|s: int| is_earlier_sibling(t, s, m) ==> on_path(t, n, s),
    decreases n,
{
    assert(node_wf(t, n));
    assert(node_wf(t, m));
    if m == n {
        if let Some(p) = t[n].parent {
            assert(on_path(t, p as int, p as int));
        }
    } else if let Some(p) = t[n].parent {
        if is_earlier_sibling(t, m, n) {
            assert(on_path(t, p as int, p as int));
        } else {
            lemma_on_path_step(t, p as int, m);
        }
    }
}

/// The last element among the first `k` children is the same in two trees that
/// agree on whether each of those children is an element.
proof fn lemma_same_last_element_before(
    t1: Seq<TreeNodeView>,
    t2: Seq<TreeNodeView>,
    kids: Seq<usize>,
    k: int,
)
    requires
        0 <= k <= kids.len(),
        forall|j: int| 0 <= j < k ==> is_element_at(t1, #[trigger] kids[j]) == is_element_at(t2, kids[j]),
    ensures
        last_element_before(t1, kids, k) == last_element_before(t2, kids, k),
    decreases k,
{
    if k > 0 {
        assert(is_element_at(t1, kids[k - 1]) == is_element_at(t2, kids[k - 1]));
        if !is_element_at(t1, kids[k - 1]) {
            lemma_same_last_element_before(t1, t2, kids, k - 1);
        }
    }
}

/// On a node of the way, the two trees give the same parent element.
proof fn lemma_same_parent_element(t1: Seq<TreeNodeView>, t2: Seq<TreeNodeView>, n: int, m: usize)
    requires
        tree_wf(t1),
        tree_wf(t2),
        0 <= n < t1.len(),
        same_on_path(t1, t2, n),
        on_path(t1, n, m as int),
        is_element_at(t1, m),
    ensures
        is_element_at(t2, m),
        (ElementRefView { tree: t1, id: m }).parent_element() is Some <==> (ElementRefView {
            tree: t2,
            id: m,
        }).parent_element() is Some,
        (ElementRefView { tree: t1, id: m }).parent_element() matches Some(p) ==> {
            &&& (ElementRefView { tree: t2, id: m }).parent_element() == Some(
                ElementRefView { tree: t2, id: p.id },
            )
            &&& p == (ElementRefView { tree: t1, id: p.id })
            &&& on_path(t1, n, p.id as int)
            &&& is_element_at(t1, p.id)
        },
{
    lemma_on_path_step(t1, n, m as int);
    assert(node_wf(t1, m as int));
}

/// On a node of the way, the two trees give the same nearest earlier sibling element.
proof fn lemma_same_prev_sibling_element(
    t1: Seq<TreeNodeView>,
    t2: Seq<TreeNodeView>,
    n: int,
    m: usize,
)
    requires
        tree_wf(t1),
        tree_wf(t2),
        0 <= n < t1.len(),
        same_on_path(t1, t2, n),
        on_path(t1, n, m as int),
        is_element_at(t1, m),
    ensures
        (ElementRefView { tree: t1, id: m }).prev_sibling_element() is Some <==> (ElementRefView {
            tree: t2,
            id: m,
        }).prev_sibling_element() is Some,
        (ElementRefView { tree: t1, id: m }).prev_sibling_element() matches Some(p) ==> {
            &&& (ElementRefView { tree: t2, id: m }).prev_sibling_element() == Some(
                ElementRefView { tree: t2, id: p.id },
            )
            &&& p == (ElementRefView { tree: t1, id: p.id })
            &&& on_path(t1, n, p.id as int)
            &&& is_element_at(t1, p.id)
        },
{
    lemma_on_path_step(t1, n, m as int);
    assert(node_wf(t1, m as int));
    if let Some(p) = t1[m as int].parent {
        let kids = t1[p as int].children;
        let k = t1[m as int].index as int;
        assert(node_wf(t1, p as int));
        assert(on_path(t1, n, p as int));
        assert(t1[p as int] == t2[p as int]);
        assert forall|j: int| 0 <= j < k implies is_element_at(t1, #[trigger] kids[j])
            == is_element_at(t2, kids[j]) by {
            assert(child_wf(t1, p as int, j));
            assert(is_earlier_sibling(t1, kids[j] as int, m as int));
            assert(on_path(t1, n, kids[j] as int));
        }
        lemma_same_last_element_before(t1, t2, kids, k);
        (ElementRefView { tree: t1, id: m }).lemma_prev_sibling_element();
        if let Some(c) = last_element_before(t1, kids, k) {
            assert(is_earlier_sibling(t1, c as int, m as int));
        }
    }
}

/// On a node of the way, a simple selector holds in the one tree exactly when it
/// holds in the other.
proof fn lemma_same_simple(
    s: SimpleSelectorView,
    t1: Seq<TreeNodeView>,
    t2: Seq<TreeNodeView>,
    n: int,
    m: usize,
    state: Set<(usize, NonTSPseudoClass)>,
)
    requires
        tree_wf(t1),
        tree_wf(t2),
        0 <= n < t1.len(),
        same_on_path(t1, t2, n),
        on_path(t1, n, m as int),
        is_element_at(t1, m),
    ensures
        matches_simple_selector_spec(s, ElementRefView { tree: t1, id: m }, state)
            == matches_simple_selector_spec(s, ElementRefView { tree: t2, id: m }, state),
{
    let e1 = ElementRefView { tree: t1, id: m };
    let e2 = ElementRefView { tree: t2, id: m };
    lemma_on_path_step(t1, n, m as int);
    assert(node_wf(t1, m as int));
    assert(t1[m as int] == t2[m as int]);
    assert(e1.element() == e2.element());
    assert(e1.is_root() == e2.is_root());
    assert(e1.is_empty() == e2.is_empty()) by {
        assert(e1.node().children == e2.node().children);
        if e1.is_empty() {
            assert forall|k: int| 0 <= k < e2.node().children.len() implies !is_content(
                t2[(#[trigger] e2.node().children[k]) as int].value,
            ) by {
                assert(!is_content(t1[e1.node().children[k] as int].value));
            }
        }
        if e2.is_empty() {
            assert forall|k: int| 0 <= k < e1.node().children.len() implies !is_content(
                t1[(#[trigger] e1.node().children[k]) as int].value,
            ) by {
                assert(!is_content(t2[e2.node().children[k] as int].value));
            }
        }
    }
    assert(e1.has_class(
        s->Class_0,
        CaseSensitivity::CaseSensitive,
    ) == e2.has_class(s->Class_0, CaseSensitivity::CaseSensitive));
    if let SimpleSelectorView::Attribute(attr) = s {
        let name = if e1.is_html_element_in_html_document() {
            attr.local_name_lower
        } else {
            attr.local_name
        };
        assert forall|i: int|
            e1.attr_matches_at(i, attr.namespace, name, attr.operation) == e2.attr_matches_at(
                i,
                attr.namespace,
                name,
                attr.operation,
            ) by {}
        assert(e1.attr_matches(attr.namespace, name, attr.operation) == e2.attr_matches(
            attr.namespace,
            name,
            attr.operation,
        ));
    }
}

/// On a node of the way, the ancestors are the same nodes in the two trees.
proof fn lemma_same_nth_ancestor(
    t1: Seq<TreeNodeView>,
    t2: Seq<TreeNodeView>,
    n: int,
    m: usize,
    k: nat,
)
    requires
        tree_wf(t1),
        tree_wf(t2),
        0 <= n < t1.len(),
        same_on_path(t1, t2, n),
        on_path(t1, n, m as int),
        is_element_at(t1, m),
    ensures
        nth_ancestor(ElementRefView { tree: t1, id: m }, k) is Some <==> nth_ancestor(
            ElementRefView { tree: t2, id: m },
            k,
        ) is Some,
        nth_ancestor(ElementRefView { tree: t1, id: m }, k) matches Some(a) ==> {
            &&& nth_ancestor(ElementRefView { tree: t2, id: m }, k) == Some(
                ElementRefView { tree: t2, id: a.id },
            )
            &&& a == (ElementRefView { tree: t1, id: a.id })
            &&& on_path(t1, n, a.id as int)
            &&& is_element_at(t1, a.id)
        },
    decreases k,
{
    if k == 0 {
        lemma_same_parent_element(t1, t2, n, m);
    } else {
        lemma_same_nth_ancestor(t1, t2, n, m, (k - 1) as nat);
        if let Some(a) = nth_ancestor(ElementRefView { tree: t1, id: m }, (k - 1) as nat) {
            lemma_same_parent_element(t1, t2, n, a.id);
        }
    }
}

/// On a node of the way, the earlier sibling elements are the same nodes in the
/// two trees.
proof fn lemma_same_nth_prev_sibling(
    t1: Seq<TreeNodeView>,
    t2: Seq<TreeNodeView>,
    n: int,
    m: usize,
    k: nat,
)
    requires
        tree_wf(t1),
        tree_wf(t2),
        0 <= n < t1.len(),
        same_on_path(t1, t2, n),
        on_path(t1, n, m as int),
        is_element_at(t1, m),
    ensures
        nth_prev_sibling(ElementRefView { tree: t1, id: m }, k) is Some <==> nth_prev_sibling(
            ElementRefView { tree: t2, id: m },
            k,
        ) is Some,
        nth_prev_sibling(ElementRefView { tree: t1, id: m }, k) matches Some(a) ==> {
            &&& nth_prev_sibling(ElementRefView { tree: t2, id: m }, k) == Some(
                ElementRefView { tree: t2, id: a.id },
            )
            &&& a == (ElementRefView { tree: t1, id: a.id })
            &&& on_path(t1, n, a.id as int)
            &&& is_element_at(t1, a.id)
        },
    decreases k,
{
    if k == 0 {
        lemma_same_prev_sibling_element(t1, t2, n, m);
    } else {
        lemma_same_nth_prev_sibling(t1, t2, n, m, (k - 1) as nat);
        if let Some(a) = nth_prev_sibling(ElementRefView { tree: t1, id: m }, (k - 1) as nat) {
            lemma_same_prev_sibling_element(t1, t2, n, a.id);
        }
    }
}

/// From a node of the way, a selector matches in the one tree exactly when it
/// matches in the other.
pub proof fn lemma_matches_from_depends_on_path(
    sel: ComplexSelectorView,
    i: int,
    t1: Seq<TreeNodeView>,
    t2: Seq<TreeNodeView>,
    n: int,
    m: usize,
    state: Set<(usize, NonTSPseudoClass)>,
)
    requires
        tree_wf(t1),
        tree_wf(t2),
        0 <= n < t1.len(),
        same_on_path(t1, t2, n),
        on_path(t1, n, m as int),
        is_element_at(t1, m),
    ensures
        sel.matches_from(i, ElementRefView { tree: t1, id: m }, state) == sel.matches_from(
            i,
            ElementRefView { tree: t2, id: m },
            state,
        ),
    decreases sel.compounds.len() - i,
{
    let e1 = ElementRefView { tree: t1, id: m };
    let e2 = ElementRefView { tree: t2, id: m };
    if 0 <= i < sel.compounds.len() {
        let c = sel.compounds[i];
        assert(matches_compound_selector_spec(c, e1, state) == matches_compound_selector_spec(c, e2, state)) by {
            assert forall|k: int| 0 <= k < c.len() implies matches_simple_selector_spec(
                #[trigger] c[k],
                e1,
                state,
            ) == matches_simple_selector_spec(c[k], e2, state) by {
                lemma_same_simple(c[k], t1, t2, n, m, state);
            }
        }
        if i + 1 < sel.compounds.len() {
            lemma_same_parent_element(t1, t2, n, m);
            lemma_same_prev_sibling_element(t1, t2, n, m);
            if let Some(p) = e1.parent_element() {
                lemma_matches_from_depends_on_path(sel, i + 1, t1, t2, n, p.id, state);
            }
            if let Some(p) = e1.prev_sibling_element() {
                lemma_matches_from_depends_on_path(sel, i + 1, t1, t2, n, p.id, state);
            }
            let up1 = exists|k: nat|
                (#[trigger] nth_ancestor(e1, k)) is Some && sel.matches_from(
                    i + 1,
                    nth_ancestor(e1, k).unwrap(),
                    state,
                );
            let up2 = exists|k: nat|
                (#[trigger] nth_ancestor(e2, k)) is Some && sel.matches_from(
                    i + 1,
                    nth_ancestor(e2, k).unwrap(),
                    state,
                );
            if up1 {
                let k = choose|k: nat|
                    (#[trigger] nth_ancestor(e1, k)) is Some && sel.matches_from(
                        i + 1,
                        nth_ancestor(e1, k).unwrap(),
                        state,
                    );
                lemma_same_nth_ancestor(t1, t2, n, m, k);
                lemma_matches_from_depends_on_path(
                    sel,
                    i + 1,
                    t1,
                    t2,
                    n,
                    nth_ancestor(e1, k).unwrap().id,
                    state,
                );
                assert(nth_ancestor(e2, k) is Some && sel.matches_from(
                    i + 1,
                    nth_ancestor(e2, k).unwrap(),
                    state,
                ));
            }
            if up2 {
                let k = choose|k: nat|
                    (#[trigger] nth_ancestor(e2, k)) is Some && sel.matches_from(
                        i + 1,
                        nth_ancestor(e2, k).unwrap(),
                        state,
                    );
                lemma_same_nth_ancestor(t1, t2, n, m, k);
                lemma_matches_from_depends_on_path(
                    sel,
                    i + 1,
                    t1,
                    t2,
                    n,
                    nth_ancestor(e1, k).unwrap().id,
                    state,
                );
                assert(nth_ancestor(e1, k) is Some && sel.matches_from(
                    i + 1,
                    nth_ancestor(e1, k).unwrap(),
                    state,
                ));
            }
            assert(up1 == up2);
            let back1 = exists|k: nat|
                (#[trigger] nth_prev_sibling(e1, k)) is Some && sel.matches_from(
                    i + 1,
                    nth_prev_sibling(e1, k).unwrap(),
                    state,
                );
            let back2 = exists|k: nat|
                (#[trigger] nth_prev_sibling(e2, k)) is Some && sel.matches_from(
                    i + 1,
                    nth_prev_sibling(e2, k).unwrap(),
                    state,
                );
            if back1 {
                let k = choose|k: nat|
                    (#[trigger] nth_prev_sibling(e1, k)) is Some && sel.matches_from(
                        i + 1,
                        nth_prev_sibling(e1, k).unwrap(),
                        state,
                    );
                lemma_same_nth_prev_sibling(t1, t2, n, m, k);
                lemma_matches_from_depends_on_path(
                    sel,
                    i + 1,
                    t1,
                    t2,
                    n,
                    nth_prev_sibling(e1, k).unwrap().id,
                    state,
                );
                assert(nth_prev_sibling(e2, k) is Some && sel.matches_from(
                    i + 1,
                    nth_prev_sibling(e2, k).unwrap(),
                    state,
                ));
            }
            if back2 {
                let k = choose|k: nat|
                    (#[trigger] nth_prev_sibling(e2, k)) is Some && sel.matches_from(
                        i + 1,
                        nth_prev_sibling(e2, k).unwrap(),
                        state,
                    );
                lemma_same_nth_prev_sibling(t1, t2, n, m, k);
                lemma_matches_from_depends_on_path(
                    sel,
                    i + 1,
                    t1,
                    t2,
                    n,
                    nth_prev_sibling(e1, k).unwrap().id,
                    state,
                );
                assert(nth_prev_sibling(e1, k) is Some && sel.matches_from(
                    i + 1,
                    nth_prev_sibling(e1, k).unwrap(),
                    state,
                ));
            }
            assert(back1 == back2);
        }
    }
}

/// Matching is decided by the way from the element to the root: in two trees that
/// hold the same nodes on that way, a selector group matches the element in the one
/// exactly when it matches it in the other.
pub proof fn lemma_matches_depends_on_path(
    list: Seq<ComplexSelectorView>,
    t1: Seq<TreeNodeView>,
    t2: Seq<TreeNodeView>,
    n: usize,
    state: Set<(usize, NonTSPseudoClass)>,
)
    requires
        tree_wf(t1),
        tree_wf(t2),
        is_element_at(t1, n),
        same_on_path(t1, t2, n as int),
    ensures
        list_matches(list, ElementRefView { tree: t1, id: n }, state) == list_matches(
            list,
            ElementRefView { tree: t2, id: n },
            state,
        ),
{
    let e1 = ElementRefView { tree: t1, id: n };
    let e2 = ElementRefView { tree: t2, id: n };
    assert forall|i: int| 0 <= i < list.len() implies (#[trigger] list[i]).matches_spec(e1, state)
        == list[i].matches_spec(e2, state) by {
        lemma_matches_from_depends_on_path(list[i], 0, t1, t2, n as int, n, state);
    }
}

/// Node `k` can influence whether a selector matches node `n`: it lies on the way
/// from `n` to the root, or it is a child of a node that does.
pub open spec fn influences(t: Seq<TreeNodeView>, n: int, k: int) -> bool {
    on_path(t, n, k) || match t[k].parent {
        Some(p) => on_path(t, n, p as int),
        None => false,
    }
}

/// The tree `t` with the value of node `k` replaced.
pub open spec fn with_value(t: Seq<TreeNodeView>, k: int, value: NodeView) -> Seq<TreeNodeView> {
    t.update(
        k,
        TreeNodeView { parent: t[k].parent, index: t[k].index, children: t[k].children, value },
    )
}

/// Changing the value of a node that has no influence on an element changes
/// nothing about what matches that element.
pub proof fn lemma_unrelated_mutation(
    list: Seq<ComplexSelectorView>,
    t: Seq<TreeNodeView>,
    n: usize,
    k: int,
    value: NodeView,
    state: Set<(usize, NonTSPseudoClass)>,
)
    requires
        tree_wf(t),
        is_element_at(t, n),
        0 <= k < t.len(),
        !influences(t, n as int, k),
    ensures
        tree_wf(with_value(t, k, value)),
        is_element_at(with_value(t, k, value), n),
        list_matches(list, ElementRefView { tree: t, id: n }, state) == list_matches(
            list,
            ElementRefView { tree: with_value(t, k, value), id: n },
            state,
        ),
{
    let t2 = with_value(t, k, value);
    assert forall|i: int| 0 <= i < t2.len() implies #[trigger] node_wf(t2, i) by {
        assert(node_wf(t, i));
        assert forall|j: int| 0 <= j < t2[i].children.len() implies #[trigger] child_wf(t2, i, j) by {
            assert(child_wf(t, i, j));
        }
    }
    assert(on_path(t, n as int, n as int));
    assert forall|m: int| 0 <= m < t.len() && #[trigger] on_path(t, n as int, m) implies {
        &&& m < t2.len()
        &&& t[m] == t2[m]
        &&& forall|j: int|
            0 <= j < t[m].children.len() ==> is_content(
                t[(#[trigger] t[m].children[j]) as int].value,
            ) == is_content(t2[t[m].children[j] as int].value)
    } by {
        assert(node_wf(t, m));
        assert forall|j: int| 0 <= j < t[m].children.len() implies is_content(
            t[(#[trigger] t[m].children[j]) as int].value,
        ) == is_content(t2[t[m].children[j] as int].value) by {
            assert(child_wf(t, m, j));
        }
    }
    lemma_matches_depends_on_path(list, t, t2, n, state);
}

/// An id selector holds of exactly the elements whose id is the selector's,
/// character for character.
pub proof fn lemma_id_selector(
    id: Seq<char>,
    e: ElementRefView,
    state: Set<(usize, NonTSPseudoClass)>,
)
    ensures
        matches_simple_selector_spec(SimpleSelectorView::Id(id), e, state) <==> e.element().id
            == Some(id),
{
    if let Some(value) = e.element().id {
        lemma_case_sensitive_eq(id, value);
    }
}

/// A class selector holds of exactly the elements that have the selector's class
/// among their classes, character for character.
pub proof fn lemma_class_selector(
    class: Seq<char>,
    e: ElementRefView,
    state: Set<(usize, NonTSPseudoClass)>,
)
    ensures
        matches_simple_selector_spec(SimpleSelectorView::Class(class), e, state)
            <==> e.element().classes.contains(class),
{
    let classes = e.element().classes;
    if e.has_class(class, CaseSensitivity::CaseSensitive) {
        let i = choose|i: int|
            0 <= i < classes.len() && CaseSensitivity::CaseSensitive.eq_str_spec(
                #[trigger] classes[i],
                class,
            );
        lemma_case_sensitive_eq(classes[i], class);
        assert(classes.contains(class));
    }
    if classes.contains(class) {
        let i = choose|i: int| 0 <= i < classes.len() && classes[i] == class;
        lemma_case_sensitive_eq(classes[i], class);
        assert(CaseSensitivity::CaseSensitive.eq_str_spec(classes[i], class));
    }
}

/// Matching the same selector group against the same element of the same tree
/// gives the same answer every time.
pub proof fn lemma_matches_is_repeatable(
    list: Seq<ComplexSelectorView>,
    e: ElementRefView,
    first: bool,
    second: bool,
    state: Set<(usize, NonTSPseudoClass)>,
)
    requires
        first == list_matches(list, e, state),
        second == list_matches(list, e, state),
    ensures
        first == second,
{
}

} // verus!
