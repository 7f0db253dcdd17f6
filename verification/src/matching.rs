//! Matching selectors against elements.
//!
//! A selector is matched from right to left: its rightmost compound is tested on
//! the candidate element, and each combinator then leads to the elements on which
//! the compound to its left is tested.

use crate::attr::CaseSensitivity;
use crate::context::MatchingContext;
use crate::element_ref::{option_view, ElementRef, ElementRefView};
use crate::selector::{
    compounds_view, Combinator, ComplexSelector, ComplexSelectorView, CompoundSelector,
    NonTSPseudoClass, PseudoClass, SimpleSelector, SimpleSelectorView,
};
use crate::text::str_eq;
use vstd::prelude::*;

verus! {

/// Whether a simple selector holds of an element.
///
/// Type and attribute names are taken in lower case on HTML elements. Ids and
/// classes are compared case-sensitively. A pseudo-class that depends on state
/// outside the tree holds of the elements that `state` lists for it. No
/// pseudo-element ever holds.
pub open spec fn matches_simple_selector_spec(
    s: SimpleSelectorView,
    e: ElementRefView,
    state: Set<(usize, NonTSPseudoClass)>,
) -> bool {
    match s {
        SimpleSelectorView::Type { name, lower_name } => {
            let wanted = if e.is_html_element_in_html_document() {
                lower_name
            } else {
                name
            };
            e.element().name.local == wanted
        },
        SimpleSelectorView::Universal => true,
        SimpleSelectorView::Id(id) => e.has_id(id, CaseSensitivity::CaseSensitive),
        SimpleSelectorView::Class(class) => e.has_class(class, CaseSensitivity::CaseSensitive),
        SimpleSelectorView::Attribute(attr) => e.attr_matches(
            attr.namespace,
            if e.is_html_element_in_html_document() {
                attr.local_name_lower
            } else {
                attr.local_name
            },
            attr.operation,
        ),
        SimpleSelectorView::PseudoClass(pc) => match pc {
            PseudoClass::NonTS(pc) => state.contains((e.id, pc)),
            PseudoClass::Root => e.is_root(),
            PseudoClass::Empty => e.is_empty(),
        },
        SimpleSelectorView::PseudoElement(_) => false,
    }
}

/// Whether every simple selector of a compound holds of an element.
pub open spec fn matches_compound_selector_spec(
    c: Seq<SimpleSelectorView>,
    e: ElementRefView,
    state: Set<(usize, NonTSPseudoClass)>,
) -> bool {
    forall|k: int| 0 <= k < c.len() ==> matches_simple_selector_spec(#[trigger] c[k], e, state)
}

/// The ancestor `k + 1` levels above an element, as far as the chain of parent
/// elements reaches.
pub open spec fn nth_ancestor(e: ElementRefView, k: nat) -> Option<ElementRefView>
    decreases k,
{
    if k == 0 {
        e.parent_element()
    } else {
        match nth_ancestor(e, (k - 1) as nat) {
            Some(a) => a.parent_element(),
            None => None,
        }
    }
}

/// The sibling element `k + 1` elements before an element, as far as there are any.
pub open spec fn nth_prev_sibling(e: ElementRefView, k: nat) -> Option<ElementRefView>
    decreases k,
{
    if k == 0 {
        e.prev_sibling_element()
    } else {
        match nth_prev_sibling(e, (k - 1) as nat) {
            Some(s) => s.prev_sibling_element(),
            None => None,
        }
    }
}

impl ComplexSelectorView {
    /// Whether the compounds from the `i`-th on match, the `i`-th being tested on `e`.
    pub open spec fn matches_from(
        self,
        i: int,
        e: ElementRefView,
        state: Set<(usize, NonTSPseudoClass)>,
    ) -> bool
        decreases self.compounds.len() - i,
    {
        if i < 0 || i >= self.compounds.len() {
            false
        } else {
            &&& matches_compound_selector_spec(self.compounds[i], e, state)
            &&& (i + 1 == self.compounds.len() || match self.combinators[i] {
                Combinator::Child => e.parent_element() is Some && self.matches_from(
                    i + 1,
                    e.parent_element().unwrap(),
                    state,
                ),
                Combinator::Descendant => exists|k: nat|
                    (#[trigger] nth_ancestor(e, k)) is Some && self.matches_from(
                        i + 1,
                        nth_ancestor(e, k).unwrap(),
                        state,
                    ),
                Combinator::NextSibling => e.prev_sibling_element() is Some && self.matches_from(
                    i + 1,
                    e.prev_sibling_element().unwrap(),
                    state,
                ),
                Combinator::SubsequentSibling => exists|k: nat|
                    (#[trigger] nth_prev_sibling(e, k)) is Some && self.matches_from(
                        i + 1,
                        nth_prev_sibling(e, k).unwrap(),
                        state,
                    ),
            })
        }
    }

    /// Whether the selector matches the element `e`.
    pub open spec fn matches_spec(
        self,
        e: ElementRefView,
        state: Set<(usize, NonTSPseudoClass)>,
    ) -> bool {
        self.matches_from(0, e, state)
    }
}

/// Once the chain of ancestors has ended it stays ended.
pub proof fn lemma_nth_ancestor_ended(e: ElementRefView, k: nat, j: nat)
    requires
        nth_ancestor(e, k) is None,
        k <= j,
    ensures
        nth_ancestor(e, j) is None,
    decreases j,
{
    if k < j {
        lemma_nth_ancestor_ended(e, k, (j - 1) as nat);
    }
}

/// Once the chain of earlier siblings has ended it stays ended.
pub proof fn lemma_nth_prev_sibling_ended(e: ElementRefView, k: nat, j: nat)
    requires
        nth_prev_sibling(e, k) is None,
        k <= j,
    ensures
        nth_prev_sibling(e, j) is None,
    decreases j,
{
    if k < j {
        lemma_nth_prev_sibling_ended(e, k, (j - 1) as nat);
    }
}

/// What is left to walk from an element upwards: its position in the arena.
pub open spec fn ancestor_measure(o: Option<ElementRefView>) -> nat {
    match o {
        Some(e) => e.id as nat + 1,
        None => 0,
    }
}

/// What is left to walk from an element to earlier siblings: its place among them.
pub open spec fn sibling_measure(o: Option<ElementRefView>) -> nat {
    match o {
        Some(e) => e.node().index as nat + 1,
        None => 0,
    }
}

/// The order in which the simple selectors of a compound are tested: names, ids
/// and classes first, attributes next, pseudo-classes last.
pub open spec fn test_rank(s: SimpleSelectorView) -> u8 {
    match s {
        SimpleSelectorView::Attribute(_) => 1,
        SimpleSelectorView::PseudoClass(_) => 2,
        SimpleSelectorView::PseudoElement(_) => 2,
        _ => 0,
    }
}

/// The rank of a simple selector in the order of testing.
fn rank_of(s: &SimpleSelector) -> (r: u8)
    ensures
        r == test_rank(s@),
        r < 3,
{
    match s {
        SimpleSelector::Attribute(_) => 1,
        SimpleSelector::PseudoClass(_) => 2,
        SimpleSelector::PseudoElement(_) => 2,
        _ => 0,
    }
}

/// Tests one simple selector on an element.
pub fn matches_simple_selector(
    s: &SimpleSelector,
    element: &ElementRef,
    context: &MatchingContext,
) -> (r: bool)
    ensures
        r == matches_simple_selector_spec(s@, element@, context@),
{
    match s {
        SimpleSelector::Type { name, lower_name } => {
            let wanted = if element.is_html_element_in_html_document() {
                lower_name
            } else {
                name
            };
            str_eq(element.get_local_name().as_str(), wanted.as_str())
        },
        SimpleSelector::Universal => true,
        SimpleSelector::Id(id) => element.has_id(id.as_str(), CaseSensitivity::CaseSensitive),
        SimpleSelector::Class(class) => element.has_class(
            class.as_str(),
            CaseSensitivity::CaseSensitive,
        ),
        SimpleSelector::Attribute(attr) => {
            let wanted = if element.is_html_element_in_html_document() {
                &attr.local_name_lower
            } else {
                &attr.local_name
            };
            element.attr_matches(&attr.namespace, wanted.as_str(), &attr.operation)
        },
        SimpleSelector::PseudoClass(pc) => match pc {
            PseudoClass::NonTS(pc) => element.match_non_ts_pseudo_class(pc, context),
            PseudoClass::Root => element.is_root(),
            PseudoClass::Empty => element.is_empty(),
        },
        SimpleSelector::PseudoElement(pe) => element.match_pseudo_element(pe),
    }
}

/// Tests a compound selector on an element: every simple selector must hold. The
/// cheap tests are made first, so that most candidates are rejected early.
pub fn matches_compound_selector(
    c: &CompoundSelector,
    element: &ElementRef,
    context: &MatchingContext,
) -> (r: bool)
    ensures
        r == matches_compound_selector_spec(c@, element@, context@),
{
    let mut rank: u8 = 0;
    while rank < 3
        invariant
            rank <= 3,
            forall|k: int|
                0 <= k < c@.len() && test_rank(#[trigger] c@[k]) < rank
                    ==> matches_simple_selector_spec(c@[k], element@, context@),
        decreases 3 - rank,
    {
        let mut i: usize = 0;
        while i < c.simples.len()
            invariant
                i <= c.simples.len(),
                rank < 3,
                forall|k: int|
                    0 <= k < c@.len() && test_rank(#[trigger] c@[k]) < rank
                        ==> matches_simple_selector_spec(c@[k], element@, context@),
                forall|k: int|
                    0 <= k < i && test_rank(#[trigger] c@[k]) == rank
                        ==> matches_simple_selector_spec(c@[k], element@, context@),
            decreases c.simples.len() - i,
        {
            let s = &c.simples[i];
            assert(c@[i as int] == s@);
            if rank_of(s) == rank && !matches_simple_selector(s, element, context) {
                return false;
            }
            i += 1;
        }
        rank += 1;
    }
    assert forall|k: int| 0 <= k < c@.len() implies matches_simple_selector_spec(
        #[trigger] c@[k],
        element@,
        context@,
    ) by {
        assert(test_rank(c@[k]) < 3);
    }
    true
}

/// Tests the compounds of `selector` from the `i`-th on, the `i`-th on `element`.
fn matches_from(
    selector: &ComplexSelector,
    i: usize,
    element: &ElementRef,
    context: &MatchingContext,
) -> (r: bool)
    requires
        i < selector@.compounds.len(),
    ensures
        r == selector@.matches_from(i as int, element@, context@),
    decreases selector@.compounds.len() - i,
{
    let compounds = selector.compounds();
    let combinators = selector.combinators();
    let _ = element.opaque();
    assert(compounds_view(compounds@)[i as int] == compounds@[i as int]@);
    assert(compounds_view(compounds@).len() == compounds@.len());
    if !matches_compound_selector(&compounds[i], element, context) {
        return false;
    }
    let n = compounds.len();
    if i + 1 == n {
        return true;
    }
    match combinators[i] {
        Combinator::Child => match element.parent_element() {
            Some(parent) => matches_from(selector, i + 1, &parent, context),
            None => false,
        },
        Combinator::NextSibling => match element.prev_sibling_element() {
            Some(sibling) => matches_from(selector, i + 1, &sibling, context),
            None => false,
        },
        Combinator::Descendant => {
            let mut current = element.parent_element();
            let ghost mut k: nat = 0;
            proof {
                element@.lemma_parent_element();
            }
            loop
                invariant
                    selector@.wf(),
                    i + 1 < selector@.compounds.len(),
                    i < usize::MAX,
                    matches_compound_selector_spec(selector@.compounds[i as int], element@, context@),
                    selector@.combinators[i as int] == Combinator::Descendant,
                    option_view(current) == nth_ancestor(element@, k),
                    current matches Some(a) ==> a@.wf(),
                    forall|j: nat|
                        j < k ==> !((#[trigger] nth_ancestor(element@, j)) is Some
                            && selector@.matches_from(i + 1, nth_ancestor(element@, j).unwrap(), context@)),
                decreases ancestor_measure(option_view(current)),
            {
                match current {
                    None => {
                        assert forall|j: nat|
                            !((#[trigger] nth_ancestor(element@, j)) is Some
                                && selector@.matches_from(
                                i + 1,
                                nth_ancestor(element@, j).unwrap(),
                                context@,
                            )) by {
                            if j >= k {
                                lemma_nth_ancestor_ended(element@, k, j);
                            }
                        }
                        return false;
                    },
                    Some(ancestor) => {
                        if matches_from(selector, i + 1, &ancestor, context) {
                            return true;
                        }
                        proof {
                            ancestor@.lemma_parent_element();
                        }
                        current = ancestor.parent_element();
                        proof {
                            k = k + 1;
                        }
                    },
                }
            }
        },
        Combinator::SubsequentSibling => {
            let mut current = element.prev_sibling_element();
            let ghost mut k: nat = 0;
            proof {
                element@.lemma_prev_sibling_element();
            }
            loop
                invariant
                    selector@.wf(),
                    i + 1 < selector@.compounds.len(),
                    i < usize::MAX,
                    matches_compound_selector_spec(selector@.compounds[i as int], element@, context@),
                    selector@.combinators[i as int] == Combinator::SubsequentSibling,
                    option_view(current) == nth_prev_sibling(element@, k),
                    current matches Some(s) ==> s@.wf(),
                    forall|j: nat|
                        j < k ==> !((#[trigger] nth_prev_sibling(element@, j)) is Some
                            && selector@.matches_from(
                            i + 1,
                            nth_prev_sibling(element@, j).unwrap(),
                            context@,
                        )),
                decreases sibling_measure(option_view(current)),
            {
                match current {
                    None => {
                        assert forall|j: nat|
                            !((#[trigger] nth_prev_sibling(element@, j)) is Some
                                && selector@.matches_from(
                                i + 1,
                                nth_prev_sibling(element@, j).unwrap(),
                                context@,
                            )) by {
                            if j >= k {
                                lemma_nth_prev_sibling_ended(element@, k, j);
                            }
                        }
                        return false;
                    },
                    Some(sibling) => {
                        if matches_from(selector, i + 1, &sibling, context) {
                            return true;
                        }
                        proof {
                            sibling@.lemma_prev_sibling_element();
                        }
                        current = sibling.prev_sibling_element();
                        proof {
                            k = k + 1;
                        }
                    },
                }
            }
        },
    }
}

/// Whether a selector matches an element, when no element is in any state outside
/// the tree.
pub fn matches_selector(selector: &ComplexSelector, element: &ElementRef) -> (r: bool)
    ensures
        r == selector@.matches_spec(element@, Set::empty()),
{
    let context = MatchingContext::new();
    matches_selector_with_context(selector, element, &context)
}

/// Whether a selector matches an element, with the states that `context` gives.
pub fn matches_selector_with_context(
    selector: &ComplexSelector,
    element: &ElementRef,
    context: &MatchingContext,
) -> (r: bool)
    ensures
        r == selector@.matches_spec(element@, context@),
{
    let _ = selector.compounds();
    matches_from(selector, 0, element, context)
}

} // verus!
