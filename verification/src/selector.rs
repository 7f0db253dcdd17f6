//! CSS selectors: the compiled representation and its specificity.

use crate::attr::{
    AttrSelectorOperation, AttrSelectorOperationView, NamespaceConstraint, NamespaceConstraintView,
};
use crate::element_ref::{is_element_at, ElementRef, ElementRefView};
use crate::context::MatchingContext;
use crate::matching::matches_selector_with_context;
use crate::parser::{parse_selector_list, parse_spec, ParseError};
use crate::text::chars_of;
use crate::tree::{Html, TreeNodeView};
use smallvec::SmallVec;
use vstd::prelude::*;

verus! {

/// The selector dialect of this library: no pseudo-elements, and only the
/// user-action and link pseudo-classes besides the structural ones.
#[derive(Clone, Copy, Debug, PartialEq, Eq, Structural)]
pub struct Simple;

impl Simple {
    /// Whether a pseudo-class is `:active` or `:hover`.
    pub fn is_active_or_hover(pc: &NonTSPseudoClass) -> (r: bool)
        ensures
            r == (*pc is Active || *pc is Hover),
    {
        match pc {
            NonTSPseudoClass::Active => true,
            NonTSPseudoClass::Hover => true,
            _ => false,
        }
    }
}

/// Pseudo-classes that depend on state outside the tree.
#[derive(Clone, Copy, Debug, PartialEq, Eq, Structural)]
pub enum NonTSPseudoClass {
    /// Unvisited links
    Link,
    /// Visited links
    Visited,
    /// The pointer is over the element
    Hover,
    /// The element is being activated
    Active,
}

impl NonTSPseudoClass {
    /// Visits the selectors nested in this pseudo-class. There are none, so the
    /// visit always runs to its end.
    pub fn visit(&self) -> (r: bool)
        ensures
            r,
    {
        true
    }

    /// The CSS text of this pseudo-class, which is empty.
    pub fn to_css(&self) -> (r: String)
        ensures
            r@ == Seq::<char>::empty(),
    {
        String::new()
    }
}

/// A CSS pseudo-element. No pseudo-element is supported, so no value of this
/// type is ever made.
#[derive(Clone, Copy, Debug, PartialEq, Eq)]
pub struct PseudoElement {
    unused: (),
}

impl PseudoElement {
    /// The CSS text of this pseudo-element, which is empty.
    pub fn to_css(&self) -> (r: String)
        ensures
            r@ == Seq::<char>::empty(),
    {
        String::new()
    }
}

/// A pseudo-class: one that depends on state outside the tree, or a structural one.
#[derive(Clone, Copy, Debug, PartialEq, Eq, Structural)]
pub enum PseudoClass {
    NonTS(NonTSPseudoClass),
    /// `:root`
    Root,
    /// `:empty`
    Empty,
}

/// How a compound selector relates to the one on its left.
#[derive(Clone, Copy, Debug, PartialEq, Eq, Structural)]
pub enum Combinator {
    /// Whitespace: some ancestor matches the left side.
    Descendant,
    /// `>`: the parent matches the left side.
    Child,
    /// `+`: the nearest earlier sibling element matches the left side.
    NextSibling,
    /// `~`: some earlier sibling element matches the left side.
    SubsequentSibling,
}

/// An attribute selector: `[name]`, `[name op value]`, with an optional namespace.
#[derive(Debug, PartialEq, Eq)]
pub struct AttributeSelector {
    pub namespace: NamespaceConstraint,
    pub local_name: String,
    /// `local_name` with ASCII letters in lower case, used on HTML elements.
    pub local_name_lower: String,
    pub operation: AttrSelectorOperation,
}

/// The mathematical model of an [`AttributeSelector`].
pub struct AttributeSelectorView {
    pub namespace: NamespaceConstraintView,
    pub local_name: Seq<char>,
    pub local_name_lower: Seq<char>,
    pub operation: AttrSelectorOperationView,
}

impl View for AttributeSelector {
    type V = AttributeSelectorView;

    open spec fn view(&self) -> AttributeSelectorView {
        AttributeSelectorView {
            namespace: self.namespace@,
            local_name: self.local_name@,
            local_name_lower: self.local_name_lower@,
            operation: self.operation@,
        }
    }
}

/// One condition on a single element.
#[derive(Debug, PartialEq, Eq)]
pub enum SimpleSelector {
    /// A type selector; `lower_name` is `name` with ASCII letters in lower case,
    /// used on HTML elements.
    Type { name: String, lower_name: String },
    /// `*`
    Universal,
    /// `#id`
    Id(String),
    /// `.class`
    Class(String),
    Attribute(AttributeSelector),
    PseudoClass(PseudoClass),
    PseudoElement(PseudoElement),
}

/// The mathematical model of a [`SimpleSelector`].
pub enum SimpleSelectorView {
    Type { name: Seq<char>, lower_name: Seq<char> },
    Universal,
    Id(Seq<char>),
    Class(Seq<char>),
    Attribute(AttributeSelectorView),
    PseudoClass(PseudoClass),
    PseudoElement(PseudoElement),
}

impl View for SimpleSelector {
    type V = SimpleSelectorView;

    open spec fn view(&self) -> SimpleSelectorView {
        match self {
            SimpleSelector::Type { name, lower_name } => SimpleSelectorView::Type {
                name: name@,
                lower_name: lower_name@,
            },
            SimpleSelector::Universal => SimpleSelectorView::Universal,
            SimpleSelector::Id(id) => SimpleSelectorView::Id(id@),
            SimpleSelector::Class(class) => SimpleSelectorView::Class(class@),
            SimpleSelector::Attribute(attr) => SimpleSelectorView::Attribute(attr@),
            SimpleSelector::PseudoClass(pc) => SimpleSelectorView::PseudoClass(*pc),
            SimpleSelector::PseudoElement(pe) => SimpleSelectorView::PseudoElement(*pe),
        }
    }
}

/// The three columns of a specificity.
#[derive(Clone, Copy, Debug, PartialEq, Eq, Structural)]
pub enum SpecificityKind {
    Id,
    Class,
    Type,
}

impl SimpleSelectorView {
    /// The column of the specificity that this selector adds one to, if any.
    pub open spec fn kind(self) -> Option<SpecificityKind> {
        match self {
            SimpleSelectorView::Id(_) => Some(SpecificityKind::Id),
            SimpleSelectorView::Class(_) => Some(SpecificityKind::Class),
            SimpleSelectorView::Attribute(_) => Some(SpecificityKind::Class),
            SimpleSelectorView::PseudoClass(_) => Some(SpecificityKind::Class),
            SimpleSelectorView::Type { .. } => Some(SpecificityKind::Type),
            SimpleSelectorView::PseudoElement(_) => Some(SpecificityKind::Type),
            SimpleSelectorView::Universal => None,
        }
    }
}

impl SimpleSelector {
    /// The column of the specificity that this selector adds one to, if any.
    pub fn kind(&self) -> (r: Option<SpecificityKind>)
        ensures
            r == self@.kind(),
    {
        match self {
            SimpleSelector::Id(_) => Some(SpecificityKind::Id),
            SimpleSelector::Class(_) => Some(SpecificityKind::Class),
            SimpleSelector::Attribute(_) => Some(SpecificityKind::Class),
            SimpleSelector::PseudoClass(_) => Some(SpecificityKind::Class),
            SimpleSelector::Type { .. } => Some(SpecificityKind::Type),
            SimpleSelector::PseudoElement(_) => Some(SpecificityKind::Type),
            SimpleSelector::Universal => None,
        }
    }
}

/// Simple selectors that must all hold of one element.
#[derive(Debug, PartialEq, Eq)]
pub struct CompoundSelector {
    pub simples: Vec<SimpleSelector>,
}

impl View for CompoundSelector {
    type V = Seq<SimpleSelectorView>;

    open spec fn view(&self) -> Seq<SimpleSelectorView> {
        Seq::new(self.simples@.len(), |i: int| self.simples@[i]@)
    }
}

/// How many of the first `n` simple selectors of a compound count in column `kind`.
pub open spec fn count_in(c: Seq<SimpleSelectorView>, kind: SpecificityKind, n: int) -> nat
    decreases n,
{
    if n <= 0 {
        0
    } else {
        count_in(c, kind, n - 1) + if c[n - 1].kind() == Some(kind) {
            1nat
        } else {
            0nat
        }
    }
}

/// How many simple selectors of the first `n` compounds count in column `kind`.
pub open spec fn count(cs: Seq<Seq<SimpleSelectorView>>, kind: SpecificityKind, n: int) -> nat
    decreases n,
{
    if n <= 0 {
        0
    } else {
        count(cs, kind, n - 1) + count_in(cs[n - 1], kind, cs[n - 1].len() as int)
    }
}

/// The specificity of a selector: how many id selectors it holds; how many class
/// selectors, attribute selectors and pseudo-classes; and how many type selectors
/// and pseudo-elements.
#[derive(Clone, Copy, Debug, PartialEq, Eq, Structural)]
pub struct Specificity {
    pub ids: usize,
    pub classes: usize,
    pub types: usize,
}

impl Specificity {
    /// The weight of a specificity: 1000 for each id, 10 for each class, attribute
    /// or pseudo-class, 1 for each type.
    pub open spec fn value_spec(self) -> int {
        1000 * self.ids + 10 * self.classes + self.types
    }

    /// The weight of this specificity.
    pub fn value(&self) -> (r: u128)
        ensures
            r == self.value_spec(),
    {
        1000 * (self.ids as u128) + 10 * (self.classes as u128) + (self.types as u128)
    }
}

/// The model of a [`ComplexSelector`]. `compounds[0]` is the rightmost compound,
/// the one tested on the candidate element; `combinators[i]` stands between
/// `compounds[i]` and `compounds[i + 1]`, which is to its left in the source.
pub struct ComplexSelectorView {
    pub compounds: Seq<Seq<SimpleSelectorView>>,
    pub combinators: Seq<Combinator>,
}

impl ComplexSelectorView {
    pub open spec fn count(self, kind: SpecificityKind) -> nat {
        count(self.compounds, kind, self.compounds.len() as int)
    }

    /// There is one combinator between each two compounds, no compound is empty,
    /// and each column of the specificity fits in a `usize`.
    pub open spec fn wf(self) -> bool {
        &&& self.compounds.len() == self.combinators.len() + 1
        &&& forall|i: int| 0 <= i < self.compounds.len() ==> (#[trigger] self.compounds[i]).len() > 0
        &&& self.count(SpecificityKind::Id) <= usize::MAX
        &&& self.count(SpecificityKind::Class) <= usize::MAX
        &&& self.count(SpecificityKind::Type) <= usize::MAX
    }

    pub open spec fn specificity(self) -> Specificity {
        Specificity {
            ids: self.count(SpecificityKind::Id) as usize,
            classes: self.count(SpecificityKind::Class) as usize,
            types: self.count(SpecificityKind::Type) as usize,
        }
    }
}

/// The model of a list of compound selectors.
pub open spec fn compounds_view(v: Seq<CompoundSelector>) -> Seq<Seq<SimpleSelectorView>> {
    Seq::new(v.len(), |i: int| v[i]@)
}

/// Counting over more simple selectors of a compound never gives less.
pub proof fn lemma_count_in_monotonic(c: Seq<SimpleSelectorView>, kind: SpecificityKind, m: int, n: int)
    requires
        m <= n,
    ensures
        count_in(c, kind, m) <= count_in(c, kind, n),
    decreases n - m,
{
    if m < n {
        lemma_count_in_monotonic(c, kind, m, n - 1);
    }
}

/// Counting over more compounds never gives less.
pub proof fn lemma_count_monotonic(
    cs: Seq<Seq<SimpleSelectorView>>,
    kind: SpecificityKind,
    m: int,
    n: int,
)
    requires
        m <= n,
    ensures
        count(cs, kind, m) <= count(cs, kind, n),
    decreases n - m,
{
    if m < n {
        lemma_count_monotonic(cs, kind, m, n - 1);
    }
}

/// One selector of a selector group: compound selectors joined by combinators,
/// with its specificity.
#[derive(Debug, PartialEq, Eq)]
pub struct ComplexSelector {
    compounds: Vec<CompoundSelector>,
    combinators: Vec<Combinator>,
    specificity: Specificity,
}

impl View for ComplexSelector {
    type V = ComplexSelectorView;

    closed spec fn view(&self) -> ComplexSelectorView {
        ComplexSelectorView {
            compounds: compounds_view(self.compounds@),
            combinators: self.combinators@,
        }
    }
}

impl ComplexSelector {
    #[verifier::type_invariant]
    spec fn inv(self) -> bool {
        self@.wf() && self.specificity == self@.specificity()
    }

    /// Makes a selector of its compounds, the rightmost first, and the combinators
    /// between them. Returns `None` exactly when the parts do not make a well-formed
    /// selector.
    pub fn new(compounds: Vec<CompoundSelector>, combinators: Vec<Combinator>) -> (r: Option<
        ComplexSelector,
    >)
        ensures
            r is Some <==> (ComplexSelectorView {
                compounds: compounds_view(compounds@),
                combinators: combinators@,
            }).wf(),
            r matches Some(s) ==> s@ == (ComplexSelectorView {
                compounds: compounds_view(compounds@),
                combinators: combinators@,
            }) && s@.wf(),
    {
        let ghost cs = compounds_view(compounds@);
        let ghost n = cs.len() as int;
        if compounds.len() == 0 || combinators.len() != compounds.len() - 1 {
            return None;
        }
        let mut ids: usize = 0;
        let mut classes: usize = 0;
        let mut types: usize = 0;
        let mut i: usize = 0;
        while i < compounds.len()
            invariant
                i <= compounds.len(),
                cs == compounds_view(compounds@),
                n == cs.len(),
                ids == count(cs, SpecificityKind::Id, i as int),
                classes == count(cs, SpecificityKind::Class, i as int),
                types == count(cs, SpecificityKind::Type, i as int),
                forall|k: int| 0 <= k < i ==> (#[trigger] cs[k]).len() > 0,
            decreases compounds.len() - i,
        {
            let compound = &compounds[i];
            let ghost c = cs[i as int];
            assert(c == compound@);
            if compound.simples.len() == 0 {
                return None;
            }
            let mut j: usize = 0;
            while j < compound.simples.len()
                invariant
                    j <= compound.simples.len(),
                    i < n,
                    n == cs.len(),
                    cs == compounds_view(compounds@),
                    c == compound@,
                    c == cs[i as int],
                    ids == count(cs, SpecificityKind::Id, i as int) + count_in(
                        c,
                        SpecificityKind::Id,
                        j as int,
                    ),
                    classes == count(cs, SpecificityKind::Class, i as int) + count_in(
                        c,
                        SpecificityKind::Class,
                        j as int,
                    ),
                    types == count(cs, SpecificityKind::Type, i as int) + count_in(
                        c,
                        SpecificityKind::Type,
                        j as int,
                    ),
                decreases compound.simples.len() - j,
            {
                let kind = compound.simples[j].kind();
                assert(c[j as int] == compound.simples@[j as int]@);
                proof {
                    if let Some(k) = kind {
                        lemma_count_in_monotonic(c, k, j + 1, c.len() as int);
                        lemma_count_monotonic(cs, k, i + 1, n);
                        assert(count_in(c, k, j + 1) == count_in(c, k, j as int) + 1);
                        assert(count(cs, k, i + 1) == count(cs, k, i as int) + count_in(
                            c,
                            k,
                            c.len() as int,
                        ));
                        assert(count(cs, k, n) >= count(cs, k, i as int) + count_in(c, k, j as int)
                            + 1);
                    }
                }
                match kind {
                    Some(SpecificityKind::Id) => {
                        if ids == usize::MAX {
                            return None;
                        }
                        ids += 1;
                    },
                    Some(SpecificityKind::Class) => {
                        if classes == usize::MAX {
                            return None;
                        }
                        classes += 1;
                    },
                    Some(SpecificityKind::Type) => {
                        if types == usize::MAX {
                            return None;
                        }
                        types += 1;
                    },
                    None => {},
                }
                j += 1;
            }
            i += 1;
        }
        let specificity = Specificity { ids, classes, types };
        Some(ComplexSelector { compounds, combinators, specificity })
    }

    /// The compound selectors, the rightmost first.
    pub fn compounds(&self) -> (r: &Vec<CompoundSelector>)
        ensures
            compounds_view(r@) == self@.compounds,
            self@.wf(),
    {
        proof {
            use_type_invariant(self);
        }
        &self.compounds
    }

    /// The combinators; the `i`-th stands to the left of the `i`-th compound.
    pub fn combinators(&self) -> (r: &Vec<Combinator>)
        ensures
            r@ == self@.combinators,
            self@.wf(),
    {
        proof {
            use_type_invariant(self);
        }
        &self.combinators
    }

    /// The specificity, as it was computed when the selector was made.
    pub fn specificity(&self) -> (r: Specificity)
        ensures
            r == self@.specificity(),
            r.ids == self@.count(SpecificityKind::Id),
            r.classes == self@.count(SpecificityKind::Class),
            r.types == self@.count(SpecificityKind::Type),
    {
        proof {
            use_type_invariant(self);
        }
        self.specificity
    }
}

impl Clone for AttributeSelector {
    fn clone(&self) -> (r: Self)
        ensures
            r@ == self@,
    {
        AttributeSelector {
            namespace: self.namespace.clone(),
            local_name: self.local_name.clone(),
            local_name_lower: self.local_name_lower.clone(),
            operation: self.operation.clone(),
        }
    }
}

impl Clone for SimpleSelector {
    fn clone(&self) -> (r: Self)
        ensures
            r@ == self@,
    {
        match self {
            SimpleSelector::Type { name, lower_name } => SimpleSelector::Type {
                name: name.clone(),
                lower_name: lower_name.clone(),
            },
            SimpleSelector::Universal => SimpleSelector::Universal,
            SimpleSelector::Id(id) => SimpleSelector::Id(id.clone()),
            SimpleSelector::Class(class) => SimpleSelector::Class(class.clone()),
            SimpleSelector::Attribute(attr) => SimpleSelector::Attribute(attr.clone()),
            SimpleSelector::PseudoClass(pc) => SimpleSelector::PseudoClass(*pc),
            SimpleSelector::PseudoElement(pe) => SimpleSelector::PseudoElement(*pe),
        }
    }
}

impl Clone for CompoundSelector {
    fn clone(&self) -> (r: Self)
        ensures
            r@ == self@,
    {
        let mut simples: Vec<SimpleSelector> = Vec::new();
        let mut i: usize = 0;
        while i < self.simples.len()
            invariant
                i <= self.simples.len(),
                simples@.len() == i,
                forall|k: int| 0 <= k < i ==> (#[trigger] simples@[k])@ == self.simples@[k]@,
            decreases self.simples.len() - i,
        {
            simples.push(self.simples[i].clone());
            i += 1;
        }
        let r = CompoundSelector { simples };
        assert(r@ =~= self@);
        r
    }
}

impl Clone for ComplexSelector {
    fn clone(&self) -> (r: Self)
        ensures
            r@ == self@,
    {
        proof {
            use_type_invariant(self);
        }
        let mut compounds: Vec<CompoundSelector> = Vec::new();
        let mut i: usize = 0;
        while i < self.compounds.len()
            invariant
                i <= self.compounds.len(),
                compounds@.len() == i,
                forall|k: int| 0 <= k < i ==> (#[trigger] compounds@[k])@ == self.compounds@[k]@,
            decreases self.compounds.len() - i,
        {
            compounds.push(self.compounds[i].clone());
            i += 1;
        }
        assert(compounds_view(compounds@) =~= compounds_view(self.compounds@));
        let combinators = self.combinators.clone();
        assert(combinators@ =~= self.combinators@);
        ComplexSelector { compounds, combinators, specificity: self.specificity }
    }
}

/// The model of a list of selectors.
pub open spec fn selectors_view(v: Seq<ComplexSelector>) -> Seq<ComplexSelectorView> {
    Seq::new(v.len(), |i: int| v[i]@)
}

/// Whether some selector of a list matches an element, where `state` lists the
/// elements that are in a state outside the tree.
pub open spec fn list_matches(
    list: Seq<ComplexSelectorView>,
    e: ElementRefView,
    state: Set<(usize, NonTSPseudoClass)>,
) -> bool {
    exists|i: int| 0 <= i < list.len() && (#[trigger] list[i]).matches_spec(e, state)
}

/// The selectors of a group, in a `smallvec::SmallVec` that holds a single
/// selector inline.
///
/// The vector is opaque to the verifier. What it holds is named by
/// [`selector_vec_items`], and the four functions below say over that name what
/// the operations of `SmallVec` do; those statements are taken on trust.
#[verifier::external_body]
#[derive(Debug, PartialEq, Eq)]
pub struct SelectorVec {
    items: SmallVec<[ComplexSelector; 1]>,
}

/// The selectors that a [`SelectorVec`] holds, in order.
pub uninterp spec fn selector_vec_items(v: SelectorVec) -> Seq<ComplexSelector>;

impl SelectorVec {
    /// An empty list.
    ///
    /// Calls `SmallVec::new`, which makes an empty vector; not proved here.
    #[verifier::external_body]
    pub(crate) fn new() -> (v: SelectorVec)
        ensures
            selector_vec_items(v) == Seq::<ComplexSelector>::empty(),
    {
        SelectorVec { items: SmallVec::new() }
    }

    /// Adds a selector at the end.
    ///
    /// Calls `SmallVec::push`, which appends an item to the vector and leaves the
    /// items before it as they were; not proved here.
    #[verifier::external_body]
    pub(crate) fn push(&mut self, selector: ComplexSelector)
        ensures
            selector_vec_items(*final(self)) == selector_vec_items(*old(self)).push(selector),
    {
        self.items.push(selector)
    }

    /// The number of selectors.
    ///
    /// Calls `SmallVec::len`, the number of items in the vector; not proved here.
    #[verifier::external_body]
    pub(crate) fn len(&self) -> (n: usize)
        ensures
            n == selector_vec_items(*self).len(),
    {
        self.items.len()
    }

    /// The selector at `index`.
    ///
    /// Indexes the `SmallVec`, which derefs to the slice of its items: that gives
    /// the item at that place, and panics beyond the length, so the precondition
    /// keeps the index within it. Not proved here.
    #[verifier::external_body]
    pub(crate) fn get(&self, index: usize) -> (r: &ComplexSelector)
        requires
            index < selector_vec_items(*self).len(),
        ensures
            *r == selector_vec_items(*self)[index as int],
    {
        &self.items[index]
    }
}

/// A selector group: a list of selectors separated by commas. It matches an
/// element when one of its selectors does.
#[derive(Debug, PartialEq, Eq)]
pub struct Selector {
    /// The selectors, in the order of the text.
    pub selectors: SelectorVec,
}

impl View for Selector {
    type V = Seq<ComplexSelectorView>;

    open spec fn view(&self) -> Seq<ComplexSelectorView> {
        selectors_view(selector_vec_items(self.selectors))
    }
}

impl Selector {
    /// Parses a selector group. The whole text must be a list of selectors; the
    /// result is the first error otherwise.
    pub fn parse(selectors: &str) -> (r: Result<Selector, ParseError>)
        ensures
            match r {
                Ok(selector) => parse_spec(selectors@) == Ok::<
                    Seq<ComplexSelectorView>,
                    ParseError,
                >(selector@) && selector@.len() > 0,
                Err(e) => parse_spec(selectors@) == Err::<Seq<ComplexSelectorView>, ParseError>(e),
            },
    {
        let chars = chars_of(selectors);
        let list = match parse_selector_list(&chars) {
            Ok(list) => list,
            Err(e) => {
                return Err(e);
            },
        };
        let ghost all = list@;
        let mut items = SelectorVec::new();
        for selector in it: list
            invariant
                it.seq() == all,
                selector_vec_items(items) == all.take(it.index() as int),
        {
            items.push(selector);
            assert(all.take(it.index() + 1) =~= all.take(it.index() as int).push(selector));
        }
        assert(all.take(all.len() as int) =~= all);
        Ok(Selector { selectors: items })
    }

    /// The number of selectors in the group.
    pub fn len(&self) -> (n: usize)
        ensures
            n == self@.len(),
    {
        self.selectors.len()
    }

    /// The selector at `index`, counted in the order of the text.
    pub fn get(&self, index: usize) -> (r: Option<&ComplexSelector>)
        ensures
            r is Some <==> index < self@.len(),
            r matches Some(selector) ==> selector@ == self@[index as int],
    {
        if index < self.selectors.len() {
            Some(self.selectors.get(index))
        } else {
            None
        }
    }

    /// Returns true if the element matches this selector group, when no element is
    /// in any state outside the tree.
    pub fn matches(&self, element: &ElementRef) -> (r: bool)
        ensures
            r == list_matches(self@, element@, Set::empty()),
    {
        let context = MatchingContext::new();
        self.matches_with_context(element, &context)
    }

    /// Returns true if the element matches this selector group, with the states
    /// that `context` gives.
    pub fn matches_with_context(&self, element: &ElementRef, context: &MatchingContext) -> (r: bool)
        ensures
            r == list_matches(self@, element@, context@),
    {
        let n = self.selectors.len();
        let mut i: usize = 0;
        while i < n
            invariant
                i <= n,
                n == selector_vec_items(self.selectors).len(),
                forall|k: int|
                    0 <= k < i ==> !(#[trigger] self@[k]).matches_spec(element@, context@),
            decreases n - i,
        {
            if matches_selector_with_context(self.selectors.get(i), element, context) {
                assert(self@[i as int].matches_spec(element@, context@));
                return true;
            }
            i += 1;
        }
        false
    }
}

impl Clone for Selector {
    fn clone(&self) -> (r: Self)
        ensures
            r@ == self@,
    {
        let n = self.selectors.len();
        let mut items = SelectorVec::new();
        let mut i: usize = 0;
        while i < n
            invariant
                i <= n,
                n == selector_vec_items(self.selectors).len(),
                selector_vec_items(items).len() == i,
                forall|k: int|
                    0 <= k < i ==> (#[trigger] selector_vec_items(items)[k])@
                        == selector_vec_items(self.selectors)[k]@,
            decreases n - i,
        {
            items.push(self.selectors.get(i).clone());
            i += 1;
        }
        let r = Selector { selectors: items };
        assert(r@ =~= self@);
        r
    }
}

/// The positions, among the first `n` nodes of a tree, of the elements that a
/// selector group matches, in the order of the arena.
pub open spec fn select_spec(list: Seq<ComplexSelectorView>, t: Seq<TreeNodeView>, n: int) -> Seq<
    usize,
>
    decreases n,
{
    if n <= 0 {
        Seq::empty()
    } else {
        let rest = select_spec(list, t, n - 1);
        let id = (n - 1) as usize;
        if is_element_at(t, id) && list_matches(list, ElementRefView { tree: t, id }, Set::empty()) {
            rest.push(id)
        } else {
            rest
        }
    }
}

impl Html {
    /// The elements of the tree that a selector group matches, in the order of the
    /// arena.
    pub fn select<'a>(&'a self, selector: &Selector) -> (r: Vec<ElementRef<'a>>)
        ensures
            r@.len() == select_spec(selector@, self@, self@.len() as int).len(),
            forall|i: int|
                0 <= i < r@.len() ==> (#[trigger] r@[i])@ == (ElementRefView {
                    tree: self@,
                    id: select_spec(selector@, self@, self@.len() as int)[i],
                }),
    {
        let mut found: Vec<ElementRef<'a>> = Vec::new();
        let n = self.len();
        let mut id: usize = 0;
        while id < n
            invariant
                id <= n,
                n == self@.len(),
                found@.len() == select_spec(selector@, self@, id as int).len(),
                forall|i: int|
                    0 <= i < found@.len() ==> (#[trigger] found@[i])@ == (ElementRefView {
                        tree: self@,
                        id: select_spec(selector@, self@, id as int)[i],
                    }),
            decreases n - id,
        {
            if let Some(element) = ElementRef::wrap(self, id) {
                if selector.matches(&element) {
                    found.push(element);
                }
            }
            id += 1;
        }
        found
    }
}

} // verus!
