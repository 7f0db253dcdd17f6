//! The state outside the tree that some pseudo-classes ask about.
//!
//! Whether an element is a link, visited, hovered or active is not in the tree.
//! The caller says so in a context; with an empty context no element is in any
//! such state.

use crate::selector::NonTSPseudoClass;
use vstd::prelude::*;

verus! {

/// Which elements are in which state. An element is named by its position in
/// the tree.
#[derive(Debug)]
pub struct MatchingContext {
    states: Vec<(usize, NonTSPseudoClass)>,
}

impl View for MatchingContext {
    type V = Set<(usize, NonTSPseudoClass)>;

    closed spec fn view(&self) -> Set<(usize, NonTSPseudoClass)> {
        self.states@.to_set()
    }
}

impl MatchingContext {
    /// The context in which no element is in any state.
    pub fn new() -> (r: MatchingContext)
        ensures
            r@ == Set::<(usize, NonTSPseudoClass)>::empty(),
    {
        let r = MatchingContext { states: Vec::new() };
        assert(r@ =~= Set::<(usize, NonTSPseudoClass)>::empty());
        r
    }

    /// Puts an element in a state.
    pub fn insert(&mut self, element: usize, pc: NonTSPseudoClass)
        ensures
            final(self)@ == old(self)@.insert((element, pc)),
    {
        let ghost before = self.states@;
        self.states.push((element, pc));
        assert forall|p: (usize, NonTSPseudoClass)|
            self@.contains(p) == old(self)@.insert((element, pc)).contains(p) by {
            if self.states@.contains(p) {
                let i = choose|i: int| 0 <= i < self.states@.len() && self.states@[i] == p;
                if i < before.len() {
                    assert(before[i] == p);
                    assert(before.contains(p));
                }
            }
            if before.contains(p) {
                let i = choose|i: int| 0 <= i < before.len() && before[i] == p;
                assert(self.states@[i] == p);
                assert(self.states@.contains(p));
            }
            if p == (element, pc) {
                assert(self.states@[before.len() as int] == p);
                assert(self.states@.contains(p));
            }
        }
        assert(self@ =~= old(self)@.insert((element, pc)));
    }

    /// Whether an element is in a state.
    pub fn holds(&self, element: usize, pc: &NonTSPseudoClass) -> (r: bool)
        ensures
            r == self@.contains((element, *pc)),
    {
        let mut i: usize = 0;
        while i < self.states.len()
            invariant
                i <= self.states.len(),
                forall|k: int| 0 <= k < i ==> self.states@[k] != (element, *pc),
            decreases self.states.len() - i,
        {
            if self.states[i].0 == element && self.states[i].1 == *pc {
                assert(self.states@[i as int] == (element, *pc));
                return true;
            }
            i += 1;
        }
        false
    }
}

} // verus!
