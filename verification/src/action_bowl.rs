//! A simple holding pen for actions: insert at the back, pick from the
//! front.

use vstd::prelude::*;

use crate::action::Action;

verus! {

/// A FIFO pool of actions.
pub struct ActionBowl {
    actions: Vec<Action>,
}

impl View for ActionBowl {
    type V = Seq<Action>;

    closed spec fn view(&self) -> Seq<Action> {
        self.actions@
    }
}

impl ActionBowl {
    pub fn new() -> (r: Self)
        ensures
            r@ == Seq::<Action>::empty(),
    {
        let bowl = ActionBowl { actions: Vec::new() };
        proof {
            assert(bowl@ =~= Seq::<Action>::empty());
        }
        bowl
    }

    /// Add an action at the back.
    pub fn insert(&mut self, action: Action)
        ensures
            final(self)@ == old(self)@.push(action),
    {
        self.actions.push(action);
    }

    /// Take the oldest action out, if any is left.
    pub fn pick(&mut self) -> (r: Option<Action>)
        ensures
            old(self)@.len() == 0 ==> (r is None && final(self)@ == old(self)@),
            old(self)@.len() > 0 ==> (r matches Some(a) && a == old(self)@[0] && final(self)@
                == old(self)@.drop_first()),
    {
        if self.actions.is_empty() {
            return None;
        }
        let first = self.actions.remove(0);
        proof {
            assert(self.actions@ =~= old(self)@.drop_first());
        }
        Some(first)
    }
}

} // verus!
