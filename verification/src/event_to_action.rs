//! The interface between the event stream and the action compiler: an
//! event goes in, a routing envelope may come out.

use vstd::prelude::*;

use crate::action::ActionCategory;
use crate::events::ChatEvent;

verus! {

/// Turns chat/channel events into routed actions.  `execute` may consume
/// an event without producing an action; `custom_categories` lists the
/// category names the implementation can route to, for provisioning.
pub trait EventToAction {
    fn execute(&mut self, event: ChatEvent) -> Option<ActionCategory>;

    fn custom_categories(&mut self) -> Vec<String>;
}

} // verus!
