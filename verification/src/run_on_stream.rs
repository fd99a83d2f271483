//! The stream-consumption interface: a receiver is handed one item at a
//! time, and a stream element either carries an item or signals the end.
//! The asynchronous loop that feeds a receiver lives outside the library.

use vstd::prelude::*;

verus! {

/// Receives one stream item at a time and may answer with an output.
pub trait StreamItemReceiver {
    type Item;

    type Output;

    fn receive(&mut self, item: Self::Item) -> Self::Output;
}

/// A stream element: an item, or the signal to stop consuming.
pub enum StreamEvent<T> {
    Item(T),
    Stop,
}

} // verus!
