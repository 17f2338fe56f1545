//! What one poll of a stream gives back, as a plain value.

use vstd::prelude::*;

verus! {

/// The outcome of polling a stream once: not ready yet, the next item, or the end.
#[derive(Debug, Clone, Copy, PartialEq, Eq)]
pub enum PollNext<T> {
    /// The stream has nothing to give at the moment.
    Pending,
    /// The stream yielded an item.
    Item(T),
    /// The stream has ended.
    Done,
}

} // verus!
