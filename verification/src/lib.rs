//! Stream combinators whose polling decisions are verified state machines.
//!
//! Each combinator keeps its input streams and what it remembers of them in a
//! state type of this crate. Polling the inputs is left to the caller, which
//! hands each outcome to the state as a [`PollNext`] value; the state then
//! decides what to poll next and what the combined stream reports.

pub mod combine_latest;
pub mod poll;
pub mod sample;
pub mod switch;

pub use combine_latest::{combine_latest, CombineLatestStream};
pub use poll::PollNext;
pub use sample::{sample, Sample, SampleStage};
pub use switch::{OuterStep, SwitchStream};
