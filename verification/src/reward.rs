//! What the board asks of a reward payload.

use vstd::prelude::*;

verus! {

/// A reward that a request may carry. The board keeps it as a text and hands
/// it out again on completion; what the text looks like and what releasing
/// does is the payload's own business.
pub trait Rewardable: Sized {
    /// The text that stands for this payload, or `None` where it cannot be
    /// put into text.
    fn encode(&self) -> Option<String>;

    /// The payload that a text stands for, or `None` where the text stands
    /// for none.
    fn decode(text: &str) -> Option<Self>;

    /// Hands the reward out. It takes the payload by value, so that no
    /// payload is released twice. The default does nothing.
    fn release(self) {
    }
}

} // verus!
