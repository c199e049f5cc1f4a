//! Delivering the rendered text to a pane: the text first, then Enter, and
//! Enter only where the text arrived.
use vstd::prelude::*;

verus! {

/// What delivery does next.
pub enum Delivery {
    /// Send the text to the pane.
    SendText,
    /// Press Enter in the pane.
    SendEnter,
    /// Delivery is over, with this outcome.
    Done(Result<(), String>),
}

/// The step after `step` gave `outcome`: Enter follows text that arrived;
/// a failure, or Enter, ends delivery.
pub open spec fn next_step(step: Delivery, outcome: Result<(), String>) -> Delivery {
    match step {
        Delivery::SendText => match outcome {
            Ok(()) => Delivery::SendEnter,
            Err(e) => Delivery::Done(Err(e)),
        },
        Delivery::SendEnter => Delivery::Done(outcome),
        Delivery::Done(r) => Delivery::Done(r),
    }
}

impl Delivery {
    /// Delivery starts by sending the text.
    pub fn start() -> (res: Delivery)
        ensures
            res is SendText,
    {
        Delivery::SendText
    }

    /// The step after the current one gave `outcome`.
    pub fn advance(self, outcome: Result<(), String>) -> (res: Delivery)
        ensures
            res == next_step(self, outcome),
    {
        match self {
            Delivery::SendText => match outcome {
                Ok(()) => Delivery::SendEnter,
                Err(e) => Delivery::Done(Err(e)),
            },
            Delivery::SendEnter => Delivery::Done(outcome),
            Delivery::Done(r) => Delivery::Done(r),
        }
    }
}

} // verus!
