//! The console sink.
use crate::event::{EagleMsg, MetricEvent};
use vstd::prelude::*;

verus! {

/// A sink that prints each metric on its own line.
pub struct Console;

/// What the console does with one inbox message.
#[derive(Clone, Copy, Debug, PartialEq, Eq, Structural)]
pub enum ConsoleStep {
    Print,
    Skip,
    Stop,
}

impl Console {
    /// Metrics are printed, ticks ignored, and shutdown ends the loop.
    pub fn handle(&self, msg: &EagleMsg<MetricEvent>) -> (r: ConsoleStep)
        ensures
            r == match msg {
                EagleMsg::Msg(_) => ConsoleStep::Print,
                EagleMsg::Tick => ConsoleStep::Skip,
                EagleMsg::Shutdown => ConsoleStep::Stop,
            },
    {
        match msg {
            EagleMsg::Msg(_) => ConsoleStep::Print,
            EagleMsg::Tick => ConsoleStep::Skip,
            EagleMsg::Shutdown => ConsoleStep::Stop,
        }
    }
}

} // verus!
