//! Keeping the WiFi station connected.
//!
//! [`next_step`] decides what is done next; driving the radio is left to the caller,
//! which reports how each step went.

use vstd::prelude::*;

verus! {

/// The pause before another attempt to connect, in milliseconds.
pub const RETRY_MS: u64 = 5000;

/// How the last step went.
#[derive(Clone, Copy, Debug, PartialEq, Eq, Structural)]
pub enum StationEvent {
    /// Whether the radio is started.
    Started(bool),
    /// Whether the connection was made.
    Connected(bool),
    /// The connection was lost.
    Disconnected,
    /// The pause is over.
    Waited,
}

/// What is to be done next.
#[derive(Clone, Copy, Debug, PartialEq, Eq, Structural)]
pub enum StationStep {
    /// Ask whether the radio is started.
    CheckStarted,
    /// Connect.
    Connect,
    /// Wait until the connection is lost.
    AwaitLoss,
    /// Wait so many milliseconds.
    Pause(u64),
    /// Give up.
    Stop,
}

/// Whether this event can follow a step.
pub open spec fn answers(step: StationStep, event: StationEvent) -> bool {
    match event {
        StationEvent::Started(_) => step == StationStep::CheckStarted,
        StationEvent::Connected(_) => step == StationStep::Connect,
        StationEvent::Disconnected => step == StationStep::AwaitLoss,
        StationEvent::Waited => step is Pause,
    }
}

/// What is to be done after an event.
pub open spec fn step_after(event: StationEvent) -> StationStep {
    match event {
        StationEvent::Started(started) => if started {
            StationStep::Connect
        } else {
            StationStep::Stop
        },
        StationEvent::Connected(connected) => if connected {
            StationStep::AwaitLoss
        } else {
            StationStep::Pause(RETRY_MS)
        },
        StationEvent::Disconnected => StationStep::CheckStarted,
        StationEvent::Waited => StationStep::CheckStarted,
    }
}

/// Whether the station is connected after an event.
pub open spec fn connected_after(event: StationEvent, connected: bool) -> bool {
    match event {
        StationEvent::Connected(made) => made || connected,
        StationEvent::Disconnected => false,
        _ => connected,
    }
}

/// Decides what is done next. Sets whether the station is connected.
pub fn next_step(event: StationEvent, connected: &mut bool) -> (r: StationStep)
    ensures
        r == step_after(event),
        *final(connected) == connected_after(event, *old(connected)),
{
    match event {
        StationEvent::Started(started) => {
            if started {
                StationStep::Connect
            } else {
                StationStep::Stop
            }
        },
        StationEvent::Connected(ok) => {
            if ok {
                *connected = true;
                StationStep::AwaitLoss
            } else {
                StationStep::Pause(RETRY_MS)
            }
        },
        StationEvent::Disconnected => {
            *connected = false;
            StationStep::CheckStarted
        },
        StationEvent::Waited => StationStep::CheckStarted,
    }
}

/// The station counts as connected exactly while the loss of its connection is awaited.
pub proof fn connected_until_loss(step: StationStep, event: StationEvent, connected: bool)
    requires
        answers(step, event),
        connected == (step == StationStep::AwaitLoss),
    ensures
        connected_after(event, connected) == (step_after(event) == StationStep::AwaitLoss),
{
}

/// The station keeps trying: a connection that could not be made is tried again after five
/// seconds, and one that was lost at once, as long as the radio is started.
pub proof fn station_keeps_trying()
    ensures
        step_after(StationEvent::Connected(false)) == StationStep::Pause(5000),
        step_after(StationEvent::Waited) == StationStep::CheckStarted,
        step_after(StationEvent::Disconnected) == StationStep::CheckStarted,
        step_after(StationEvent::Started(true)) == StationStep::Connect,
        step_after(StationEvent::Started(false)) == StationStep::Stop,
        step_after(StationEvent::Connected(true)) == StationStep::AwaitLoss,
{
}

} // verus!
