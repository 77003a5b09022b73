//! Services that run a loop: wait for messages until the next update is due,
//! update, repeat, until asked to stop.
use core::time::Duration;
use vstd::prelude::*;

verus! {

/// What handling a message may ask of the loop.
#[derive(Debug, Clone, Copy, PartialEq, Eq, Structural)]
pub enum Interrupt {
    UpdateImmediately,
    Stop,
}

/// Where a service connects and how often it updates.
pub struct LifecycleSettings {
    pub name: String,
    pub broker_address: String,
    pub update_interval: Duration,
}

/// What the loop does after a message has been handled.
pub enum LifecycleStep {
    /// Keep waiting for messages until the update is due.
    KeepReceiving,
    /// Stop waiting and update now.
    UpdateNow,
    /// Stop the service.
    Stop,
}

/// The loop's next step, given what handling a message asked for.
pub fn step_after_message(interrupt: Option<Interrupt>) -> (step: LifecycleStep)
    ensures
        interrupt is None <==> step is KeepReceiving,
        interrupt == Some(Interrupt::UpdateImmediately) <==> step is UpdateNow,
        interrupt == Some(Interrupt::Stop) <==> step is Stop,
{
    match interrupt {
        None => LifecycleStep::KeepReceiving,
        Some(Interrupt::UpdateImmediately) => LifecycleStep::UpdateNow,
        Some(Interrupt::Stop) => LifecycleStep::Stop,
    }
}

} // verus!
