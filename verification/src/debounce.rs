//! Many process events, one pass.

use vstd::prelude::*;

use crate::state::ReconcileTrigger;

verus! {

/// How long process events are gathered, in milliseconds.
pub const DEBOUNCE_MS: u64 = 150;

/// What happens while process events are gathered.
#[derive(Debug, Clone, PartialEq, Eq)]
pub enum Arrival {
    /// The time is over.
    WindowOver,
    /// A trigger came.
    Trigger(ReconcileTrigger),
    /// No trigger will come any more.
    Closed,
}

/// The trigger to run a pass with: more process events are gathered; anything else
/// that comes is run at once.
pub open spec fn gathered(a: Arrival) -> Option<ReconcileTrigger> {
    match a {
        Arrival::WindowOver => Some(ReconcileTrigger::ProcEvent),
        Arrival::Trigger(ReconcileTrigger::ProcEvent) => None,
        Arrival::Trigger(t) => Some(t),
        Arrival::Closed => Some(ReconcileTrigger::ProcEvent),
    }
}

/// The trigger to run a pass with; nothing while there is more to gather.
pub fn gather(a: Arrival) -> (r: Option<ReconcileTrigger>)
    ensures
        r == gathered(a),
{
    match a {
        Arrival::WindowOver => Some(ReconcileTrigger::ProcEvent),
        Arrival::Trigger(t) => match t {
            ReconcileTrigger::ProcEvent => None,
            other => Some(other),
        },
        Arrival::Closed => Some(ReconcileTrigger::ProcEvent),
    }
}

/// Whether a trigger is gathered with others: only process events are.
pub fn is_gathered(t: &ReconcileTrigger) -> (r: bool)
    ensures
        r == (*t == ReconcileTrigger::ProcEvent),
{
    match t {
        ReconcileTrigger::ProcEvent => true,
        _ => false,
    }
}

/// A trigger that is no process event is never lost while events are gathered.
pub proof fn deliberate_triggers_are_not_lost(t: ReconcileTrigger)
    requires
        t != ReconcileTrigger::ProcEvent,
    ensures
        gathered(Arrival::Trigger(t)) == Some(t),
{
}

/// Process events are gathered until the time is over or nothing can come any more; then
/// one pass is run for all of them.
pub proof fn events_make_one_pass()
    ensures
        gathered(Arrival::Trigger(ReconcileTrigger::ProcEvent)) is None,
        gathered(Arrival::WindowOver) == Some(ReconcileTrigger::ProcEvent),
        gathered(Arrival::Closed) == Some(ReconcileTrigger::ProcEvent),
{
}

} // verus!
