use vstd::prelude::*;

verus! {

/// How one step of transport I/O ended, as the readiness loop sees it.
#[derive(Clone, Copy, Debug, PartialEq, Eq, Structural)]
pub enum IoOutcome {
    Done,
    Interrupted,
    WouldBlock,
    Failed,
}

/// What the readiness loop does next.
#[derive(Clone, Copy, Debug, PartialEq, Eq, Structural)]
pub enum TickAction {
    /// Go round the loop again.
    Retry,
    /// Go on to the next step of this tick.
    Proceed,
    /// End the tick: nothing was ready this time.
    NoData,
    /// End the tick with the failure.
    Fail,
}

/// After waiting for readiness: an interrupted wait is transient, retried
/// where the tick may block and reported as no data otherwise; any other
/// failure ends the tick.
pub open spec fn poll_action(o: IoOutcome, can_block: bool) -> TickAction {
    match o {
        IoOutcome::Done => TickAction::Proceed,
        IoOutcome::Interrupted => if can_block {
            TickAction::Retry
        } else {
            TickAction::NoData
        },
        _ => TickAction::Fail,
    }
}

/// After asking TLS to complete pending record I/O: "would block" means
/// nothing is ready yet, retried where the tick may block and reported as no
/// data otherwise; any other failure ends the tick.
pub open spec fn record_io_action(o: IoOutcome, can_block: bool) -> TickAction {
    match o {
        IoOutcome::Done => TickAction::Proceed,
        IoOutcome::WouldBlock => if can_block {
            TickAction::Retry
        } else {
            TickAction::NoData
        },
        _ => TickAction::Fail,
    }
}

pub fn after_poll(o: IoOutcome, can_block: bool) -> (r: TickAction)
    ensures
        r == poll_action(o, can_block),
{
    match o {
        IoOutcome::Done => TickAction::Proceed,
        IoOutcome::Interrupted => if can_block {
            TickAction::Retry
        } else {
            TickAction::NoData
        },
        _ => TickAction::Fail,
    }
}

pub fn after_record_io(o: IoOutcome, can_block: bool) -> (r: TickAction)
    ensures
        r == record_io_action(o, can_block),
{
    match o {
        IoOutcome::Done => TickAction::Proceed,
        IoOutcome::WouldBlock => if can_block {
            TickAction::Retry
        } else {
            TickAction::NoData
        },
        _ => TickAction::Fail,
    }
}

} // verus!
