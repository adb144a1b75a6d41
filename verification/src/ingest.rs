//! The ingestion loop as a state machine. The runtime owns the blocking
//! read: it asks [`loop_step`] what to do, does it, and comes back with
//! what happened. A record that the codec accepts is committed to the
//! history and to the broadcaster together.

use vstd::prelude::*;
use socketcan::CanFrame;
use crate::bounded::appended;
use crate::fanout::{published, Broadcaster};
use crate::history::HistoryStore;
use crate::message::{normalize, rejection, CanMessage, InvalidFrame, RawFrame, MAX_PAYLOAD};
use crate::wire::{frame_dlc, frame_view, read_raw};

verus! {

/// `ENXIO`: no such device or address.
pub const OS_NO_DEVICE_OR_ADDRESS: i32 = 6;

/// `ENODEV`: no such device.
pub const OS_NO_DEVICE: i32 = 19;

/// `ENETDOWN`: the network interface is down.
pub const OS_NETWORK_DOWN: i32 = 100;

/// How a read from the bus failed.
#[derive(Clone, Copy, Debug, PartialEq, Eq, Structural)]
pub enum ReadFault {
    /// A passing condition: the next read may succeed.
    Transient,
    /// The transport is gone: no read will succeed again.
    TransportGone,
}

/// Whether an operating system error code says that the bus interface
/// itself has disappeared.
pub open spec fn transport_gone(os_error: Option<i32>) -> bool {
    os_error == Some(OS_NO_DEVICE_OR_ADDRESS) || os_error == Some(OS_NO_DEVICE) || os_error == Some(
        OS_NETWORK_DOWN,
    )
}

/// Judges a failed read by the operating system's error code, if it gave
/// one: a missing device or a downed interface is final, anything else
/// passes.
pub fn classify_read_failure(os_error: Option<i32>) -> (fault: ReadFault)
    ensures
        fault == if transport_gone(os_error) {
            ReadFault::TransportGone
        } else {
            ReadFault::Transient
        },
{
    match os_error {
        Some(code) => {
            if code == OS_NO_DEVICE_OR_ADDRESS || code == OS_NO_DEVICE || code == OS_NETWORK_DOWN {
                ReadFault::TransportGone
            } else {
                ReadFault::Transient
            }
        },
        None => ReadFault::Transient,
    }
}

/// Where the ingestion loop stands.
#[derive(Clone, Copy, Debug, PartialEq, Eq, Structural)]
pub enum LoopState {
    /// Between two reads: the shutdown signal is looked at next.
    Running,
    /// A blocking read is under way.
    Reading,
    /// Shutdown was seen; the loop is winding down.
    Draining,
    /// The loop has ended.
    Stopped,
}

/// What the runtime reports to the loop.
#[derive(Debug)]
pub enum LoopEvent {
    /// The shutdown signal as it was read between two iterations.
    Poll { shutdown_requested: bool },
    /// The read returned a frame.
    Frame(RawFrame),
    /// The read returned a frame that could not be read into a raw message.
    Unreadable(InvalidFrame),
    /// The read failed.
    ReadFailed(ReadFault),
    /// Winding down is done.
    Drained,
}

/// Why the loop ended.
#[derive(Clone, Copy, Debug, PartialEq, Eq, Structural)]
pub enum StopReason {
    /// Shutdown was requested.
    ShutdownRequested,
    /// The transport is gone; the owner of the process has to know.
    TransportGone,
}

/// What is reported and then forgotten.
#[derive(Clone, Copy, Debug, PartialEq, Eq, Structural)]
pub enum Diagnostic {
    /// The codec refused the frame; the frame is dropped.
    Invalid(InvalidFrame),
    /// The read failed in passing.
    TransientIo,
}

/// What the runtime has to do next.
#[derive(Debug)]
pub enum LoopAction {
    /// Start a blocking read and report its outcome.
    Read,
    /// Commit the record to history and broadcaster, then poll again.
    Commit(CanMessage),
    /// Report the diagnostic, then poll again.
    Report(Diagnostic),
    /// Wind down, then report `Drained`.
    Drain,
    /// Leave the loop for the given reason.
    Halt(StopReason),
    /// The event was not awaited in this state: there is nothing to do.
    Nothing,
}

/// Whether `event` is the kind of event that `state` waits for.
pub open spec fn awaited(state: LoopState, event: LoopEvent) -> bool {
    match state {
        LoopState::Running => event is Poll,
        LoopState::Reading => event is Frame || event is Unreadable || event is ReadFailed,
        LoopState::Draining => event is Drained,
        LoopState::Stopped => false,
    }
}

/// The state that follows `state` on `event`. An event that is not awaited
/// leaves the state as it is.
pub open spec fn next_loop_state(state: LoopState, event: LoopEvent) -> LoopState {
    match (state, event) {
        (LoopState::Running, LoopEvent::Poll { shutdown_requested }) => if shutdown_requested {
            LoopState::Draining
        } else {
            LoopState::Reading
        },
        (LoopState::Reading, LoopEvent::Frame(_)) => LoopState::Running,
        (LoopState::Reading, LoopEvent::Unreadable(_)) => LoopState::Running,
        (LoopState::Reading, LoopEvent::ReadFailed(ReadFault::Transient)) => LoopState::Running,
        (LoopState::Reading, LoopEvent::ReadFailed(ReadFault::TransportGone)) => LoopState::Stopped,
        (LoopState::Draining, LoopEvent::Drained) => LoopState::Stopped,
        _ => state,
    }
}

/// The event that a frame from the driver makes: the raw message it
/// holds, or the reason for which it cannot be read into one.
pub fn frame_event(frame: &CanFrame) -> (event: LoopEvent)
    ensures
        match event {
            LoopEvent::Frame(raw) => frame_dlc(*frame) <= MAX_PAYLOAD && raw@ == frame_view(*frame),
            LoopEvent::Unreadable(e) => frame_dlc(*frame) > MAX_PAYLOAD && e
                == InvalidFrame::PayloadTooLong,
            _ => false,
        },
{
    match read_raw(frame) {
        Ok(raw) => LoopEvent::Frame(raw),
        Err(e) => LoopEvent::Unreadable(e),
    }
}

/// The state the loop starts in.
pub fn loop_start() -> (s: LoopState)
    ensures
        s == LoopState::Running,
{
    LoopState::Running
}

/// One step of the ingestion loop: the next state and what to do.
///
/// Between two reads the shutdown signal decides between the next read and
/// winding down. A frame that was read goes through the codec: the record
/// is to be committed, a refusal is to be reported, and either way the
/// loop runs on; so it does on a frame that could not be read. A passing read failure is reported and the loop runs on;
/// a lost transport ends it at once. An event that the state does not wait
/// for changes nothing.
pub fn loop_step(state: LoopState, event: LoopEvent) -> (r: (LoopState, LoopAction))
    ensures
        r.0 == next_loop_state(state, event),
        match r.1 {
            LoopAction::Read => state == LoopState::Running && event == (LoopEvent::Poll {
                shutdown_requested: false,
            }),
            LoopAction::Drain => state == LoopState::Running && event == (LoopEvent::Poll {
                shutdown_requested: true,
            }),
            LoopAction::Commit(record) => state == LoopState::Reading && (event matches LoopEvent::Frame(
                raw,
            ) && rejection(raw@) is None && record@ == raw@),
            LoopAction::Report(Diagnostic::Invalid(e)) => state == LoopState::Reading && (event
                == LoopEvent::Unreadable(e) || (event matches LoopEvent::Frame(raw) && rejection(
                raw@,
            ) == Some(e))),
            LoopAction::Report(Diagnostic::TransientIo) => state == LoopState::Reading && event
                == LoopEvent::ReadFailed(ReadFault::Transient),
            LoopAction::Halt(StopReason::TransportGone) => state == LoopState::Reading && event
                == LoopEvent::ReadFailed(ReadFault::TransportGone),
            LoopAction::Halt(StopReason::ShutdownRequested) => state == LoopState::Draining
                && event is Drained,
            LoopAction::Nothing => !awaited(state, event),
        },
{
    match state {
        LoopState::Running => match event {
            LoopEvent::Poll { shutdown_requested } => {
                if shutdown_requested {
                    (LoopState::Draining, LoopAction::Drain)
                } else {
                    (LoopState::Reading, LoopAction::Read)
                }
            },
            _ => (LoopState::Running, LoopAction::Nothing),
        },
        LoopState::Reading => match event {
            LoopEvent::Frame(raw) => match normalize(raw) {
                Ok(record) => (LoopState::Running, LoopAction::Commit(record)),
                Err(e) => (LoopState::Running, LoopAction::Report(Diagnostic::Invalid(e))),
            },
            LoopEvent::Unreadable(e) => (
                LoopState::Running,
                LoopAction::Report(Diagnostic::Invalid(e)),
            ),
            LoopEvent::ReadFailed(fault) => match fault {
                ReadFault::Transient => (
                    LoopState::Running,
                    LoopAction::Report(Diagnostic::TransientIo),
                ),
                ReadFault::TransportGone => (
                    LoopState::Stopped,
                    LoopAction::Halt(StopReason::TransportGone),
                ),
            },
            _ => (LoopState::Reading, LoopAction::Nothing),
        },
        LoopState::Draining => match event {
            LoopEvent::Drained => (
                LoopState::Stopped,
                LoopAction::Halt(StopReason::ShutdownRequested),
            ),
            _ => (LoopState::Draining, LoopAction::Nothing),
        },
        LoopState::Stopped => (LoopState::Stopped, LoopAction::Nothing),
    }
}

/// The state reached from `state` after the events of `events`, in order.
pub open spec fn loop_state_after(state: LoopState, events: Seq<LoopEvent>) -> LoopState
    decreases events.len(),
{
    if events.len() == 0 {
        state
    } else {
        loop_state_after(next_loop_state(state, events.first()), events.drop_first())
    }
}

/// Whether the loop, started in `state`, was handed at each step an event
/// that it waited for, each look at the shutdown signal finding it set.
pub open spec fn driven_after_request(state: LoopState, events: Seq<LoopEvent>) -> bool
    decreases events.len(),
{
    events.len() == 0 || {
        &&& awaited(state, events.first())
        &&& events.first() matches LoopEvent::Poll { shutdown_requested } ==> shutdown_requested
        &&& driven_after_request(next_loop_state(state, events.first()), events.drop_first())
    }
}

/// The number of reads that come to an end while the loop, started in
/// `state`, goes through `events`.
pub open spec fn reads_completed(state: LoopState, events: Seq<LoopEvent>) -> nat
    decreases events.len(),
{
    if events.len() == 0 {
        0
    } else {
        let here: nat = if state == LoopState::Reading && awaited(state, events.first()) {
            1
        } else {
            0
        };
        here + reads_completed(next_loop_state(state, events.first()), events.drop_first())
    }
}

/// The number of reads that begin while the loop, started in `state`,
/// goes through `events`.
pub open spec fn reads_started(state: LoopState, events: Seq<LoopEvent>) -> nat
    decreases events.len(),
{
    if events.len() == 0 {
        0
    } else {
        let next = next_loop_state(state, events.first());
        let here: nat = if state != LoopState::Reading && next == LoopState::Reading {
            1
        } else {
            0
        };
        here + reads_started(next, events.drop_first())
    }
}

/// The number of steps that separate `state` from the end of the loop at
/// most, once shutdown has been requested.
pub open spec fn steps_to_stop(state: LoopState) -> nat {
    match state {
        LoopState::Reading => 3,
        LoopState::Running => 2,
        LoopState::Draining => 1,
        LoopState::Stopped => 0,
    }
}

/// Once shutdown has been requested, every step brings the loop nearer to
/// its end, and none begins a read.
pub proof fn lemma_step_after_request(state: LoopState, event: LoopEvent)
    requires
        awaited(state, event),
        event matches LoopEvent::Poll { shutdown_requested } ==> shutdown_requested,
    ensures
        steps_to_stop(next_loop_state(state, event)) < steps_to_stop(state),
        next_loop_state(state, event) != LoopState::Reading,
{
}

/// After shutdown has been requested the loop begins no read and brings
/// at most one to an end, the one that was under way; it takes three steps
/// at most, and after as many steps as its state allows it has stopped.
pub proof fn lemma_shutdown_bound(state: LoopState, events: Seq<LoopEvent>)
    requires
        driven_after_request(state, events),
    ensures
        reads_started(state, events) == 0,
        reads_completed(state, events) <= 1,
        reads_completed(state, events) == 1 ==> state == LoopState::Reading,
        events.len() + steps_to_stop(loop_state_after(state, events)) <= steps_to_stop(state),
        events.len() <= 3,
        events.len() == steps_to_stop(state) ==> loop_state_after(state, events)
            == LoopState::Stopped,
    decreases events.len(),
{
    if events.len() > 0 {
        lemma_step_after_request(state, events.first());
        lemma_shutdown_bound(next_loop_state(state, events.first()), events.drop_first());
    }
}

/// A loop that has stopped stays stopped.
pub proof fn lemma_stopped_is_final(events: Seq<LoopEvent>)
    ensures
        loop_state_after(LoopState::Stopped, events) == LoopState::Stopped,
    decreases events.len(),
{
    if events.len() > 0 {
        lemma_stopped_is_final(events.drop_first());
    }
}

/// Puts one record into the history and hands it to every subscriber: the
/// two never see different records.
pub fn commit(store: &mut HistoryStore, hub: &mut Broadcaster, record: CanMessage)
    ensures
        final(store).capacity_spec() == old(store).capacity_spec(),
        final(hub).capacity_spec() == old(hub).capacity_spec(),
        final(hub).issued_spec() == old(hub).issued_spec(),
        final(store)@ == appended(old(store)@, record@, old(store).capacity_spec()),
        final(hub)@ == published(old(hub)@, record@, old(hub).capacity_spec()),
{
    hub.publish(&record);
    store.append(record);
}

/// Runs one frame through the codec and commits the record. A frame that
/// the codec refuses changes neither the history nor any queue.
pub fn ingest(store: &mut HistoryStore, hub: &mut Broadcaster, raw: RawFrame) -> (r: Result<
    (),
    InvalidFrame,
>)
    ensures
        final(store).capacity_spec() == old(store).capacity_spec(),
        final(hub).capacity_spec() == old(hub).capacity_spec(),
        final(hub).issued_spec() == old(hub).issued_spec(),
        match r {
            Ok(_) => {
                &&& rejection(raw@) is None
                &&& final(store)@ == appended(old(store)@, raw@, old(store).capacity_spec())
                &&& final(hub)@ == published(old(hub)@, raw@, old(hub).capacity_spec())
            },
            Err(e) => {
                &&& rejection(raw@) == Some(e)
                &&& final(store)@ == old(store)@
                &&& final(hub)@ == old(hub)@
            },
        },
{
    match normalize(raw) {
        Ok(record) => {
            commit(store, hub, record);
            Ok(())
        },
        Err(e) => Err(e),
    }
}

} // verus!
