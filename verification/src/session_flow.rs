//! The sequence of a voice session: capture until the user stops, send the
//! bridge its `stop` exactly once, then wait for the final text and deliver
//! it once. The sockets, the timing and the waiting itself live with the
//! caller, which feeds each event in and performs the action that comes back.

use vstd::prelude::*;

verus! {

/// Where a session stands.
#[derive(Clone, Copy, Debug, PartialEq, Eq, Structural)]
pub enum SessionPhase {
    /// Audio is being captured and forwarded; `stop` has not been sent.
    Capturing,
    /// `stop` was sent; waiting for the final text.
    AwaitingFinal,
    /// The session is over.
    Ended,
}

/// What happened.
#[derive(Clone, Copy, Debug, PartialEq, Eq, Structural)]
pub enum FlowEvent {
    /// The user asked to stop recording.
    StopRequested,
    /// The session failed (a socket error, the bridge's own error, ...).
    Failed,
    /// The final text arrived.
    FinalArrived,
    /// The wait for the final text ran out.
    Deadline,
    /// The bridge closed its connection.
    BridgeClosed,
}

/// What the caller does next.
#[derive(Clone, Copy, Debug, PartialEq, Eq, Structural)]
pub enum FlowAction {
    /// Nothing.
    Nothing,
    /// Send the queued audio, then the `stop` command (and, on the way to the
    /// final text, the trailing silence).
    SendStop,
    /// Deliver the session's result text.
    Deliver,
}

/// One step: the stop request sends `stop` and starts the wait; a failure
/// before that still sends `stop` (so the bridge ends the session) and ends
/// it; while waiting, the final text, the deadline or a closed bridge end the
/// session with the result delivered, and a failure ends it without. An ended
/// session ignores everything.
pub open spec fn flow_step(phase: SessionPhase, event: FlowEvent) -> (SessionPhase, FlowAction) {
    match phase {
        SessionPhase::Capturing => match event {
            FlowEvent::StopRequested => (SessionPhase::AwaitingFinal, FlowAction::SendStop),
            FlowEvent::Failed | FlowEvent::BridgeClosed => (SessionPhase::Ended, FlowAction::SendStop),
            _ => (SessionPhase::Capturing, FlowAction::Nothing),
        },
        SessionPhase::AwaitingFinal => match event {
            FlowEvent::FinalArrived | FlowEvent::Deadline | FlowEvent::BridgeClosed => (
                SessionPhase::Ended,
                FlowAction::Deliver,
            ),
            FlowEvent::Failed => (SessionPhase::Ended, FlowAction::Nothing),
            FlowEvent::StopRequested => (SessionPhase::AwaitingFinal, FlowAction::Nothing),
        },
        SessionPhase::Ended => (SessionPhase::Ended, FlowAction::Nothing),
    }
}

/// The phase after a sequence of events.
pub open spec fn phase_after(phase: SessionPhase, events: Seq<FlowEvent>) -> SessionPhase
    decreases events.len(),
{
    if events.len() == 0 {
        phase
    } else {
        flow_step(phase_after(phase, events.drop_last()), events.last()).0
    }
}

/// How many times `action` comes back over a sequence of events.
pub open spec fn action_count(phase: SessionPhase, events: Seq<FlowEvent>, action: FlowAction) -> nat
    decreases events.len(),
{
    if events.len() == 0 {
        0
    } else {
        action_count(phase, events.drop_last(), action)
            + if flow_step(phase_after(phase, events.drop_last()), events.last()).1 == action { 1nat } else { 0nat }
    }
}

/// The session's sequencing state.
pub struct SessionFlow {
    phase: SessionPhase,
}

impl SessionFlow {
    pub closed spec fn phase_of(self) -> SessionPhase {
        self.phase
    }

    /// A session that has just sent its start commands.
    pub fn new() -> (flow: Self)
        ensures
            flow.phase_of() == SessionPhase::Capturing,
    {
        SessionFlow { phase: SessionPhase::Capturing }
    }

    pub fn phase(&self) -> (p: SessionPhase)
        ensures
            p == self.phase_of(),
    {
        self.phase
    }

    /// Takes one event and says what to do.
    pub fn step(&mut self, event: FlowEvent) -> (action: FlowAction)
        ensures
            (final(self).phase_of(), action) == flow_step(old(self).phase_of(), event),
    {
        let (next, action) = match self.phase {
            SessionPhase::Capturing => match event {
                FlowEvent::StopRequested => (SessionPhase::AwaitingFinal, FlowAction::SendStop),
                FlowEvent::Failed | FlowEvent::BridgeClosed => (SessionPhase::Ended, FlowAction::SendStop),
                _ => (SessionPhase::Capturing, FlowAction::Nothing),
            },
            SessionPhase::AwaitingFinal => match event {
                FlowEvent::FinalArrived | FlowEvent::Deadline | FlowEvent::BridgeClosed => (
                    SessionPhase::Ended,
                    FlowAction::Deliver,
                ),
                FlowEvent::Failed => (SessionPhase::Ended, FlowAction::Nothing),
                FlowEvent::StopRequested => (SessionPhase::AwaitingFinal, FlowAction::Nothing),
            },
            SessionPhase::Ended => (SessionPhase::Ended, FlowAction::Nothing),
        };
        self.phase = next;
        action
    }
}

/// Over any sequence of events from the start of a session, `stop` is sent
/// exactly once as soon as the session leaves capture, and never before; the
/// result is delivered at most once, only after `stop`, and only when the
/// session has ended.
pub proof fn lemma_stop_sent_once_then_result_delivered_once(events: Seq<FlowEvent>)
    ensures
        action_count(SessionPhase::Capturing, events, FlowAction::SendStop)
            == if phase_after(SessionPhase::Capturing, events) == SessionPhase::Capturing { 0nat } else { 1nat },
        action_count(SessionPhase::Capturing, events, FlowAction::Deliver) <= 1,
        action_count(SessionPhase::Capturing, events, FlowAction::Deliver) == 1 ==> phase_after(
            SessionPhase::Capturing,
            events,
        ) == SessionPhase::Ended,
        phase_after(SessionPhase::Capturing, events) != SessionPhase::Ended ==> action_count(
            SessionPhase::Capturing,
            events,
            FlowAction::Deliver,
        ) == 0,
    decreases events.len(),
{
    if events.len() > 0 {
        lemma_stop_sent_once_then_result_delivered_once(events.drop_last());
    }
}

/// The result is delivered when the final text arrives after `stop`: from
/// capture, whatever happened before, once `stop` was sent, the arrival of
/// the final text delivers the result exactly once and ends the session. A
/// stop request during capture always sends `stop` and starts the wait.
pub proof fn lemma_final_text_after_stop_is_delivered(events: Seq<FlowEvent>)
    ensures
        phase_after(SessionPhase::Capturing, events) == SessionPhase::Capturing ==> {
            let stopped = events.push(FlowEvent::StopRequested);
            &&& phase_after(SessionPhase::Capturing, stopped) == SessionPhase::AwaitingFinal
            &&& action_count(SessionPhase::Capturing, stopped, FlowAction::SendStop) == 1
        },
        phase_after(SessionPhase::Capturing, events) == SessionPhase::AwaitingFinal ==> {
            let delivered = events.push(FlowEvent::FinalArrived);
            &&& phase_after(SessionPhase::Capturing, delivered) == SessionPhase::Ended
            &&& action_count(SessionPhase::Capturing, delivered, FlowAction::Deliver) == 1
            &&& action_count(SessionPhase::Capturing, delivered, FlowAction::SendStop) == 1
        },
{
    lemma_stop_sent_once_then_result_delivered_once(events);
    assert(events.push(FlowEvent::StopRequested).drop_last() =~= events);
    assert(events.push(FlowEvent::FinalArrived).drop_last() =~= events);
}

/// Waiting for the final text ends either way: when the wait runs out or the
/// bridge closes, the result there is is still delivered once; only a failure
/// ends the wait without delivering.
pub proof fn lemma_wait_for_final_text_ends_with_delivery(events: Seq<FlowEvent>, last: FlowEvent)
    requires
        phase_after(SessionPhase::Capturing, events) == SessionPhase::AwaitingFinal,
        last != FlowEvent::StopRequested,
    ensures
        phase_after(SessionPhase::Capturing, events.push(last)) == SessionPhase::Ended,
        action_count(SessionPhase::Capturing, events.push(last), FlowAction::Deliver)
            == if last == FlowEvent::Failed { 0nat } else { 1nat },
{
    lemma_stop_sent_once_then_result_delivered_once(events);
    assert(events.push(last).drop_last() =~= events);
}

} // verus!
