//! The client side of the protocol: the connection lifecycle and the
//! request round trip.
//!
//! The socket is established lazily, on the first operation that needs it.
//! One direct connect is tried with a short timeout; if nothing is
//! listening, the viewer is launched as a detached subprocess and connecting
//! is retried at a fixed interval until it succeeds or the boot deadline
//! runs out. The lifecycle is a state machine from phase and event to next
//! phase and action; the caller performs the action (connect, launch,
//! sleep) and reports the outcome back as the next event.

use vstd::prelude::*;

use crate::codec::WireError;
use crate::msg::{CameraView, Message, Response};

verus! {

/// Timeout of the first direct connect attempt, in milliseconds.
pub const CONNECT_TIMEOUT_MS: u64 = 50;

/// Pause between connect attempts against a freshly launched viewer.
pub const RETRY_INTERVAL_MS: u64 = 50;

/// How long a freshly launched viewer gets to become connectable.
pub const BOOT_DEADLINE_MS: u64 = 5000;

/// Where the connection lifecycle stands.
#[derive(Clone, Copy, Debug, PartialEq, Eq, Structural)]
pub enum ConnectPhase {
    /// No operation has needed the socket yet; construction has no side
    /// effects.
    Unconnected,
    /// The one direct connect attempt is in flight.
    Connecting,
    /// Nothing was listening; the viewer is being launched.
    Launching,
    /// Connecting to the freshly launched viewer; `elapsed_ms` of the boot
    /// deadline are already spent sleeping.
    Retrying { elapsed_ms: u64 },
    /// The socket is up; all later operations reuse it.
    Connected,
    /// The viewer did not come up before the boot deadline.
    Failed,
}

/// What the environment reports back to the lifecycle.
#[derive(Clone, Copy, Debug, PartialEq, Eq, Structural)]
pub enum ConnectEvent {
    /// The first operation needs a live socket.
    OpenRequested,
    /// A connect attempt completed with a socket.
    ConnectSucceeded,
    /// A connect attempt found nothing listening, or timed out.
    ConnectFailed,
    /// The viewer process was spawned, detached, its output discarded.
    ViewerLaunched,
}

/// What the caller must do next.
#[derive(Clone, Copy, Debug, PartialEq, Eq, Structural)]
pub enum ConnectAction {
    /// Try one direct connect with the given timeout.
    AttemptConnect { timeout_ms: u64 },
    /// Spawn the viewer as a detached subprocess.
    LaunchViewer,
    /// Sleep for the given interval, then try to connect again.
    SleepThenConnect { sleep_ms: u64 },
    /// Give up and surface a could-not-establish-connection error.
    ReportFailure,
    /// Nothing is left to do: the connection is ready for use.
    UseConnection,
}

/// The events a phase can receive. `Connected` and `Failed` are final.
pub open spec fn phase_expects(phase: ConnectPhase, event: ConnectEvent) -> bool {
    match phase {
        ConnectPhase::Unconnected => event is OpenRequested,
        ConnectPhase::Connecting => event is ConnectSucceeded || event is ConnectFailed,
        ConnectPhase::Launching => event is ViewerLaunched,
        ConnectPhase::Retrying { .. } => event is ConnectSucceeded || event is ConnectFailed,
        ConnectPhase::Connected => false,
        ConnectPhase::Failed => false,
    }
}

/// A phase the lifecycle can actually be in: time spent retrying never
/// reaches the boot deadline.
pub open spec fn phase_wf(phase: ConnectPhase) -> bool {
    phase matches ConnectPhase::Retrying { elapsed_ms } ==> elapsed_ms < BOOT_DEADLINE_MS
}

/// The whole transition table of the lifecycle.
pub open spec fn spec_connect_step(phase: ConnectPhase, event: ConnectEvent) -> (
    ConnectPhase,
    ConnectAction,
)
    recommends
        phase_expects(phase, event),
{
    match phase {
        ConnectPhase::Unconnected => (
            ConnectPhase::Connecting,
            ConnectAction::AttemptConnect { timeout_ms: CONNECT_TIMEOUT_MS },
        ),
        ConnectPhase::Connecting => if event is ConnectSucceeded {
            (ConnectPhase::Connected, ConnectAction::UseConnection)
        } else {
            (ConnectPhase::Launching, ConnectAction::LaunchViewer)
        },
        ConnectPhase::Launching => (
            ConnectPhase::Retrying { elapsed_ms: 0 },
            ConnectAction::AttemptConnect { timeout_ms: CONNECT_TIMEOUT_MS },
        ),
        ConnectPhase::Retrying { elapsed_ms } => if event is ConnectSucceeded {
            (ConnectPhase::Connected, ConnectAction::UseConnection)
        } else if elapsed_ms + RETRY_INTERVAL_MS < BOOT_DEADLINE_MS {
            (
                ConnectPhase::Retrying { elapsed_ms: (elapsed_ms + RETRY_INTERVAL_MS) as u64 },
                ConnectAction::SleepThenConnect { sleep_ms: RETRY_INTERVAL_MS },
            )
        } else {
            (ConnectPhase::Failed, ConnectAction::ReportFailure)
        },
        ConnectPhase::Connected => (ConnectPhase::Connected, ConnectAction::UseConnection),
        ConnectPhase::Failed => (ConnectPhase::Failed, ConnectAction::ReportFailure),
    }
}

/// Advances the lifecycle by one event. The viewer is launched exactly on
/// the transition out of the failed direct attempt, and never from any
/// phase after it.
pub fn connect_step(phase: ConnectPhase, event: ConnectEvent) -> (r: (ConnectPhase, ConnectAction))
    requires
        phase_expects(phase, event),
        phase_wf(phase),
    ensures
        r == spec_connect_step(phase, event),
        phase_wf(r.0),
        r.1 is LaunchViewer <==> phase is Connecting && event is ConnectFailed,
{
    match phase {
        ConnectPhase::Unconnected => (
            ConnectPhase::Connecting,
            ConnectAction::AttemptConnect { timeout_ms: CONNECT_TIMEOUT_MS },
        ),
        ConnectPhase::Connecting => {
            match event {
                ConnectEvent::ConnectSucceeded => (
                    ConnectPhase::Connected,
                    ConnectAction::UseConnection,
                ),
                _ => (ConnectPhase::Launching, ConnectAction::LaunchViewer),
            }
        },
        ConnectPhase::Launching => (
            ConnectPhase::Retrying { elapsed_ms: 0 },
            ConnectAction::AttemptConnect { timeout_ms: CONNECT_TIMEOUT_MS },
        ),
        ConnectPhase::Retrying { elapsed_ms } => {
            match event {
                ConnectEvent::ConnectSucceeded => (
                    ConnectPhase::Connected,
                    ConnectAction::UseConnection,
                ),
                _ => {
                    if elapsed_ms + RETRY_INTERVAL_MS < BOOT_DEADLINE_MS {
                        (
                            ConnectPhase::Retrying { elapsed_ms: elapsed_ms + RETRY_INTERVAL_MS },
                            ConnectAction::SleepThenConnect { sleep_ms: RETRY_INTERVAL_MS },
                        )
                    } else {
                        (ConnectPhase::Failed, ConnectAction::ReportFailure)
                    }
                },
            }
        },
        ConnectPhase::Connected => (ConnectPhase::Connected, ConnectAction::UseConnection),
        ConnectPhase::Failed => (ConnectPhase::Failed, ConnectAction::ReportFailure),
    }
}

// ---------------------------------------------------------------------------
// Whole runs of the lifecycle.
// ---------------------------------------------------------------------------

/// The phase a run of events ends in.
pub open spec fn spec_run_phase(phase: ConnectPhase, events: Seq<ConnectEvent>) -> ConnectPhase
    decreases events.len(),
{
    if events.len() == 0 {
        phase
    } else {
        spec_run_phase(spec_connect_step(phase, events[0]).0, events.drop_first())
    }
}

/// Every event of the run arrives in a phase that expects it.
pub open spec fn events_admissible(phase: ConnectPhase, events: Seq<ConnectEvent>) -> bool
    decreases events.len(),
{
    events.len() == 0 || (phase_expects(phase, events[0]) && events_admissible(
        spec_connect_step(phase, events[0]).0,
        events.drop_first(),
    ))
}

/// How many launch actions a run of events produces.
pub open spec fn spec_launch_count(phase: ConnectPhase, events: Seq<ConnectEvent>) -> nat
    decreases events.len(),
{
    if events.len() == 0 {
        0
    } else {
        (if spec_connect_step(phase, events[0]).1 is LaunchViewer {
            1nat
        } else {
            0nat
        }) + spec_launch_count(spec_connect_step(phase, events[0]).0, events.drop_first())
    }
}

/// Only the two phases before the first connect outcome can still lead to
/// a launch.
pub open spec fn may_still_launch(phase: ConnectPhase) -> bool {
    phase is Unconnected || phase is Connecting
}

/// In any admissible run, the viewer is launched at most once; once past
/// the first direct connect outcome, never again.
pub proof fn lemma_launches_bounded(phase: ConnectPhase, events: Seq<ConnectEvent>)
    requires
        events_admissible(phase, events),
    ensures
        spec_launch_count(phase, events) <= if may_still_launch(phase) {
            1nat
        } else {
            0nat
        },
    decreases events.len(),
{
    if events.len() == 0 {
    } else {
        let next = spec_connect_step(phase, events[0]).0;
        lemma_launches_bounded(next, events.drop_first());
    }
}

/// Connect-or-launch: a client that starts with no socket launches the
/// viewer at most once, whatever happens.
pub proof fn lemma_at_most_one_launch(events: Seq<ConnectEvent>)
    requires
        events_admissible(ConnectPhase::Unconnected, events),
    ensures
        spec_launch_count(ConnectPhase::Unconnected, events) <= 1,
{
    lemma_launches_bounded(ConnectPhase::Unconnected, events);
}

/// Connect-or-launch: when nothing is listening — the first operation's
/// direct connect attempt fails — exactly one subprocess launch follows.
pub proof fn lemma_exactly_one_launch(events: Seq<ConnectEvent>)
    requires
        events_admissible(ConnectPhase::Unconnected, events),
        events.len() >= 2,
        events[0] is OpenRequested,
        events[1] is ConnectFailed,
    ensures
        spec_launch_count(ConnectPhase::Unconnected, events) == 1,
{
    let rest1 = events.drop_first();
    let rest2 = rest1.drop_first();
    assert(spec_connect_step(ConnectPhase::Unconnected, events[0]).0 is Connecting);
    assert(rest1[0] == events[1]);
    assert(spec_connect_step(ConnectPhase::Connecting, rest1[0]).1 is LaunchViewer);
    assert(events_admissible(ConnectPhase::Connecting, rest1));
    assert(events_admissible(ConnectPhase::Launching, rest2));
    assert(spec_launch_count(ConnectPhase::Unconnected, events) == spec_launch_count(
        ConnectPhase::Connecting,
        rest1,
    ));
    assert(spec_launch_count(ConnectPhase::Connecting, rest1) == 1 + spec_launch_count(
        ConnectPhase::Launching,
        rest2,
    ));
    lemma_launches_bounded(ConnectPhase::Launching, rest2);
}

/// The retry loop respects the boot deadline: a run that starts in a
/// well-formed phase ends in one, so the time spent sleeping between
/// attempts never reaches the deadline.
pub proof fn lemma_retry_within_deadline(phase: ConnectPhase, events: Seq<ConnectEvent>)
    requires
        events_admissible(phase, events),
        phase_wf(phase),
    ensures
        phase_wf(spec_run_phase(phase, events)),
    decreases events.len(),
{
    if events.len() == 0 {
    } else {
        let next = spec_connect_step(phase, events[0]).0;
        lemma_retry_within_deadline(next, events.drop_first());
    }
}

// ---------------------------------------------------------------------------
// The request round trip.
// ---------------------------------------------------------------------------

/// Checks the one reply a view request is owed. The server is contractually
/// obligated to answer with a view; any other variant is a protocol
/// violation, surfaced as an error and never substituted with a default.
pub fn check_reply(r: &Response) -> (v: Result<CameraView, WireError>)
    ensures
        match *r {
            Response::GetView(w) => v == Ok::<CameraView, WireError>(w),
            Response::Other => v == Err::<CameraView, WireError>(WireError::UnexpectedReply),
        },
{
    match r {
        Response::GetView(w) => Ok(*w),
        Response::Other => Err(WireError::UnexpectedReply),
    }
}

/// The half-duplex discipline on one connection: at most one unanswered
/// request at any time. A fire-and-forget message leaves nothing in
/// flight, so the caller returns without reading a reply; a view request
/// leaves exactly one, and the next send is allowed only after the reply
/// is recorded.
pub struct ClientSession {
    pub in_flight: bool,
}

impl ClientSession {
    pub fn new() -> (s: ClientSession)
        ensures
            !s.in_flight,
    {
        ClientSession { in_flight: false }
    }

    /// Records one message going out on the connection.
    pub fn record_send(&mut self, m: &Message)
        requires
            !old(self).in_flight,
        ensures
            final(self).in_flight == m.spec_requires_response(),
    {
        self.in_flight = m.requires_response();
    }

    /// Records the one reply to the outstanding request.
    pub fn record_reply(&mut self)
        requires
            old(self).in_flight,
        ensures
            !final(self).in_flight,
    {
        self.in_flight = false;
    }
}

} // verus!
