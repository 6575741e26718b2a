//! Messages exchanged with a local test Runner process.
//!
//! The application carries them over a WebSocket as JSON objects tagged by
//! `type`; here they are plain values.

use vstd::prelude::*;

verus! {

/// Commands sent to the Runner.
#[derive(Debug, Clone)]
pub enum RunnerCommand {
    RunTest { feature: String, scenario: String },
    StopTest,
    Ping,
}

/// Events received from the Runner.
#[derive(Debug, Clone)]
pub enum RunnerEvent {
    TestStarted { scenario: String },
    TestStep { step: String, status: String },
    TestOutput { line: String },
    TestFinished { scenario: String, status: String, duration_ms: u64 },
    Pong,
}

/// What arrives on the Runner's socket, as plain values; a text message is
/// given as the event it was read as, or `None` when it was not one.
#[derive(Debug, Clone)]
pub enum SocketEvent {
    Opened,
    Closed,
    Error,
    Message(Option<RunnerEvent>),
    Other,
}

/// Whether the connection is up after a socket event.
pub open spec fn connected_after(connected: bool, e: SocketEvent) -> bool {
    match e {
        SocketEvent::Opened => true,
        SocketEvent::Closed => false,
        _ => connected,
    }
}

/// The connection state after socket events, and the Runner events they
/// carried, in order.
pub open spec fn socket_step(connected: bool, es: Seq<SocketEvent>) -> (bool, Seq<RunnerEvent>)
    decreases es.len(),
{
    if es.len() == 0 {
        (connected, seq![])
    } else {
        let before = socket_step(connected, es.drop_last());
        (
            connected_after(before.0, es.last()),
            match es.last() {
                SocketEvent::Message(Some(ev)) => before.1.push(ev),
                _ => before.1,
            },
        )
    }
}

/// A copy of an event.
fn copy_event(e: &RunnerEvent) -> (r: RunnerEvent)
    ensures
        r == *e,
{
    match e {
        RunnerEvent::TestStarted { scenario } => RunnerEvent::TestStarted { scenario: scenario.clone() },
        RunnerEvent::TestStep { step, status } => RunnerEvent::TestStep {
            step: step.clone(),
            status: status.clone(),
        },
        RunnerEvent::TestOutput { line } => RunnerEvent::TestOutput { line: line.clone() },
        RunnerEvent::TestFinished { scenario, status, duration_ms } => RunnerEvent::TestFinished {
            scenario: scenario.clone(),
            status: status.clone(),
            duration_ms: *duration_ms,
        },
        RunnerEvent::Pong => RunnerEvent::Pong,
    }
}

/// Reads one poll's socket events: an opened socket connects, a closed one
/// disconnects, and the Runner events that messages carried are returned in
/// order (messages that were not events are skipped).
pub fn collect_socket_events(connected: &mut bool, incoming: Vec<SocketEvent>) -> (events: Vec<RunnerEvent>)
    ensures
        (*final(connected), events@) == socket_step(*old(connected), incoming@),
{
    let ghost c0 = *connected;
    let mut events: Vec<RunnerEvent> = Vec::new();
    let mut i: usize = 0;
    assert(incoming@.take(0) =~= Seq::<SocketEvent>::empty());
    while i < incoming.len()
        invariant
            i <= incoming.len(),
            (*connected, events@) == socket_step(c0, incoming@.take(i as int)),
        decreases incoming.len() - i,
    {
        proof {
            assert(incoming@.take(i + 1).drop_last() =~= incoming@.take(i as int));
            assert(incoming@.take(i + 1).last() == incoming@[i as int]);
        }
        match &incoming[i] {
            SocketEvent::Opened => {
                *connected = true;
            },
            SocketEvent::Closed => {
                *connected = false;
            },
            SocketEvent::Message(Some(ev)) => {
                events.push(copy_event(ev));
            },
            _ => {},
        }
        i += 1;
    }
    assert(incoming@.take(incoming.len() as int) =~= incoming@);
    events
}

} // verus!
