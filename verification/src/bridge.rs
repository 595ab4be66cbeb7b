//! The per-client bridge: a deterministic state machine that turns observed
//! session events into wire frames and client frames into shell actions.
//! The host performs the I/O around it and feeds in one event per step.

use vstd::prelude::*;
use crate::codec::{
    be16, encode_frame, parse_client_frame, ClientCommand, CMD_INPUT, CMD_OUTPUT, CMD_RESIZE,
    CMD_SCROLLBACK, CMD_SESSION_ID, CMD_SHELL_EXIT,
};

verus! {

/// What the bridge observed, one event per step.
pub enum BridgeEvent {
    /// A chunk arrived on the client's output subscription.
    Output { data: Vec<u8> },
    /// The subscription skipped `count` messages; the stream continues.
    Lagged { count: u64 },
    /// The output broadcast ended.
    StreamEnded,
    /// A binary frame arrived from the client.
    ClientFrame { data: Vec<u8> },
    /// The client closed the connection, or the wire failed.
    ClientGone,
    /// A client message of another kind; ignored.
    ClientOther,
    /// The shell's closed signal latched true; `drained` holds whatever
    /// output was still buffered on the subscription.
    ShellClosed { drained: Vec<Vec<u8>> },
}

/// The ghost mirror of an event, over byte sequences.
pub enum EventModel {
    Output { data: Seq<u8> },
    Lagged { count: u64 },
    StreamEnded,
    ClientFrame { data: Seq<u8> },
    ClientGone,
    ClientOther,
    ShellClosed { drained: Seq<Seq<u8>> },
}

impl BridgeEvent {
    /// The event as the trace model sees it.
    pub open spec fn model(&self) -> EventModel {
        match self {
            BridgeEvent::Output { data } => EventModel::Output { data: data@ },
            BridgeEvent::Lagged { count } => EventModel::Lagged { count: *count },
            BridgeEvent::StreamEnded => EventModel::StreamEnded,
            BridgeEvent::ClientFrame { data } => EventModel::ClientFrame { data: data@ },
            BridgeEvent::ClientGone => EventModel::ClientGone,
            BridgeEvent::ClientOther => EventModel::ClientOther,
            BridgeEvent::ShellClosed { drained } => EventModel::ShellClosed {
                drained: drained.deep_view(),
            },
        }
    }
}

/// An output frame carrying `data`.
pub open spec fn output_frame(data: Seq<u8>) -> Seq<u8> {
    seq![CMD_OUTPUT] + data
}

/// The single shell-exit frame.
pub open spec fn shell_exit_frame() -> Seq<u8> {
    seq![CMD_SHELL_EXIT]
}

/// The frames the bridge sends for one event. A finished bridge sends
/// nothing. The shell-exit frame is sent exactly when the close signal is
/// observed, after the remaining buffered output.
pub open spec fn frames_of_event(done: bool, e: EventModel) -> Seq<Seq<u8>> {
    if done {
        Seq::empty()
    } else {
        match e {
            EventModel::Output { data } => seq![output_frame(data)],
            EventModel::ShellClosed { drained } => drained.map_values(
                |d: Seq<u8>| output_frame(d),
            ).push(shell_exit_frame()),
            _ => Seq::empty(),
        }
    }
}

/// Whether the bridge is finished after the event.
pub open spec fn done_after(done: bool, e: EventModel) -> bool {
    done || match e {
        EventModel::StreamEnded => true,
        EventModel::ClientGone => true,
        EventModel::ShellClosed { .. } => true,
        _ => false,
    }
}

/// All frames the bridge sends over a trace of events.
pub open spec fn trace_frames(done: bool, events: Seq<EventModel>) -> Seq<Seq<u8>>
    decreases events.len(),
{
    if events.len() == 0 {
        Seq::empty()
    } else {
        frames_of_event(done, events[0]) + trace_frames(
            done_after(done, events[0]),
            events.skip(1),
        )
    }
}

/// The frames that open a connection: the session identifier, then the
/// scrollback snapshot only if there is one.
pub open spec fn spec_hello_frames(sid_bytes: Seq<u8>, snapshot: Seq<u8>) -> Seq<Seq<u8>> {
    if snapshot.len() == 0 {
        seq![seq![CMD_SESSION_ID] + sid_bytes]
    } else {
        seq![seq![CMD_SESSION_ID] + sid_bytes, seq![CMD_SCROLLBACK] + snapshot]
    }
}

/// Every frame one connection sends: the hello frames, then the bridged
/// trace.
pub open spec fn connection_frames(
    sid_bytes: Seq<u8>,
    snapshot: Seq<u8>,
    events: Seq<EventModel>,
) -> Seq<Seq<u8>> {
    spec_hello_frames(sid_bytes, snapshot) + trace_frames(false, events)
}

/// Builds the frames that open a connection.
pub fn hello_frames(sid_bytes: &[u8], snapshot: &[u8]) -> (r: Vec<Vec<u8>>)
    ensures
        r.deep_view() == spec_hello_frames(sid_bytes@, snapshot@),
{
    let mut r: Vec<Vec<u8>> = Vec::new();
    r.push(encode_frame(CMD_SESSION_ID, sid_bytes));
    if snapshot.len() > 0 {
        r.push(encode_frame(CMD_SCROLLBACK, snapshot));
    }
    proof {
        assert(r.deep_view() =~~= spec_hello_frames(sid_bytes@, snapshot@));
    }
    r
}

/// What the host must do after one step: send `frames` in order; queue
/// `input` to the shell; apply `resize`; log `unknown`; and, if `stop`,
/// detach and terminate.
pub struct BridgeActions {
    pub frames: Vec<Vec<u8>>,
    pub input: Option<Vec<u8>>,
    pub resize: Option<(u16, u16)>,
    pub unknown: Option<u8>,
    pub stop: bool,
}

/// The bridge's state: whether it has finished.
pub struct ClientBridge {
    done: bool,
}

impl ClientBridge {
    /// A finished bridge sends nothing more.
    pub closed spec fn spec_done(&self) -> bool {
        self.done
    }

    pub fn new() -> (r: Self)
        ensures
            !r.spec_done(),
    {
        ClientBridge { done: false }
    }

    /// One step of the bridging loop.
    pub fn step(&mut self, event: BridgeEvent) -> (a: BridgeActions)
        ensures
            final(self).spec_done() == done_after(old(self).spec_done(), event.model()),
            a.stop == final(self).spec_done(),
            a.frames.deep_view() == frames_of_event(old(self).spec_done(), event.model()),
            match event.model() {
                EventModel::ClientFrame { data } => {
                    &&& (a.input is Some <==> (!old(self).spec_done() && data.len() > 0 && data[0]
                        == CMD_INPUT))
                    &&& (a.input matches Some(p) ==> p@ == data.skip(1))
                    &&& (a.resize is Some <==> (!old(self).spec_done() && data.len() >= 5
                        && data[0] == CMD_RESIZE))
                    &&& (a.resize matches Some(rc) ==> rc.0 == be16(data[1], data[2]) && rc.1
                        == be16(data[3], data[4]))
                    &&& (a.unknown is Some <==> (!old(self).spec_done() && data.len() > 0
                        && data[0] != CMD_INPUT && data[0] != CMD_RESIZE))
                    &&& (a.unknown matches Some(c) ==> c == data[0])
                },
                _ => a.input is None && a.resize is None && a.unknown is None,
            },
    {
        if self.done {
            let a = BridgeActions {
                frames: Vec::new(),
                input: None,
                resize: None,
                unknown: None,
                stop: true,
            };
            proof {
                assert(a.frames.deep_view() =~= frames_of_event(true, event.model()));
            }
            return a;
        }
        match event {
            BridgeEvent::Output { data } => {
                let mut frames: Vec<Vec<u8>> = Vec::new();
                frames.push(encode_frame(CMD_OUTPUT, data.as_slice()));
                proof {
                    assert(frames.deep_view() =~~= seq![output_frame(data@)]);
                }
                BridgeActions { frames, input: None, resize: None, unknown: None, stop: false }
            },
            BridgeEvent::Lagged { .. } => {
                let a = BridgeActions {
                    frames: Vec::new(),
                    input: None,
                    resize: None,
                    unknown: None,
                    stop: false,
                };
                proof {
                    assert(a.frames.deep_view() =~= Seq::<Seq<u8>>::empty());
                }
                a
            },
            BridgeEvent::StreamEnded => {
                self.done = true;
                let a = BridgeActions {
                    frames: Vec::new(),
                    input: None,
                    resize: None,
                    unknown: None,
                    stop: true,
                };
                proof {
                    assert(a.frames.deep_view() =~= Seq::<Seq<u8>>::empty());
                }
                a
            },
            BridgeEvent::ClientFrame { data } => {
                let parsed = parse_client_frame(data.as_slice());
                let a = match parsed {
                    ClientCommand::Input { payload } => BridgeActions {
                        frames: Vec::new(),
                        input: Some(payload),
                        resize: None,
                        unknown: None,
                        stop: false,
                    },
                    ClientCommand::Resize { rows, cols } => BridgeActions {
                        frames: Vec::new(),
                        input: None,
                        resize: Some((rows, cols)),
                        unknown: None,
                        stop: false,
                    },
                    ClientCommand::Unknown { cmd } => BridgeActions {
                        frames: Vec::new(),
                        input: None,
                        resize: None,
                        unknown: Some(cmd),
                        stop: false,
                    },
                    _ => BridgeActions {
                        frames: Vec::new(),
                        input: None,
                        resize: None,
                        unknown: None,
                        stop: false,
                    },
                };
                proof {
                    assert(a.frames.deep_view() =~= Seq::<Seq<u8>>::empty());
                }
                a
            },
            BridgeEvent::ClientGone => {
                self.done = true;
                let a = BridgeActions {
                    frames: Vec::new(),
                    input: None,
                    resize: None,
                    unknown: None,
                    stop: true,
                };
                proof {
                    assert(a.frames.deep_view() =~= Seq::<Seq<u8>>::empty());
                }
                a
            },
            BridgeEvent::ClientOther => {
                let a = BridgeActions {
                    frames: Vec::new(),
                    input: None,
                    resize: None,
                    unknown: None,
                    stop: false,
                };
                proof {
                    assert(a.frames.deep_view() =~= Seq::<Seq<u8>>::empty());
                }
                a
            },
            BridgeEvent::ShellClosed { drained } => {
                self.done = true;
                let mut frames: Vec<Vec<u8>> = Vec::new();
                let n: usize = drained.len();
                for i in 0..n
                    invariant
                        n == drained@.len(),
                        frames@.len() == i,
                        forall|j: int|
                            0 <= j < i ==> (#[trigger] frames@[j])@ == output_frame(
                                drained@[j]@,
                            ),
                {
                    frames.push(encode_frame(CMD_OUTPUT, drained[i].as_slice()));
                }
                let mut exit: Vec<u8> = Vec::new();
                exit.push(CMD_SHELL_EXIT);
                frames.push(exit);
                proof {
                    let rhs = drained.deep_view().map_values(|d: Seq<u8>| output_frame(d)).push(
                        shell_exit_frame(),
                    );
                    assert(frames.deep_view().len() == n + 1);
                    assert forall|j: int| 0 <= j < n + 1 implies frames.deep_view()[j] == rhs[j] by {
                        assert(frames.deep_view()[j] =~= frames@[j]@);
                        if j < n {
                            assert(drained.deep_view()[j] =~= drained@[j]@);
                            assert(frames@[j]@ == output_frame(drained@[j]@));
                        } else {
                            assert(frames@[j]@ =~= shell_exit_frame());
                        }
                    }
                    assert(frames.deep_view() =~= rhs);
                }
                BridgeActions { frames, input: None, resize: None, unknown: None, stop: true }
            },
        }
    }
}

/// Only the shell-exit frame begins with the shell-exit command byte.
pub open spec fn is_exit_frame(f: Seq<u8>) -> bool {
    f.len() > 0 && f[0] == CMD_SHELL_EXIT
}

proof fn lemma_trace_aux(done: bool, events: Seq<EventModel>)
    ensures
        done ==> trace_frames(done, events).len() == 0,
        forall|i: int|
            0 <= i < trace_frames(done, events).len() && is_exit_frame(
                #[trigger] trace_frames(done, events)[i],
            ) ==> i == trace_frames(done, events).len() - 1,
    decreases events.len(),
{
    if events.len() > 0 {
        let e = events[0];
        let d1 = done_after(done, e);
        let head = frames_of_event(done, e);
        let tail = trace_frames(d1, events.skip(1));
        let whole = trace_frames(done, events);
        lemma_trace_aux(d1, events.skip(1));
        assert(whole == head + tail);
        if done {
            assert(whole.len() == 0);
        } else {
            match e {
                EventModel::ShellClosed { drained } => {
                    assert(tail.len() == 0);
                    let outs = drained.map_values(|d: Seq<u8>| output_frame(d));
                    assert forall|i: int|
                        0 <= i < whole.len() && is_exit_frame(#[trigger] whole[i]) implies i
                        == whole.len() - 1 by {
                        if i < outs.len() {
                            assert(whole[i] == output_frame(drained[i]));
                            assert(whole[i][0] == CMD_OUTPUT);
                        }
                    }
                },
                EventModel::Output { data } => {
                    assert forall|i: int|
                        0 <= i < whole.len() && is_exit_frame(#[trigger] whole[i]) implies i
                        == whole.len() - 1 by {
                        if i == 0 {
                            assert(whole[0] == output_frame(data));
                            assert(whole[0][0] == CMD_OUTPUT);
                        } else {
                            assert(whole[i] == tail[i - 1]);
                        }
                    }
                },
                _ => {
                    assert(head.len() == 0);
                    assert forall|i: int|
                        0 <= i < whole.len() && is_exit_frame(#[trigger] whole[i]) implies i
                        == whole.len() - 1 by {
                        assert(whole[i] == tail[i]);
                    }
                },
            }
        }
    }
}

/// Shell exit is terminal: over one connection — hello frames first, then
/// any trace of events — the shell-exit frame appears at most once, and no
/// frame of any kind follows it.
pub proof fn lemma_shell_exit_terminal(
    sid_bytes: Seq<u8>,
    snapshot: Seq<u8>,
    events: Seq<EventModel>,
)
    ensures
        forall|i: int|
            0 <= i < connection_frames(sid_bytes, snapshot, events).len() && is_exit_frame(
                #[trigger] connection_frames(sid_bytes, snapshot, events)[i],
            ) ==> i == connection_frames(sid_bytes, snapshot, events).len() - 1,
{
    lemma_trace_aux(false, events);
    let hello = spec_hello_frames(sid_bytes, snapshot);
    let tail = trace_frames(false, events);
    let whole = connection_frames(sid_bytes, snapshot, events);
    assert forall|i: int|
        0 <= i < whole.len() && is_exit_frame(#[trigger] whole[i]) implies i == whole.len()
        - 1 by {
        if i < hello.len() {
            assert(whole[i] == hello[i]);
            assert(hello[0][0] == CMD_SESSION_ID);
            if hello.len() == 2 {
                assert(hello[1][0] == CMD_SCROLLBACK);
            }
            assert(false);
        } else {
            assert(whole[i] == tail[i - hello.len()]);
        }
    }
}

/// The trace of a client that only ever observes live output chunks.
pub open spec fn output_events(chunks: Seq<Seq<u8>>) -> Seq<EventModel> {
    chunks.map_values(|c: Seq<u8>| EventModel::Output { data: c })
}

/// The payload each frame carries after its command byte.
pub open spec fn frame_payloads(fs: Seq<Seq<u8>>) -> Seq<Seq<u8>> {
    fs.map_values(|f: Seq<u8>| f.skip(1))
}

proof fn lemma_output_trace(chunks: Seq<Seq<u8>>)
    ensures
        trace_frames(false, output_events(chunks)).len() == chunks.len(),
        forall|i: int|
            0 <= i < chunks.len() ==> #[trigger] trace_frames(false, output_events(chunks))[i]
                == output_frame(chunks[i]),
    decreases chunks.len(),
{
    let events = output_events(chunks);
    if chunks.len() > 0 {
        lemma_output_trace(chunks.skip(1));
        assert(events.skip(1) =~= output_events(chunks.skip(1)));
        assert(events[0] == EventModel::Output { data: chunks[0] });
        assert(done_after(false, events[0]) == false);
    }
}

/// Byte-order preservation: a client that attaches before any output and
/// never lags receives one output frame per published chunk, in order, and
/// the concatenation of the payloads equals the shell's byte stream.
pub proof fn lemma_byte_order_preserved(chunks: Seq<Seq<u8>>)
    ensures
        ({
            let fs = trace_frames(false, output_events(chunks));
            &&& fs.len() == chunks.len()
            &&& forall|i: int| 0 <= i < chunks.len() ==> #[trigger] fs[i] == output_frame(
                chunks[i],
            )
            &&& frame_payloads(fs).flatten() == chunks.flatten()
        }),
{
    lemma_output_trace(chunks);
    let fs = trace_frames(false, output_events(chunks));
    assert forall|i: int| 0 <= i < chunks.len() implies #[trigger] frame_payloads(fs)[i]
        == chunks[i] by {
        assert(fs[i] == output_frame(chunks[i]));
        assert(output_frame(chunks[i]).skip(1) =~= chunks[i]);
    }
    assert(frame_payloads(fs) =~= chunks);
}

} // verus!
