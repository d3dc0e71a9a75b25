use vstd::prelude::*;

use crate::pose_table::PoseTable;
use crate::role::FrameType;

verus! {

/// What a writer session receives next, as the receive loop sees it.
pub enum Inbound<P> {
    /// A text message that parsed as a measurement, with the pose that results
    /// from applying it (or a correction from visual tracking).
    Measurement(P),
    /// A text message that is not a measurement.
    Malformed,
    /// A binary message of the given length in bytes.
    Frame(usize),
    /// A ping, a pong or any other message that carries nothing to apply.
    Control,
    /// The peer closed the connection.
    Closed,
    /// Reading from the connection failed.
    Failed,
}

/// What the receive loop does after an event.
#[derive(Clone, Copy, Debug, PartialEq, Eq, Structural)]
pub enum Action {
    /// Wait for the next message.
    Continue,
    /// Hand the binary message, a full camera frame, to visual tracking.
    Track,
    /// Drop the binary message: it is not a frame of the configured size.
    DropFrame,
    /// Leave the loop: the session is over.
    Stop,
}

/// The abstract state of a writer session.
pub struct SessionState {
    pub client: usize,
    pub frame: FrameType,
    pub camera: Option<(u32, u32)>,
    pub active: bool,
}

/// One writer connection: its client id, its role, the camera resolution it
/// streams frames at (if it streams any), and whether it is still active.
pub struct Session {
    client: usize,
    frame: FrameType,
    camera: Option<(u32, u32)>,
    active: bool,
}

impl View for Session {
    type V = SessionState;

    closed spec fn view(&self) -> SessionState {
        SessionState {
            client: self.client,
            frame: self.frame,
            camera: self.camera,
            active: self.active,
        }
    }
}

pub open spec fn ends_session<P>(e: Inbound<P>) -> bool {
    e is Closed || e is Failed
}

/// A binary message is a frame when its length is exactly width * height * 4
/// (RGBA) for the configured camera resolution.
pub open spec fn frame_fits(len: usize, camera: Option<(u32, u32)>) -> bool {
    match camera {
        Some((w, h)) => len as int == w as int * h as int * 4,
        None => false,
    }
}

/// The pose table after `s` handles `e`: a measurement writes the client's
/// entry, the end of the session removes it, nothing else touches the table,
/// and an ended session touches nothing.
pub open spec fn next_table<P>(s: SessionState, t: Map<usize, P>, e: Inbound<P>) -> Map<usize, P> {
    if !s.active {
        t
    } else {
        match e {
            Inbound::Measurement(p) => t.insert(s.client, p),
            Inbound::Closed | Inbound::Failed => t.remove(s.client),
            _ => t,
        }
    }
}

pub open spec fn next_state<P>(s: SessionState, e: Inbound<P>) -> SessionState {
    if s.active && ends_session(e) {
        SessionState { active: false, ..s }
    } else {
        s
    }
}

pub open spec fn action_of<P>(s: SessionState, e: Inbound<P>) -> Action {
    if !s.active {
        Action::Stop
    } else {
        match e {
            Inbound::Frame(len) => if frame_fits(len, s.camera) {
                Action::Track
            } else {
                Action::DropFrame
            },
            Inbound::Closed | Inbound::Failed => Action::Stop,
            _ => Action::Continue,
        }
    }
}

fn fits(len: usize, camera: Option<(u32, u32)>) -> (r: bool)
    ensures
        r == frame_fits(len, camera),
{
    match camera {
        Some((w, h)) => {
            let (w, h) = (w as u128, h as u128);
            assert(w * h * 4 <= 0x4_0000_0000_0000_0000) by (nonlinear_arith)
                requires
                    w <= 0xffff_ffff,
                    h <= 0xffff_ffff,
            ;
            (len as u128) == w * h * 4
        },
        None => false,
    }
}

/// The session and the table after handling `events` in order.
pub open spec fn run<P>(s: SessionState, t: Map<usize, P>, events: Seq<Inbound<P>>) -> (
    SessionState,
    Map<usize, P>,
)
    decreases events.len(),
{
    if events.len() == 0 {
        (s, t)
    } else {
        run(next_state(s, events[0]), next_table(s, t, events[0]), events.skip(1))
    }
}

/// How many times handling `events` removes the client's entry because the
/// session ended.
pub open spec fn cleanups<P>(s: SessionState, events: Seq<Inbound<P>>) -> nat
    decreases events.len(),
{
    if events.len() == 0 {
        0
    } else {
        (if s.active && ends_session(events[0]) {
            1nat
        } else {
            0nat
        }) + cleanups(next_state(s, events[0]), events.skip(1))
    }
}

pub open spec fn has_end<P>(events: Seq<Inbound<P>>) -> bool {
    exists|i: int| 0 <= i < events.len() && ends_session(#[trigger] events[i])
}

pub open spec fn has_measurement<P>(events: Seq<Inbound<P>>) -> bool {
    exists|i: int| 0 <= i < events.len() && (#[trigger] events[i]) is Measurement
}

proof fn lemma_shift<P>(events: Seq<Inbound<P>>)
    requires
        events.len() > 0,
    ensures
        has_end(events) <==> (ends_session(events[0]) || has_end(events.skip(1))),
        has_measurement(events) <==> (events[0] is Measurement || has_measurement(
            events.skip(1),
        )),
{
    let rest = events.skip(1);
    if has_end(events) {
        let i = choose|i: int| 0 <= i < events.len() && ends_session(#[trigger] events[i]);
        if i > 0 {
            assert(rest[i - 1] == events[i]);
        }
    }
    if has_end(rest) {
        let i = choose|i: int| 0 <= i < rest.len() && ends_session(#[trigger] rest[i]);
        assert(events[i + 1] == rest[i]);
    }
    if has_measurement(events) {
        let i = choose|i: int| 0 <= i < events.len() && (#[trigger] events[i]) is Measurement;
        if i > 0 {
            assert(rest[i - 1] == events[i]);
        }
    }
    if has_measurement(rest) {
        let i = choose|i: int| 0 <= i < rest.len() && (#[trigger] rest[i]) is Measurement;
        assert(events[i + 1] == rest[i]);
    }
}

/// Once a session has ended, no further event changes it or the table, and
/// none removes the client's entry again.
pub proof fn lemma_ended_session_is_inert<P>(
    s: SessionState,
    t: Map<usize, P>,
    events: Seq<Inbound<P>>,
)
    requires
        !s.active,
    ensures
        run(s, t, events) == (s, t),
        cleanups(s, events) == 0,
    decreases events.len(),
{
    if events.len() > 0 {
        lemma_ended_session_is_inert(s, t, events.skip(1));
    }
}

/// Over any run of events of an active session: the client's entry is in the
/// table at the end exactly when the session has not ended and the entry was
/// there before or some measurement arrived (so the first measurement creates
/// it); the entry is removed exactly once if the session ends, whether by a
/// close or by a failed read, and never otherwise; no other client's entry
/// changes.
pub proof fn lemma_entry_lifecycle<P>(s: SessionState, t: Map<usize, P>, events: Seq<Inbound<P>>)
    requires
        s.active,
    ensures
        run(s, t, events).1.contains_key(s.client) <==> (!has_end(events) && (t.contains_key(
            s.client,
        ) || has_measurement(events))),
        run(s, t, events).1.remove(s.client) == t.remove(s.client),
        run(s, t, events).0.active <==> !has_end(events),
        cleanups(s, events) == (if has_end(events) {
            1nat
        } else {
            0nat
        }),
    decreases events.len(),
{
    if events.len() == 0 {
        assert(t.remove(s.client) =~= t.remove(s.client));
    } else {
        let e = events[0];
        let rest = events.skip(1);
        let s2 = next_state(s, e);
        let t2 = next_table(s, t, e);
        lemma_shift(events);
        if ends_session(e) {
            lemma_ended_session_is_inert(s2, t2, rest);
            assert(t2.remove(s.client) =~= t.remove(s.client));
        } else {
            lemma_entry_lifecycle(s2, t2, rest);
            assert(t2.remove(s.client) =~= t.remove(s.client));
        }
    }
}

impl Session {
    /// A new, active session for `client` in role `frame`; `camera` is the
    /// (width, height) of the frames it streams, if it streams any.
    pub fn new(client: usize, frame: FrameType, camera: Option<(u32, u32)>) -> (r: Self)
        ensures
            r@ == (SessionState { client, frame, camera, active: true }),
    {
        Session { client, frame, camera, active: true }
    }

    pub fn client(&self) -> (r: usize)
        ensures
            r == self@.client,
    {
        self.client
    }

    pub fn frame(&self) -> (r: FrameType)
        ensures
            r == self@.frame,
    {
        self.frame
    }

    pub fn is_active(&self) -> (r: bool)
        ensures
            r == self@.active,
    {
        self.active
    }

    /// Whether a binary message of `len` bytes is a camera frame of this session.
    pub fn accepts_frame(&self, len: usize) -> (r: bool)
        ensures
            r == frame_fits(len, self@.camera),
    {
        fits(len, self.camera)
    }

    /// Handles one event: updates the pose table and the session, and says
    /// what the receive loop does next.
    pub fn step<P>(&mut self, table: &mut PoseTable<P>, event: Inbound<P>) -> (r: Action)
        ensures
            final(table)@ == next_table(old(self)@, old(table)@, event),
            final(self)@ == next_state(old(self)@, event),
            r == action_of(old(self)@, event),
    {
        if !self.active {
            return Action::Stop;
        }
        match event {
            Inbound::Measurement(pose) => {
                table.record(self.client, pose);
                Action::Continue
            },
            Inbound::Malformed | Inbound::Control => Action::Continue,
            Inbound::Frame(len) => {
                if fits(len, self.camera) {
                    Action::Track
                } else {
                    Action::DropFrame
                }
            },
            Inbound::Closed | Inbound::Failed => {
                table.remove(self.client);
                self.active = false;
                Action::Stop
            },
        }
    }
}

} // verus!
