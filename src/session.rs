use vstd::prelude::*;

use crate::packet::{FlagState, Packet, PacketHeader, PacketView};
use crate::predictor::CollisionAlert;
use crate::vector::{vector_bytes, vector_from_bytes, Vector3};

verus! {

/// Where a connection stands.
pub enum SessionState {
    /// Waiting for the first frame, whose aircraft id names the connection.
    AwaitHello,
    /// Receiving positions from aircraft `id`.
    Streaming { id: u8 },
    /// Receiving the chunks of the final bulk payload of aircraft `id`.
    Draining { id: u8, payload: Vec<u8> },
    /// Finished; nothing more happens.
    Closed,
}

/// Where a connection stands, as a value.
pub enum PhaseView {
    AwaitHello,
    Streaming { id: u8 },
    Draining { id: u8, payload: Seq<u8> },
    Closed,
}

impl View for SessionState {
    type V = PhaseView;

    open spec fn view(&self) -> PhaseView {
        match self {
            SessionState::AwaitHello => PhaseView::AwaitHello,
            SessionState::Streaming { id } => PhaseView::Streaming { id: *id },
            SessionState::Draining { id, payload } => PhaseView::Draining { id: *id, payload: payload@ },
            SessionState::Closed => PhaseView::Closed,
        }
    }
}

/// Something that happened to a connection.
#[derive(Debug, PartialEq)]
pub enum Event {
    /// A whole frame was read from the peer.
    Frame(Packet),
    /// The bytes read from the peer were not a frame.
    DecodeFailed,
    /// No frame arrived within the read timeout.
    ReadTimeout,
    /// The predictor published a collision alert.
    Collision(CollisionAlert),
    /// Some session announced that the given aircraft stopped responding.
    PeerTimeout(u8),
    /// An alert channel was closed.
    ChannelClosed,
    /// Writing a frame to the peer failed.
    WriteFailed,
}

/// Something that happened to a connection, as a value.
pub enum EventView {
    Frame(PacketView),
    DecodeFailed,
    ReadTimeout,
    Collision(CollisionAlert),
    PeerTimeout(u8),
    ChannelClosed,
    WriteFailed,
}

impl View for Event {
    type V = EventView;

    open spec fn view(&self) -> EventView {
        match self {
            Event::Frame(p) => EventView::Frame(p@),
            Event::DecodeFailed => EventView::DecodeFailed,
            Event::ReadTimeout => EventView::ReadTimeout,
            Event::Collision(a) => EventView::Collision(*a),
            Event::PeerTimeout(other) => EventView::PeerTimeout(*other),
            Event::ChannelClosed => EventView::ChannelClosed,
            Event::WriteFailed => EventView::WriteFailed,
        }
    }
}

/// Work that a session asks of the program that drives it.
#[derive(Debug, PartialEq)]
pub enum Action {
    /// Append `position` to the trajectory of aircraft `id`.
    Append { id: u8, position: Vector3 },
    /// Write this frame to the peer.
    Send(Packet),
    /// Tell every session that the given aircraft stopped responding.
    BroadcastTimeout(u8),
    /// Store the final bulk payload of aircraft `id`.
    Persist { id: u8, payload: Vec<u8> },
    /// Signal that the given aircraft is gone, so that the single reaper
    /// removes it from the trajectory store.
    NotifyExit(u8),
}

/// Work that a session asks for, as a value.
pub enum ActionView {
    Append { id: u8, position: Vector3 },
    Send(PacketView),
    BroadcastTimeout(u8),
    Persist { id: u8, payload: Seq<u8> },
    NotifyExit(u8),
}

impl View for Action {
    type V = ActionView;

    open spec fn view(&self) -> ActionView {
        match self {
            Action::Append { id, position } => ActionView::Append { id: *id, position: *position },
            Action::Send(p) => ActionView::Send(p@),
            Action::BroadcastTimeout(id) => ActionView::BroadcastTimeout(*id),
            Action::Persist { id, payload } => ActionView::Persist { id: *id, payload: payload@ },
            Action::NotifyExit(id) => ActionView::NotifyExit(*id),
        }
    }
}

/// A list of actions, as values.
pub open spec fn actions_view(actions: Seq<Action>) -> Seq<ActionView> {
    actions.map_values(|a: Action| a@)
}

/// The frame that tells aircraft `id` to fly at `altitude`: a `COLLISION`
/// whose body is a position carrying the altitude in z.
pub open spec fn collision_frame(id: u8, altitude: u32) -> PacketView {
    PacketView {
        header: PacketHeader { flag: FlagState::COLLISION, plane_id: id, body_size: 12, seq_len: 0 },
        body: vector_bytes(Vector3 { x: 0, y: 0, z: altitude }),
    }
}

/// The frame that tells an aircraft that aircraft `other` went silent.
pub open spec fn warning_frame(other: u8) -> PacketView {
    PacketView {
        header: PacketHeader { flag: FlagState::WARNING, plane_id: other, body_size: 0, seq_len: 0 },
        body: Seq::empty(),
    }
}

/// What a session in state `s` does on event `e`: its next state and the work
/// it asks for, in order.
///
/// - The first frame names the aircraft; nothing else is done with it.
/// - While streaming, a `COORDINATE` body is a position to append; a body that
///   is not a position ends the session and signals the aircraft's exit.
///   Other kinds from the peer are ignored.
/// - An `EXIT` frame starts the bulk transfer; every following frame, of any
///   kind, adds its body, until one announces no more chunks. The joined
///   payload is then stored and the exit signalled.
/// - A read timeout announces the aircraft's silence to every session and
///   signals its exit. A warning about another aircraft is passed on to the
///   peer; one about this aircraft ends the session.
/// - A collision alert for this aircraft is passed on to the peer.
/// - A frame that cannot be decoded, a closed channel or a failed write ends
///   the session at once.
pub open spec fn step(s: PhaseView, e: EventView) -> (PhaseView, Seq<ActionView>) {
    match s {
        PhaseView::Closed => (PhaseView::Closed, seq![]),
        PhaseView::AwaitHello => match e {
            EventView::Frame(p) => (PhaseView::Streaming { id: p.header.plane_id }, seq![]),
            EventView::Collision(_) => (s, seq![]),
            EventView::PeerTimeout(_) => (s, seq![]),
            _ => (PhaseView::Closed, seq![]),
        },
        PhaseView::Streaming { id } => match e {
            EventView::Frame(p) => match p.header.flag {
                FlagState::COORDINATE => match vector_from_bytes(p.body) {
                    Some(v) => (s, seq![ActionView::Append { id, position: v }]),
                    None => (PhaseView::Closed, seq![ActionView::NotifyExit(id)]),
                },
                FlagState::EXIT => if p.header.seq_len == 0 {
                    (
                        PhaseView::Closed,
                        seq![ActionView::Persist { id, payload: p.body }, ActionView::NotifyExit(id)],
                    )
                } else {
                    (PhaseView::Draining { id, payload: p.body }, seq![])
                },
                _ => (s, seq![]),
            },
            EventView::ReadTimeout => (
                PhaseView::Closed,
                seq![ActionView::BroadcastTimeout(id), ActionView::NotifyExit(id)],
            ),
            EventView::Collision(a) => if a.target == id {
                (s, seq![ActionView::Send(collision_frame(id, a.altitude))])
            } else {
                (s, seq![])
            },
            EventView::PeerTimeout(other) => if other == id {
                (PhaseView::Closed, seq![ActionView::NotifyExit(id)])
            } else {
                (s, seq![ActionView::Send(warning_frame(other))])
            },
            _ => (PhaseView::Closed, seq![]),
        },
        PhaseView::Draining { id, payload } => match e {
            EventView::Frame(p) => if p.header.seq_len == 0 {
                (
                    PhaseView::Closed,
                    seq![
                        ActionView::Persist { id, payload: payload + p.body },
                        ActionView::NotifyExit(id),
                    ],
                )
            } else {
                (PhaseView::Draining { id, payload: payload + p.body }, seq![])
            },
            EventView::ReadTimeout => (
                PhaseView::Closed,
                seq![ActionView::BroadcastTimeout(id), ActionView::NotifyExit(id)],
            ),
            EventView::Collision(_) => (s, seq![]),
            EventView::PeerTimeout(_) => (s, seq![]),
            _ => (PhaseView::Closed, seq![]),
        },
    }
}

/// What a session in state `s` does on the events `events`, one after another.
pub open spec fn run(s: PhaseView, events: Seq<EventView>) -> (PhaseView, Seq<ActionView>)
    decreases events.len(),
{
    if events.len() == 0 {
        (s, seq![])
    } else {
        let (next, first) = step(s, events[0]);
        let (last, rest) = run(next, events.drop_first());
        (last, first + rest)
    }
}

/// The events of receiving `frames`, in order.
pub open spec fn frame_events(frames: Seq<PacketView>) -> Seq<EventView> {
    frames.map_values(|f: PacketView| EventView::Frame(f))
}

/// The bodies of `frames`, concatenated in order.
pub open spec fn joined_bodies(frames: Seq<PacketView>) -> Seq<u8> {
    frames.map_values(|f: PacketView| f.body).flatten()
}

/// `frames` form one bulk transfer: every frame but the last announces more
/// chunks to come, and the last announces none.
pub open spec fn is_chunk_sequence(frames: Seq<PacketView>) -> bool {
    &&& frames.len() >= 1
    &&& forall|k: int| 0 <= k < frames.len() - 1 ==> #[trigger] frames[k].header.seq_len != 0
    &&& frames[frames.len() - 1].header.seq_len == 0
}

/// A closed session stays closed and asks for nothing, whatever happens.
pub proof fn lemma_closed_is_final(events: Seq<EventView>)
    ensures
        run(PhaseView::Closed, events) == (PhaseView::Closed, Seq::<ActionView>::empty()),
    decreases events.len(),
{
    if events.len() > 0 {
        lemma_closed_is_final(events.drop_first());
        assert(seq![] + Seq::<ActionView>::empty() =~= Seq::<ActionView>::empty());
    }
}

/// When the read times out, a streaming session closes and announces the
/// silence of its aircraft exactly once, whatever happens afterwards; and any
/// other streaming session that hears the announcement warns its own aircraft.
pub proof fn lemma_timeout_announced_once(id: u8, later: Seq<EventView>, other: u8)
    requires
        other != id,
    ensures
        run(PhaseView::Streaming { id }, seq![EventView::ReadTimeout] + later) == (
            PhaseView::Closed,
            seq![ActionView::BroadcastTimeout(id), ActionView::NotifyExit(id)],
        ),
        step(PhaseView::Streaming { id: other }, EventView::PeerTimeout(id)) == (
            PhaseView::Streaming { id: other },
            seq![ActionView::Send(warning_frame(id))],
        ),
{
    let events = seq![EventView::ReadTimeout] + later;
    assert(events[0] == EventView::ReadTimeout);
    assert(events.drop_first() =~= later);
    lemma_closed_is_final(later);
    let acts = seq![ActionView::BroadcastTimeout(id), ActionView::NotifyExit(id)];
    assert(acts + Seq::<ActionView>::empty() =~= acts);
}

/// The rest of a bulk transfer: a draining session that has gathered
/// `payload` stores `payload` followed by the remaining chunks, asks once for
/// the aircraft's removal, and closes.
pub proof fn lemma_drain_completes(id: u8, payload: Seq<u8>, frames: Seq<PacketView>)
    requires
        is_chunk_sequence(frames),
    ensures
        run(PhaseView::Draining { id, payload }, frame_events(frames)) == (
            PhaseView::Closed,
            seq![
                ActionView::Persist { id, payload: payload + joined_bodies(frames) },
                ActionView::NotifyExit(id),
            ],
        ),
    decreases frames.len(),
{
    let events = frame_events(frames);
    let f = frames[0];
    let tail = frames.drop_first();
    assert(events[0] == EventView::Frame(f));
    assert(events.drop_first() =~= frame_events(tail));
    let bodies = frames.map_values(|g: PacketView| g.body);
    assert(bodies.drop_first() =~= tail.map_values(|g: PacketView| g.body));
    assert(joined_bodies(frames) == f.body + joined_bodies(tail));
    if frames.len() == 1 {
        assert(tail.map_values(|g: PacketView| g.body) =~= Seq::<Seq<u8>>::empty());
        assert(joined_bodies(frames) =~= f.body);
        lemma_closed_is_final(frame_events(tail));
        let acts = seq![
            ActionView::Persist { id, payload: payload + f.body },
            ActionView::NotifyExit(id),
        ];
        assert(acts + Seq::<ActionView>::empty() =~= acts);
    } else {
        assert(f.header.seq_len != 0);
        assert forall|k: int| 0 <= k < tail.len() - 1 implies #[trigger] tail[k].header.seq_len != 0 by {
            assert(tail[k] == frames[k + 1]);
        }
        lemma_drain_completes(id, payload + f.body, tail);
        assert(payload + f.body + joined_bodies(tail) =~= payload + joined_bodies(frames));
        let acts = seq![
            ActionView::Persist { id, payload: payload + joined_bodies(frames) },
            ActionView::NotifyExit(id),
        ];
        assert(Seq::<ActionView>::empty() + acts =~= acts);
    }
}

/// A bulk transfer from start to end: a streaming session that receives an
/// `EXIT` frame and then the rest of the chunks stores exactly their bodies,
/// concatenated in order, asks exactly once for the aircraft's removal, and
/// closes.
pub proof fn lemma_exit_transfer(id: u8, frames: Seq<PacketView>)
    requires
        is_chunk_sequence(frames),
        frames[0].header.flag == FlagState::EXIT,
    ensures
        run(PhaseView::Streaming { id }, frame_events(frames)) == (
            PhaseView::Closed,
            seq![
                ActionView::Persist { id, payload: joined_bodies(frames) },
                ActionView::NotifyExit(id),
            ],
        ),
{
    let events = frame_events(frames);
    let f = frames[0];
    let tail = frames.drop_first();
    assert(events[0] == EventView::Frame(f));
    assert(events.drop_first() =~= frame_events(tail));
    let bodies = frames.map_values(|g: PacketView| g.body);
    assert(bodies.drop_first() =~= tail.map_values(|g: PacketView| g.body));
    assert(joined_bodies(frames) == f.body + joined_bodies(tail));
    if frames.len() == 1 {
        assert(tail.map_values(|g: PacketView| g.body) =~= Seq::<Seq<u8>>::empty());
        assert(joined_bodies(frames) =~= f.body);
        lemma_closed_is_final(frame_events(tail));
        let acts = seq![
            ActionView::Persist { id, payload: f.body },
            ActionView::NotifyExit(id),
        ];
        assert(acts + Seq::<ActionView>::empty() =~= acts);
    } else {
        assert(f.header.seq_len != 0);
        assert forall|k: int| 0 <= k < tail.len() - 1 implies #[trigger] tail[k].header.seq_len != 0 by {
            assert(tail[k] == frames[k + 1]);
        }
        lemma_drain_completes(id, f.body, tail);
        let acts = seq![
            ActionView::Persist { id, payload: joined_bodies(frames) },
            ActionView::NotifyExit(id),
        ];
        assert(Seq::<ActionView>::empty() + acts =~= acts);
    }
}

/// How many exit signals `actions` holds.
pub open spec fn exit_signals(actions: Seq<ActionView>) -> nat
    decreases actions.len(),
{
    if actions.len() == 0 {
        0
    } else {
        (if actions[0] is NotifyExit { 1nat } else { 0nat }) + exit_signals(actions.drop_first())
    }
}

proof fn lemma_exit_signals_add(a: Seq<ActionView>, b: Seq<ActionView>)
    ensures
        exit_signals(a + b) == exit_signals(a) + exit_signals(b),
    decreases a.len(),
{
    if a.len() == 0 {
        assert(a + b =~= b);
    } else {
        assert((a + b).drop_first() =~= a.drop_first() + b);
        lemma_exit_signals_add(a.drop_first(), b);
    }
}

proof fn lemma_step_signals_exit_only_when_closing(s: PhaseView, e: EventView)
    ensures
        exit_signals(step(s, e).1) <= 1,
        exit_signals(step(s, e).1) == 1 ==> step(s, e).0 is Closed,
{
    reveal_with_fuel(exit_signals, 3);
}

/// Whatever happens, a session signals the exit of its aircraft at most
/// once, so the aircraft is taken out of the trajectory store at most once
/// on its account.
pub proof fn lemma_exit_signalled_at_most_once(s: PhaseView, events: Seq<EventView>)
    ensures
        exit_signals(run(s, events).1) <= 1,
        s is Closed ==> exit_signals(run(s, events).1) == 0,
    decreases events.len(),
{
    if events.len() > 0 {
        let (next, first) = step(s, events[0]);
        lemma_step_signals_exit_only_when_closing(s, events[0]);
        lemma_exit_signalled_at_most_once(next, events.drop_first());
        lemma_exit_signals_add(first, run(next, events.drop_first()).1);
        if s is Closed {
            assert(first =~= Seq::<ActionView>::empty());
        }
    }
}

/// The per-connection state machine of the coordinator.
///
/// It reads no socket and holds no channel: the driver hands it each event and
/// carries out the actions it returns.
pub struct Session {
    state: SessionState,
}

impl View for Session {
    type V = PhaseView;

    closed spec fn view(&self) -> PhaseView {
        self.state@
    }
}

/// Builds the frame of `collision_frame`.
fn make_collision_frame(id: u8, altitude: u32) -> (r: Packet)
    ensures
        r@ == collision_frame(id, altitude),
{
    let position = Vector3 { x: 0, y: 0, z: altitude };
    let body = position.to_bytes();
    Packet {
        header: PacketHeader { flag: FlagState::COLLISION, plane_id: id, body_size: 12, seq_len: 0 },
        body,
    }
}

/// Builds the frame of `warning_frame`.
fn make_warning_frame(other: u8) -> (r: Packet)
    ensures
        r@ == warning_frame(other),
{
    let body: Vec<u8> = Vec::new();
    let r = Packet {
        header: PacketHeader { flag: FlagState::WARNING, plane_id: other, body_size: 0, seq_len: 0 },
        body,
    };
    assert(r@.body =~= Seq::<u8>::empty());
    r
}

/// A list of one action.
fn one(a: Action) -> (r: Vec<Action>)
    ensures
        actions_view(r@) == seq![a@],
{
    let mut r: Vec<Action> = Vec::new();
    r.push(a);
    assert(actions_view(r@) =~= seq![a@]);
    r
}

/// A list of two actions.
fn two(a: Action, b: Action) -> (r: Vec<Action>)
    ensures
        actions_view(r@) == seq![a@, b@],
{
    let mut r: Vec<Action> = Vec::new();
    r.push(a);
    r.push(b);
    assert(actions_view(r@) =~= seq![a@, b@]);
    r
}

/// No action.
fn none() -> (r: Vec<Action>)
    ensures
        actions_view(r@) == Seq::<ActionView>::empty(),
{
    let r: Vec<Action> = Vec::new();
    assert(actions_view(r@) =~= Seq::<ActionView>::empty());
    r
}

impl Session {
    /// A session on a fresh connection, waiting for its first frame.
    pub fn new() -> (r: Session)
        ensures
            r@ == PhaseView::AwaitHello,
    {
        Session { state: SessionState::AwaitHello }
    }

    /// Whether the session has finished.
    pub fn is_closed(&self) -> (r: bool)
        ensures
            r == (self@ is Closed),
    {
        match self.state {
            SessionState::Closed => true,
            _ => false,
        }
    }

    /// The aircraft this session speaks for, once its first frame has named it
    /// and while it is open.
    pub fn aircraft_id(&self) -> (r: Option<u8>)
        ensures
            r == match self@ {
                PhaseView::Streaming { id } => Some(id),
                PhaseView::Draining { id, .. } => Some(id),
                _ => None::<u8>,
            },
    {
        match self.state {
            SessionState::Streaming { id } => Some(id),
            SessionState::Draining { id, .. } => Some(id),
            _ => None,
        }
    }

    /// Takes one event: moves to the next state and returns the work to be
    /// done, in order, as `step` describes.
    pub fn handle(&mut self, event: Event) -> (r: Vec<Action>)
        ensures
            (final(self)@, actions_view(r@)) == step(old(self)@, event@),
    {
        let mut current = SessionState::Closed;
        std::mem::swap(&mut self.state, &mut current);
        let ghost before = current@;
        let ghost e = event@;
        let (next, actions) = match current {
            SessionState::Closed => (SessionState::Closed, none()),
            SessionState::AwaitHello => match event {
                Event::Frame(p) => (SessionState::Streaming { id: p.header.plane_id }, none()),
                Event::Collision(_) => (SessionState::AwaitHello, none()),
                Event::PeerTimeout(_) => (SessionState::AwaitHello, none()),
                _ => (SessionState::Closed, none()),
            },
            SessionState::Streaming { id } => Self::streaming(id, event),
            SessionState::Draining { id, payload } => Self::draining(id, payload, event),
        };
        self.state = next;
        assert((next@, actions_view(actions@)) == step(before, e));
        actions
    }

    fn streaming(id: u8, event: Event) -> (r: (SessionState, Vec<Action>))
        ensures
            (r.0@, actions_view(r.1@)) == step(PhaseView::Streaming { id }, event@),
    {
        match event {
            Event::Frame(p) => match p.header.flag {
                FlagState::COORDINATE => match Vector3::from_bytes(p.body.as_slice()) {
                    Some(v) => (SessionState::Streaming { id }, one(Action::Append { id, position: v })),
                    None => (SessionState::Closed, one(Action::NotifyExit(id))),
                },
                FlagState::EXIT => {
                    if p.header.seq_len == 0 {
                        (
                            SessionState::Closed,
                            two(Action::Persist { id, payload: p.body }, Action::NotifyExit(id)),
                        )
                    } else {
                        (SessionState::Draining { id, payload: p.body }, none())
                    }
                },
                _ => (SessionState::Streaming { id }, none()),
            },
            Event::ReadTimeout => (
                SessionState::Closed,
                two(Action::BroadcastTimeout(id), Action::NotifyExit(id)),
            ),
            Event::Collision(a) => {
                if a.target == id {
                    (SessionState::Streaming { id }, one(Action::Send(make_collision_frame(id, a.altitude))))
                } else {
                    (SessionState::Streaming { id }, none())
                }
            },
            Event::PeerTimeout(other) => {
                if other == id {
                    (SessionState::Closed, one(Action::NotifyExit(id)))
                } else {
                    (SessionState::Streaming { id }, one(Action::Send(make_warning_frame(other))))
                }
            },
            _ => (SessionState::Closed, none()),
        }
    }

    fn draining(id: u8, payload: Vec<u8>, event: Event) -> (r: (SessionState, Vec<Action>))
        ensures
            (r.0@, actions_view(r.1@)) == step(PhaseView::Draining { id, payload: payload@ }, event@),
    {
        match event {
            Event::Frame(p) => {
                let mut payload = payload;
                let mut chunk = p.body;
                payload.append(&mut chunk);
                if p.header.seq_len == 0 {
                    (SessionState::Closed, two(Action::Persist { id, payload }, Action::NotifyExit(id)))
                } else {
                    (SessionState::Draining { id, payload }, none())
                }
            },
            Event::ReadTimeout => (
                SessionState::Closed,
                two(Action::BroadcastTimeout(id), Action::NotifyExit(id)),
            ),
            Event::Collision(_) => (SessionState::Draining { id, payload }, none()),
            Event::PeerTimeout(_) => (SessionState::Draining { id, payload }, none()),
            _ => (SessionState::Closed, none()),
        }
    }
}

} // verus!
