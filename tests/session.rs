use air_traffic::packet::{FlagState, Packet, PacketHeader};
use air_traffic::predictor::{CollisionAlert, UPPER_ALTITUDE};
use air_traffic::session::{Action, Event, Session};
use air_traffic::vector::Vector3;

fn frame(flag: FlagState, plane_id: u8, seq_len: u8, body: &[u8]) -> Event {
    Event::Frame(Packet {
        header: PacketHeader {
            flag,
            plane_id,
            body_size: body.len() as u16,
            seq_len,
        },
        body: body.to_vec(),
    })
}

fn streaming(id: u8) -> Session {
    let mut s = Session::new();
    assert_eq!(s.aircraft_id(), None);
    let actions = s.handle(frame(FlagState::COORDINATE, id, 0, &[]));
    assert!(actions.is_empty());
    assert_eq!(s.aircraft_id(), Some(id));
    s
}

fn position(x: f32, y: f32, z: f32) -> Vector3 {
    Vector3 {
        x: x.to_bits(),
        y: y.to_bits(),
        z: z.to_bits(),
    }
}

#[test]
fn first_frame_names_the_session() {
    let s = streaming(42);
    assert!(!s.is_closed());
}

#[test]
fn decode_failure_before_hello_closes() {
    let mut s = Session::new();
    assert!(s.handle(Event::DecodeFailed).is_empty());
    assert!(s.is_closed());
}

#[test]
fn coordinate_frame_appends_position() {
    let mut s = streaming(3);
    let p = position(1.0, 2.0, 3.0);
    let actions = s.handle(frame(FlagState::COORDINATE, 3, 0, &p.to_bytes()));
    assert_eq!(actions, vec![Action::Append { id: 3, position: p }]);
    assert!(!s.is_closed());
}

#[test]
fn coordinate_frame_with_short_body_ends_session() {
    let mut s = streaming(3);
    let actions = s.handle(frame(FlagState::COORDINATE, 3, 0, &[1, 2, 3]));
    assert_eq!(actions, vec![Action::NotifyExit(3)]);
    assert!(s.is_closed());
}

#[test]
fn timeout_closes_and_warns_once() {
    let mut silent = streaming(1);
    let mut other = streaming(2);

    let actions = silent.handle(Event::ReadTimeout);
    assert_eq!(
        actions,
        vec![Action::BroadcastTimeout(1), Action::NotifyExit(1)]
    );
    assert!(silent.is_closed());

    // The broadcast reaches both sessions; only the other one reacts.
    assert!(silent.handle(Event::PeerTimeout(1)).is_empty());
    assert!(silent.handle(Event::ReadTimeout).is_empty());
    let actions = other.handle(Event::PeerTimeout(1));
    let expected = Packet {
        header: PacketHeader {
            flag: FlagState::WARNING,
            plane_id: 1,
            body_size: 0,
            seq_len: 0,
        },
        body: Vec::new(),
    };
    assert_eq!(actions, vec![Action::Send(expected)]);
    assert!(!other.is_closed());
}

#[test]
fn warning_about_itself_closes_session() {
    let mut s = streaming(5);
    assert_eq!(s.handle(Event::PeerTimeout(5)), vec![Action::NotifyExit(5)]);
    assert!(s.is_closed());
}

#[test]
fn exit_chunks_are_joined() {
    let mut s = streaming(7);
    assert!(s.handle(frame(FlagState::EXIT, 7, 2, b"ab")).is_empty());
    assert!(s.handle(frame(FlagState::COORDINATE, 7, 1, b"cd")).is_empty());
    let actions = s.handle(frame(FlagState::EXIT, 7, 0, b"ef"));
    assert_eq!(
        actions,
        vec![
            Action::Persist {
                id: 7,
                payload: b"abcdef".to_vec()
            },
            Action::NotifyExit(7),
        ]
    );
    assert!(s.is_closed());
    assert!(s.handle(frame(FlagState::EXIT, 7, 0, b"gh")).is_empty());
}

#[test]
fn single_exit_chunk_completes_at_once() {
    let mut s = streaming(8);
    let actions = s.handle(frame(FlagState::EXIT, 8, 0, b"all"));
    assert_eq!(
        actions,
        vec![
            Action::Persist {
                id: 8,
                payload: b"all".to_vec()
            },
            Action::NotifyExit(8),
        ]
    );
    assert!(s.is_closed());
}

#[test]
fn decode_failure_while_draining_is_fatal() {
    let mut s = streaming(7);
    assert!(s.handle(frame(FlagState::EXIT, 7, 1, b"ab")).is_empty());
    assert!(s.handle(Event::DecodeFailed).is_empty());
    assert!(s.is_closed());
}

#[test]
fn collision_alert_for_this_aircraft_is_forwarded() {
    let mut s = streaming(4);
    let actions = s.handle(Event::Collision(CollisionAlert {
        target: 4,
        altitude: UPPER_ALTITUDE,
    }));
    let mut body = vec![0u8; 8];
    body.extend_from_slice(&32000.0f32.to_be_bytes());
    let expected = Packet {
        header: PacketHeader {
            flag: FlagState::COLLISION,
            plane_id: 4,
            body_size: 12,
            seq_len: 0,
        },
        body,
    };
    assert_eq!(actions, vec![Action::Send(expected)]);
    assert!(!s.is_closed());
}

#[test]
fn collision_alert_for_another_aircraft_is_ignored() {
    let mut s = streaming(4);
    let actions = s.handle(Event::Collision(CollisionAlert {
        target: 9,
        altitude: UPPER_ALTITUDE,
    }));
    assert!(actions.is_empty());
    assert!(!s.is_closed());
}

#[test]
fn unexpected_kinds_are_ignored_while_streaming() {
    let mut s = streaming(4);
    assert!(s.handle(frame(FlagState::WARNING, 4, 0, &[])).is_empty());
    assert!(s.handle(frame(FlagState::COLLISION, 4, 0, &[])).is_empty());
    assert!(!s.is_closed());
}

#[test]
fn channel_or_write_failure_closes() {
    let mut s = streaming(4);
    assert!(s.handle(Event::ChannelClosed).is_empty());
    assert!(s.is_closed());
    let mut s = streaming(4);
    assert!(s.handle(Event::WriteFailed).is_empty());
    assert!(s.is_closed());
}

#[test]
fn timeout_before_hello_closes_quietly() {
    let mut s = Session::new();
    assert!(s.handle(Event::ReadTimeout).is_empty());
    assert!(s.is_closed());
    assert_eq!(s.aircraft_id(), None);
}

#[test]
fn alerts_before_hello_are_ignored() {
    let mut s = Session::new();
    assert!(s
        .handle(Event::Collision(CollisionAlert {
            target: 0,
            altitude: UPPER_ALTITUDE
        }))
        .is_empty());
    assert!(s.handle(Event::PeerTimeout(0)).is_empty());
    assert!(!s.is_closed());
}

#[test]
fn timeout_while_draining_warns_and_exits() {
    let mut s = streaming(6);
    assert!(s.handle(frame(FlagState::EXIT, 6, 3, b"xy")).is_empty());
    assert!(s
        .handle(Event::Collision(CollisionAlert {
            target: 6,
            altitude: UPPER_ALTITUDE
        }))
        .is_empty());
    assert_eq!(
        s.handle(Event::ReadTimeout),
        vec![Action::BroadcastTimeout(6), Action::NotifyExit(6)]
    );
    assert!(s.is_closed());
}
