use std::rc::Rc;

use snowcast::connection::{Interest, IoOutcome};
use snowcast::server::{
    AcceptOutcome, AcceptStep, Readiness, Server, Step, INVALID_STATION, LISTENER,
    MAX_CONNECTIONS, UNRECOGNIZED,
};

fn stations() -> Vec<String> {
    vec!["first.mp3".to_string(), "second.mp3".to_string(), "third.mp3".to_string()]
}

const READABLE: Readiness = Readiness { readable: true, writable: false, error: false, hup: false };
const WRITABLE: Readiness = Readiness { readable: false, writable: true, error: false, hup: false };

fn connect(server: &mut Server, addr: u32) -> usize {
    match server.accept(AcceptOutcome::Accepted(addr)) {
        AcceptStep::Register(t, interest) => {
            assert_eq!(interest, Interest { readable: true, writable: false, hup: true });
            server.registered(t, true);
            t
        }
        other => panic!("expected a registration, got {:?}", other),
    }
}

/// Delivers one frame on a readable notification and returns the step that follows it.
fn send_frame(server: &mut Server, t: usize, frame: [u8; 3]) -> Step {
    assert!(matches!(server.ready(t, READABLE), Step::Read));
    server.read(t, IoOutcome::Done(3), &frame)
}

/// Runs one writable notification in full and returns the bytes written.
fn flush(server: &mut Server, t: usize) -> Vec<u8> {
    let mut out = Vec::new();
    let mut step = server.ready(t, WRITABLE);
    while let Step::Write(buf) = step {
        out.extend_from_slice(&buf);
        step = server.written(t, IoOutcome::Done(buf.len()), false);
        if !server.find_connection_by_token(t).unwrap().interest().writable {
            break;
        }
        step = server.ready(t, WRITABLE);
    }
    out
}

#[test]
fn hello_set_station_and_bad_station() {
    let mut server = Server::new(stations());
    let t = connect(&mut server, 0x7f000001);

    let step = send_frame(&mut server, t, [0, 0x40, 0x00]);
    assert!(matches!(step, Step::Read));
    assert!(matches!(server.read(t, IoOutcome::WouldBlock, &[0; 3]), Step::Done));
    let c = server.find_connection_by_token(t).unwrap();
    assert!(c.is_handshake_done());
    assert_eq!(c.get_udp_port(), 16384);
    assert_eq!(flush(&mut server, t), vec![0, 0, 3]);

    let step = send_frame(&mut server, t, [1, 0, 1]);
    assert!(matches!(step, Step::Read));
    assert!(matches!(server.read(t, IoOutcome::WouldBlock, &[0; 3]), Step::Done));
    assert_eq!(server.find_connection_by_token(t).unwrap().get_current_channel(), 1);
    let mut announce = vec![1, 10];
    announce.extend_from_slice(b"second.mp3");
    assert_eq!(flush(&mut server, t), announce);

    let step = send_frame(&mut server, t, [1, 0, 5]);
    assert!(matches!(step, Step::Done));
    assert!(server.find_connection_by_token(t).unwrap().is_to_be_removed());
    // No further reads are served.
    assert!(matches!(server.ready(t, READABLE), Step::Done));
    assert!(matches!(server.read(t, IoOutcome::Done(3), &[0, 0, 1]), Step::Done));
    let mut invalid = vec![2, INVALID_STATION.len() as u8];
    invalid.extend_from_slice(INVALID_STATION.as_bytes());
    assert_eq!(flush(&mut server, t), invalid);
    assert!(server.find_connection_by_token(t).unwrap().is_reset());
    assert_eq!(server.tick(), vec![t]);
    assert!(server.find_connection_by_token(t).is_none());
}

#[test]
fn short_frame_resets_only_that_connection() {
    let mut server = Server::new(stations());
    let a = connect(&mut server, 1);
    let b = connect(&mut server, 2);
    assert!(matches!(send_frame(&mut server, b, [0, 0x40, 0x01]), Step::Read));

    assert!(matches!(server.ready(a, READABLE), Step::Read));
    assert!(matches!(server.read(a, IoOutcome::Done(2), &[0, 0x40, 0]), Step::Done));
    assert!(server.find_connection_by_token(a).unwrap().is_reset());
    assert_eq!(server.tick(), vec![a]);
    assert!(server.find_connection_by_token(a).is_none());

    let c = server.find_connection_by_token(b).unwrap();
    assert!(!c.is_reset());
    assert!(c.is_handshake_done());
    assert_eq!(flush(&mut server, b), vec![0, 0, 3]);
}

#[test]
fn freed_handle_is_reused_fresh() {
    let mut server = Server::new(stations());
    let t = connect(&mut server, 1);
    send_frame(&mut server, t, [0, 0, 9]);
    send_frame(&mut server, t, [1, 0, 2]);
    let hup = Readiness { readable: false, writable: false, error: false, hup: true };
    assert!(matches!(server.ready(t, hup), Step::Done));
    assert_eq!(server.tick(), vec![t]);

    let u = connect(&mut server, 2);
    assert_eq!(u, t);
    let c = server.find_connection_by_token(u).unwrap();
    assert_eq!(c.get_addr(), 2);
    assert!(!c.is_handshake_done());
    assert_eq!(c.get_current_channel(), 65535);
    assert_eq!(c.get_udp_port(), 0);
    assert!(!c.is_reset());
    assert!(!c.is_to_be_removed());
    assert!(c.outbound().is_none());
}

#[test]
fn full_table_discards_new_sockets() {
    let mut server = Server::new(stations());
    let mut handles = Vec::new();
    for i in 0..MAX_CONNECTIONS {
        handles.push(connect(&mut server, i as u32));
    }
    handles.sort();
    handles.dedup();
    assert_eq!(handles.len(), MAX_CONNECTIONS);
    assert!(handles.iter().all(|&t| t < MAX_CONNECTIONS));
    assert_eq!(server.accept(AcceptOutcome::Accepted(9)), AcceptStep::Discard);
    assert_eq!(server.accept(AcceptOutcome::WouldBlock), AcceptStep::Stop);
}

#[test]
fn accept_stops_on_would_block_or_error() {
    let mut server = Server::new(stations());
    assert_eq!(server.accept(AcceptOutcome::WouldBlock), AcceptStep::Stop);
    assert_eq!(server.accept(AcceptOutcome::Failed), AcceptStep::Stop);
}

#[test]
fn failed_registration_frees_the_slot() {
    let mut server = Server::new(stations());
    let t = match server.accept(AcceptOutcome::Accepted(5)) {
        AcceptStep::Register(t, _) => t,
        other => panic!("expected a registration, got {:?}", other),
    };
    server.registered(t, false);
    assert!(server.find_connection_by_token(t).is_none());
}

#[test]
fn listener_readiness_asks_for_accept() {
    let mut server = Server::new(stations());
    assert!(matches!(server.ready(LISTENER, READABLE), Step::Accept));
    assert!(matches!(server.ready(LISTENER, WRITABLE), Step::Done));
}

#[test]
fn unknown_handle_is_ignored() {
    let mut server = Server::new(stations());
    assert!(matches!(server.ready(7, READABLE), Step::Done));
    assert!(matches!(server.read(7, IoOutcome::Done(3), &[0, 0, 0]), Step::Done));
    assert!(matches!(server.written(7, IoOutcome::Done(3), true), Step::Done));
}

#[test]
fn error_event_resets() {
    let mut server = Server::new(stations());
    let t = connect(&mut server, 1);
    let err = Readiness { readable: true, writable: false, error: true, hup: false };
    assert!(matches!(server.ready(t, err), Step::Done));
    assert!(server.find_connection_by_token(t).unwrap().is_reset());
}

#[test]
fn set_station_before_hello_is_refused() {
    let mut server = Server::new(stations());
    let t = connect(&mut server, 1);
    assert!(matches!(send_frame(&mut server, t, [1, 0, 0]), Step::Done));
    let c = server.find_connection_by_token(t).unwrap();
    assert!(c.is_to_be_removed());
    assert!(!c.is_handshake_done());
    assert_eq!(flush(&mut server, t)[0], 2);
}

#[test]
fn unknown_tag_is_refused() {
    let mut server = Server::new(stations());
    let t = connect(&mut server, 1);
    send_frame(&mut server, t, [0, 0, 1]);
    assert!(matches!(server.read(t, IoOutcome::Done(3), &[9, 0, 0]), Step::Done));
    let mut expected = vec![0, 0, 3, 2, UNRECOGNIZED.len() as u8];
    expected.extend_from_slice(UNRECOGNIZED.as_bytes());
    assert_eq!(flush(&mut server, t), expected);
    assert!(server.find_connection_by_token(t).unwrap().is_reset());
}

#[test]
fn second_hello_is_refused() {
    let mut server = Server::new(stations());
    let t = connect(&mut server, 1);
    send_frame(&mut server, t, [0, 0, 1]);
    assert!(matches!(server.read(t, IoOutcome::Done(3), &[0, 0, 2]), Step::Done));
    let c = server.find_connection_by_token(t).unwrap();
    assert!(c.is_to_be_removed());
    assert_eq!(c.get_udp_port(), 1);
}

#[test]
fn reselecting_a_station_announces_again() {
    let mut server = Server::new(stations());
    let t = connect(&mut server, 1);
    send_frame(&mut server, t, [0, 0, 1]);
    send_frame(&mut server, t, [1, 0, 2]);
    send_frame(&mut server, t, [1, 0, 2]);
    let mut one = vec![1, 9];
    one.extend_from_slice(b"third.mp3");
    let mut expected = vec![0, 0, 3];
    expected.extend_from_slice(&one);
    expected.extend_from_slice(&one);
    assert_eq!(flush(&mut server, t), expected);
}

#[test]
fn replies_queued_together_leave_in_order() {
    let mut server = Server::new(stations());
    let t = connect(&mut server, 1);
    assert!(matches!(send_frame(&mut server, t, [0, 0, 1]), Step::Read));
    assert!(matches!(server.read(t, IoOutcome::Done(3), &[1, 0, 0]), Step::Read));
    let first = match server.ready(t, WRITABLE) {
        Step::Write(buf) => buf,
        other => panic!("expected a write, got {:?}", other),
    };
    assert_eq!(*first, vec![0, 0, 3]);
    // A short write: the rest of the first reply goes before the second one.
    assert!(matches!(server.written(t, IoOutcome::Done(1), false), Step::Done));
    match server.ready(t, WRITABLE) {
        Step::Write(buf) => assert_eq!(*buf, vec![0, 3]),
        other => panic!("expected a write, got {:?}", other),
    }
}

#[test]
fn fan_out_shares_one_buffer() {
    let mut server = Server::new(stations());
    let ts: Vec<usize> = (0..3).map(|i| connect(&mut server, i)).collect();
    let message = Rc::new(vec![1, 4, b'n', b'e', b'w', b's']);
    server.broadcast(message.clone());
    for &t in &ts {
        let c = server.find_connection_by_token(t).unwrap();
        let queued = c.outbound().unwrap();
        assert!(Rc::ptr_eq(&queued, &message));
        assert_eq!(flush(&mut server, t), *message);
    }
    assert_eq!(*message, vec![1, 4, b'n', b'e', b'w', b's']);
}

#[test]
fn fan_out_skips_connections_on_their_way_out() {
    let mut server = Server::new(stations());
    let a = connect(&mut server, 1);
    let b = connect(&mut server, 2);
    send_frame(&mut server, b, [5, 0, 0]);
    server.broadcast(Rc::new(vec![7]));
    assert_eq!(flush(&mut server, a), vec![7]);
    assert_eq!(flush(&mut server, b)[0], 2);
    assert!(server.find_connection_by_token(b).unwrap().is_reset());
}

#[test]
fn idle_connections_are_rearmed() {
    let mut server = Server::new(stations());
    let a = connect(&mut server, 1);
    let b = connect(&mut server, 2);
    assert!(server.to_rearm().is_empty());
    send_frame(&mut server, a, [0, 0, 1]);
    assert!(matches!(server.read(a, IoOutcome::WouldBlock, &[0; 3]), Step::Done));
    let due = server.to_rearm();
    assert_eq!(due, vec![(a, Interest { readable: true, writable: true, hup: true })]);
    server.rearmed(a, true);
    assert!(!server.find_connection_by_token(a).unwrap().is_idle());
    server.find_connection_by_token(b).unwrap();
    assert!(matches!(server.ready(b, READABLE), Step::Read));
    assert!(matches!(server.read(b, IoOutcome::WouldBlock, &[0; 3]), Step::Done));
    server.rearmed(b, false);
    assert!(server.to_rearm().is_empty());
    assert_eq!(server.tick(), vec![b]);
}

#[test]
fn write_without_queue_resets() {
    let mut server = Server::new(stations());
    let t = connect(&mut server, 1);
    assert!(matches!(server.ready(t, WRITABLE), Step::Done));
    assert!(server.find_connection_by_token(t).unwrap().is_reset());
}

#[test]
fn failed_write_resets() {
    let mut server = Server::new(stations());
    let t = connect(&mut server, 1);
    send_frame(&mut server, t, [0, 0, 1]);
    assert!(matches!(server.ready(t, WRITABLE), Step::Write(_)));
    assert!(matches!(server.written(t, IoOutcome::Failed, true), Step::Done));
    assert!(server.find_connection_by_token(t).unwrap().is_reset());
}
