//! Tests of the multiplexer core: port allocation, demultiplexing
//! decisions, and the stop lifecycle.

use socks_forwarder::codec::Packet;
use socks_forwarder::mux::DemuxAction;
use socks_forwarder::mux::Mux;
use socks_forwarder::mux::MuxError;

#[test]
fn ports_start_at_one() {
    let mut mux = Mux::new();
    assert_eq!(mux.add_tcp_stream(), Ok((1, 0)));
    assert_eq!(mux.add_tcp_stream(), Ok((2, 1)));
    assert!(mux.is_open(1));
    assert!(mux.is_open(2));
    assert!(!mux.is_open(3));
}

#[test]
fn wraparound_into_live_ports_fails() {
    let mut mux = Mux::new();
    for expected_port in 1..=65535u16 {
        let (port, _conn) = mux.add_tcp_stream().expect("table not yet full");
        assert_eq!(port, expected_port);
    }
    // Every port is live; the wrapped-around allocation of port 1 must
    // fail rather than rebind it.
    assert_eq!(mux.add_tcp_stream(), Err(MuxError::TooManyOpenConnections));
    assert!(mux.is_open(1));
}

#[test]
fn wraparound_reuses_a_freed_port() {
    let mut mux = Mux::new();
    for _ in 1..=65535u16 {
        mux.add_tcp_stream().expect("table not yet full");
    }
    let action = mux.handle_packet(Packet::control_socket_closed(1));
    assert_eq!(action, DemuxAction::CloseTcp { port: 1, conn: 0 });
    // Port 1 is free again and the counter has wrapped around to it; the
    // connection token is fresh, not a reuse of the old one.
    assert_eq!(mux.add_tcp_stream(), Ok((1, 65535)));
}

#[test]
fn data_for_a_live_port_is_delivered() {
    let mut mux = Mux::new();
    for _ in 0..5 {
        mux.add_tcp_stream().unwrap();
    }
    let action = mux.handle_packet(Packet::Data { port: 5, data: b"hi".to_vec() });
    assert_eq!(action, DemuxAction::WriteTcp { conn: 4, data: b"hi".to_vec() });
}

#[test]
fn empty_data_is_dropped() {
    let mut mux = Mux::new();
    mux.add_tcp_stream().unwrap();
    let action = mux.handle_packet(Packet::Data { port: 1, data: vec![] });
    assert_eq!(action, DemuxAction::DropEmptyData);
}

#[test]
fn data_for_an_unknown_port_is_dropped() {
    let mut mux = Mux::new();
    mux.add_tcp_stream().unwrap();
    let action = mux.handle_packet(Packet::Data { port: 9, data: vec![1] });
    assert_eq!(action, DemuxAction::DropUnknownPort);
}

#[test]
fn keepalives_are_ignored() {
    let mut mux = Mux::new();
    mux.add_tcp_stream().unwrap();
    for _ in 0..5 {
        assert_eq!(mux.handle_packet(Packet::keepalive()), DemuxAction::IgnoreKeepalive);
    }
    assert!(mux.is_open(1));
    assert!(!mux.is_stopped());
}

#[test]
fn peer_close_removes_the_port() {
    let mut mux = Mux::new();
    mux.add_tcp_stream().unwrap();
    let action = mux.handle_packet(Packet::control_socket_closed(1));
    assert_eq!(action, DemuxAction::CloseTcp { port: 1, conn: 0 });
    assert!(!mux.is_open(1));
    // A second close for the same port no longer finds it.
    let again = mux.handle_packet(Packet::control_socket_closed(1));
    assert_eq!(again, DemuxAction::DropUnknownClose);
}

#[test]
fn passive_opens_are_rejected() {
    let mut mux = Mux::new();
    let action = mux.handle_packet(Packet::control_socket_open(4));
    assert_eq!(action, DemuxAction::RejectPassiveOpen);
    assert!(!mux.is_open(4));
}

#[test]
fn unknown_control_is_dropped() {
    let mut mux = Mux::new();
    let action = mux.handle_packet(Packet::Control { msg_type: 9, for_port: 1, status: 0 });
    assert_eq!(action, DemuxAction::DropUnknownControl);
}

#[test]
fn writes_go_only_to_their_own_connection() {
    // Interleaved data for two live ports reaches each port's own
    // connection token, in order, and nothing crosses over.
    let mut mux = Mux::new();
    let (port_a, conn_a) = mux.add_tcp_stream().unwrap();
    let (port_b, conn_b) = mux.add_tcp_stream().unwrap();
    let traffic = vec![
        Packet::Data { port: port_a, data: vec![1] },
        Packet::Data { port: port_b, data: vec![2] },
        Packet::keepalive(),
        Packet::Data { port: port_a, data: vec![3] },
    ];
    let mut to_a: Vec<u8> = Vec::new();
    let mut to_b: Vec<u8> = Vec::new();
    for p in traffic {
        if let DemuxAction::WriteTcp { conn, data } = mux.handle_packet(p) {
            if conn == conn_a {
                to_a.extend_from_slice(&data);
            } else if conn == conn_b {
                to_b.extend_from_slice(&data);
            } else {
                panic!("write to a connection that was never opened");
            }
        }
    }
    assert_eq!(to_a, vec![1, 3]);
    assert_eq!(to_b, vec![2]);
}

#[test]
fn stop_is_idempotent() {
    let mut mux = Mux::new();
    mux.add_tcp_stream().unwrap();
    mux.add_tcp_stream().unwrap();
    mux.stop();
    assert!(mux.is_stopped());
    assert!(!mux.is_open(1));
    assert!(!mux.is_open(2));
    assert!(!mux.can_add());
    // Stopping again changes nothing.
    mux.stop();
    assert!(mux.is_stopped());
    assert!(!mux.is_open(1));
    assert!(!mux.can_add());
}

#[test]
fn fresh_mux_accepts_connections() {
    let mux = Mux::new();
    assert!(mux.can_add());
    assert!(!mux.is_stopped());
}
