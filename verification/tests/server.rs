use socketio_server::engine::{EngineFrame, EnginePacket, EnginePacketId};
use socketio_server::error::Error;
use socketio_server::handshake::HandshakePacket;
use socketio_server::http::{handshake, parse_request_type, PollingAcceptor, RequestType};
use socketio_server::server::{HeartbeatAction, Server, ServerOption};
use socketio_server::session::{PacketEffect, Session, SessionState};
use socketio_server::sid::SidGenerator;

fn test_server() -> Server {
    Server::new(
        4209,
        ServerOption {
            ping_interval: 50,
            ping_timeout: 50,
        },
    )
}

#[test]
fn sid_generator_is_monotonic_and_base64() {
    let mut g = SidGenerator::new();
    let a = g.generate();
    let b = g.generate();
    assert_eq!(a.num, 0);
    assert_eq!(b.num, 1);
    assert_ne!(a.num, b.num);
    assert_eq!(a.text, base64::encode("0").into_bytes());
    assert_eq!(b.text, base64::encode("1").into_bytes());
    assert_eq!(a.text, b"MA==".to_vec());
}

#[test]
fn registry_keeps_distinct_sessions() {
    let mut server = test_server();
    let s1 = server.sid();
    let s2 = server.sid();
    let s3 = server.sid();
    assert!(s1.num != s2.num && s2.num != s3.num && s1.num != s3.num);
    server.store_stream(s1.clone(), 0);
    server.store_stream(s2.clone(), 0);
    server.store_stream(s3.clone(), 0);
    assert_eq!(server.sockets.len(), 3);
    assert!(server.is_connected(s1.num));
    assert!(server.is_connected(s2.num));
    assert!(server.is_connected(s3.num));
}

#[test]
fn emit_queues_in_fifo_order() {
    let mut server = test_server();
    let sid = server.sid();
    server.store_stream(sid.clone(), 0);
    server
        .emit(sid.num, EnginePacket::new(EnginePacketId::Message, b"a".to_vec()))
        .unwrap();
    server
        .emit(sid.num, EnginePacket::new(EnginePacketId::Message, b"b".to_vec()))
        .unwrap();
    let session = &mut server.sockets[0];
    let queued = session.take_outbound();
    assert_eq!(queued.len(), 2);
    assert_eq!(queued[0].data, b"a".to_vec());
    assert_eq!(queued[1].data, b"b".to_vec());
}

#[test]
fn emit_to_unknown_sid_is_ok_and_ignored() {
    let mut server = test_server();
    assert!(server
        .emit(7, EnginePacket::new(EnginePacketId::Ping, vec![]))
        .is_ok());
    assert_eq!(server.sockets.len(), 0);
}

#[test]
fn session_emit_after_disconnect_fails() {
    let mut session = Session::new(0, b"MA==".to_vec(), 0);
    session.connect();
    assert!(session.emit(EnginePacket::new(EnginePacketId::Message, vec![])).is_ok());
    let fired = session.disconnect();
    assert!(fired);
    assert_eq!(
        session.emit(EnginePacket::new(EnginePacketId::Message, vec![])),
        Err(Error::IllegalActionBeforeOpen)
    );
    // teardown is idempotent: a second disconnect does not fire on_close
    assert!(!session.disconnect());
}

#[test]
fn session_tracks_pong_and_close() {
    let mut session = Session::new(0, b"MA==".to_vec(), 0);
    session.connect();
    let effect = session.handle_incoming_packet(&EnginePacket::new(EnginePacketId::Pong, vec![]), 17);
    assert_eq!(effect, PacketEffect::Pong);
    assert_eq!(session.last_pong, 17);
    let effect =
        session.handle_incoming_packet(&EnginePacket::new(EnginePacketId::Message, b"msg".to_vec()), 20);
    assert_eq!(effect, PacketEffect::Data);
    let effect = session.handle_incoming_packet(&EnginePacket::new(EnginePacketId::Close, vec![]), 21);
    assert_eq!(effect, PacketEffect::Closed);
    assert_eq!(session.state, SessionState::Disconnected);
}

#[test]
fn heartbeat_pings_while_alive() {
    let mut server = test_server();
    let sid = server.sid();
    server.store_stream(sid.clone(), 0);
    // within the allowance: a ping is queued and the driver continues
    match server.heartbeat_tick(sid.num, 60) {
        HeartbeatAction::Continue => {}
        _ => panic!("a recently-ponged session must continue"),
    }
    let queued = server.sockets[0].take_outbound();
    assert_eq!(queued.len(), 1);
    assert_eq!(queued[0].packet_id, EnginePacketId::Ping);
}

#[test]
fn heartbeat_times_out_silent_peer() {
    let mut server = test_server();
    let sid = server.sid();
    server.store_stream(sid.clone(), 0);
    // 100 ms = pingInterval + pingTimeout with no pong in between
    match server.heartbeat_tick(sid.num, 100) {
        HeartbeatAction::TimedOut(session) => {
            assert_eq!(session.sid_num, sid.num);
            assert_eq!(session.state, SessionState::Disconnected);
            let frames: Vec<EnginePacketId> =
                session.outbound.iter().map(|p| p.packet_id).collect();
            assert_eq!(frames, vec![EnginePacketId::Ping, EnginePacketId::Close]);
        }
        _ => panic!("a silent session must time out"),
    }
    assert!(!server.is_connected(sid.num));
    assert_eq!(server.sockets.len(), 0);
    // the driver then stops; nothing is left to close
    match server.heartbeat_tick(sid.num, 150) {
        HeartbeatAction::Stopped(None) => {}
        _ => panic!("a removed session must stop its driver"),
    }
}

#[test]
fn pong_defers_the_timeout() {
    let mut server = test_server();
    let sid = server.sid();
    server.store_stream(sid.clone(), 0);
    let pong = EnginePacket::new(EnginePacketId::Pong, vec![]);
    server.sockets[0].handle_incoming_packet(&pong, 80);
    match server.heartbeat_tick(sid.num, 100) {
        HeartbeatAction::Continue => {}
        _ => panic!("a fresh pong must keep the session alive"),
    }
    assert!(server.is_connected(sid.num));
}

#[test]
fn close_socket_fires_once() {
    let mut server = test_server();
    let sid = server.sid();
    server.store_stream(sid.clone(), 0);
    let first = server.close_socket(sid.num);
    match first {
        Some((session, fired)) => {
            assert!(fired);
            assert_eq!(session.state, SessionState::Disconnected);
        }
        None => panic!("the registered session must be returned"),
    }
    assert!(server.close_socket(sid.num).is_none());
    assert!(!server.is_connected(sid.num));
}

#[test]
fn handshake_json_shape() {
    let packet = HandshakePacket::new(
        b"MA==".to_vec(),
        vec![b"websocket".to_vec()],
        25000,
        20000,
    );
    let json = packet.to_json();
    assert_eq!(
        json,
        b"{\"sid\":\"MA==\",\"upgrades\":[\"websocket\"],\"pingInterval\":25000,\"pingTimeout\":20000}"
            .to_vec()
    );
    let value: serde_json::Value = serde_json::from_slice(&json).unwrap();
    assert_eq!(value["sid"], "MA==");
    assert_eq!(value["upgrades"][0], "websocket");
    assert_eq!(value["pingInterval"], 25000);
    assert_eq!(value["pingTimeout"], 20000);
}

#[test]
fn handshake_json_no_upgrades() {
    let packet = HandshakePacket::new(b"MQ==".to_vec(), vec![], 50, 50);
    assert_eq!(
        packet.to_json(),
        b"{\"sid\":\"MQ==\",\"upgrades\":[],\"pingInterval\":50,\"pingTimeout\":50}".to_vec()
    );
}

#[test]
fn polling_open_reply() {
    let mut server = test_server();
    let reply = PollingAcceptor::accept(&mut server, &RequestType::PollingOpen).unwrap();
    let text = String::from_utf8(reply).unwrap();
    let body = text.split("\r\n\r\n").nth(1).unwrap();
    assert!(body.starts_with('0'));
    let value: serde_json::Value = serde_json::from_str(&body[1..]).unwrap();
    assert_eq!(value["sid"], "MA==");
    assert_eq!(value["upgrades"][0], "websocket");
    assert_eq!(value["pingInterval"], 50);
    assert_eq!(value["pingTimeout"], 50);
    assert!(text.starts_with("HTTP/1.1 200 OK\r\n"));
    assert!(text.contains("Connection: Close\r\n"));
}

#[test]
fn polling_get_reply_is_upgrade_frame() {
    let mut server = test_server();
    let reply = PollingAcceptor::accept(&mut server, &RequestType::PollingGet(b"MA==".to_vec()))
        .unwrap();
    let text = String::from_utf8(reply).unwrap();
    assert_eq!(
        text,
        "HTTP/1.1 200 OK\r\nContent-Type: text/plain; charset=UTF-8\r\nConnection: Close\r\nContent-Length: 1\r\n\r\n5"
    );
}

#[test]
fn websocket_handshake_frame() {
    let mut server = test_server();
    let (sid, frame) = handshake(&mut server);
    assert_eq!(sid.num, 0);
    match frame {
        EngineFrame::Text(v) => assert_eq!(
            v,
            b"0{\"sid\":\"MA==\",\"upgrades\":[],\"pingInterval\":50,\"pingTimeout\":50}".to_vec()
        ),
        EngineFrame::Binary(_) => panic!("the open frame is text"),
    }
}

#[test]
fn classify_polling_open() {
    let r = parse_request_type(b"GET /?EIO=4&transport=polling HTTP/1.1\r\nHost: x\r\n\r\n");
    assert_eq!(r, Some(RequestType::PollingOpen));
}

#[test]
fn classify_polling_get_with_sid() {
    let r = parse_request_type(b"GET /?EIO=4&sid=MA==&transport=polling HTTP/1.1\r\n\r\n");
    assert_eq!(r, Some(RequestType::PollingGet(b"MA==".to_vec())));
}

#[test]
fn classify_rejects_wrong_eio() {
    assert_eq!(parse_request_type(b"GET /?EIO=3 HTTP/1.1\r\n\r\n"), None);
}

#[test]
fn classify_rejects_other_methods() {
    assert_eq!(parse_request_type(b"PUT /?EIO=4 HTTP/1.1\r\n\r\n"), None);
}

#[test]
fn classify_websocket_upgrade() {
    let r = parse_request_type(
        b"GET /?EIO=4&transport=websocket HTTP/1.1\r\nUpgrade: websocket\r\n\r\n",
    );
    assert_eq!(r, Some(RequestType::WsUpgrade(None)));
    let r = parse_request_type(
        b"GET /?EIO=4&transport=websocket&sid=MA== HTTP/1.1\r\nUpgrade: websocket\r\n\r\n",
    );
    assert_eq!(r, Some(RequestType::WsUpgrade(Some(b"MA==".to_vec()))));
}

#[test]
fn classify_post_takes_sid_from_body() {
    let r = parse_request_type(b"POST /?EIO=4 HTTP/1.1\r\nContent-Length: 4\r\n\r\nMA==");
    assert_eq!(r, Some(RequestType::PollingPost(b"MA==".to_vec())));
}
