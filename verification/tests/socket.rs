use socketio_server::engine::{EnginePacket, EnginePacketId};
use socketio_server::error::Error;
use socketio_server::packet::PacketId;
use socketio_server::payload::{Event, Payload};
use socketio_server::socket::Socket;

#[test]
fn emit_before_open_fails_without_panicking() {
    let mut socket = Socket::new();
    let r = socket.emit(b"/", Event(b"hello".to_vec()), Payload::Number(1));
    assert_eq!(r, Err(Error::IllegalActionBeforeOpen));
    assert_eq!(socket.outbound.len(), 0);
}

#[test]
fn emit_after_disconnect_fails_without_panicking() {
    let mut socket = Socket::new();
    socket.connect();
    socket.disconnect();
    let r = socket.emit(b"/", Event(b"hello".to_vec()), Payload::Number(1));
    assert_eq!(r, Err(Error::IllegalActionBeforeOpen));
}

#[test]
fn send_queues_head_then_attachments_in_order() {
    let mut socket = Socket::new();
    socket.connect();
    let packet = Socket::build_packet_for_payloads(
        vec![Payload::Binary(vec![1, 2, 3]), Payload::Binary(vec![4, 5, 6])],
        Some(Event(b"hello".to_vec())),
        b"/",
        None,
        false,
    )
    .unwrap();
    socket.send(packet).unwrap();
    assert_eq!(socket.outbound.len(), 3);
    assert_eq!(socket.outbound[0].packet_id, EnginePacketId::Message);
    assert_eq!(
        socket.outbound[0].data,
        b"52-[\"hello\",{\"_placeholder\":true,\"num\":0},{\"_placeholder\":true,\"num\":1}]"
            .to_vec()
    );
    assert_eq!(socket.outbound[1].packet_id, EnginePacketId::MessageBinary);
    assert_eq!(socket.outbound[1].data, vec![1, 2, 3]);
    assert_eq!(socket.outbound[2].packet_id, EnginePacketId::MessageBinary);
    assert_eq!(socket.outbound[2].data, vec![4, 5, 6]);
}

#[test]
fn emits_arrive_in_emit_order() {
    let mut socket = Socket::new();
    socket.connect();
    socket.emit(b"/", Event(b"first".to_vec()), Payload::Number(1)).unwrap();
    socket.emit(b"/", Event(b"second".to_vec()), Payload::Number(2)).unwrap();
    assert_eq!(socket.outbound.len(), 2);
    assert_eq!(socket.outbound[0].data, b"2[\"first\",1]".to_vec());
    assert_eq!(socket.outbound[1].data, b"2[\"second\",2]".to_vec());
}

#[test]
fn disconnect_queues_close_once_connected() {
    let mut socket = Socket::new();
    socket.connect();
    socket.disconnect();
    assert_eq!(socket.outbound.len(), 1);
    assert_eq!(socket.outbound[0].packet_id, EnginePacketId::Close);
    // disconnecting an unconnected socket queues nothing more
    socket.disconnect();
    assert_eq!(socket.outbound.len(), 1);
}

#[test]
fn incoming_connect_and_disconnect_flip_the_flag() {
    let mut socket = Socket::new();
    socket.connect();
    // hand a Disconnect packet through the receive path
    let decoded = Socket::handle_engineio_packet(
        &EnginePacket::new(EnginePacketId::Message, b"1".to_vec()),
        &vec![],
    )
    .unwrap();
    assert_eq!(decoded.packet_type, PacketId::Disconnect);
    socket.handle_socketio_packet(&decoded);
    assert!(!socket.connected);
    let decoded = Socket::handle_engineio_packet(
        &EnginePacket::new(EnginePacketId::Message, b"0".to_vec()),
        &vec![],
    )
    .unwrap();
    assert_eq!(decoded.packet_type, PacketId::Connect);
    socket.handle_socketio_packet(&decoded);
    assert!(socket.connected);
}

#[test]
fn non_message_frames_are_skipped() {
    let mut socket = Socket::new();
    socket.connect();
    let r = socket
        .handle_incoming(&EnginePacket::new(EnginePacketId::Ping, vec![]), &vec![])
        .unwrap();
    assert!(r.is_none());
    assert!(socket.connected);
}
