use socketio_server::engine::{EngineFrame, EnginePacket, EnginePacketId};
use socketio_server::error::Error;
use socketio_server::packet::{Packet, PacketId};
use socketio_server::payload::{Event, Payload};
use socketio_server::socket::Socket;

#[test]
fn test_build_multiple_payloads_packet() {
    let packet = Socket::build_packet_for_payloads(
        vec![Payload::Binary(vec![1, 2, 3])],
        Some(Event(b"hello".to_vec())),
        b"/",
        None,
        false,
    );

    assert_eq!(
        packet.unwrap().encode(),
        "51-[\"hello\",{\"_placeholder\":true,\"num\":0}]"
            .to_string()
            .into_bytes()
    );

    let packet = Socket::build_packet_for_payloads(
        vec![Payload::Binary(vec![1, 2, 3])],
        Some(Event(b"project:delete".to_vec())),
        b"/admin",
        Some(456),
        false,
    );

    assert_eq!(
        packet.unwrap().encode(),
        "51-/admin,456[\"project:delete\",{\"_placeholder\":true,\"num\":0}]"
            .to_string()
            .into_bytes()
    );

    let packet = Socket::build_packet_for_payloads(
        vec![Payload::Binary(vec![3, 2, 1])],
        None,
        b"/admin",
        Some(456),
        true,
    );

    assert_eq!(
        packet.unwrap().encode(),
        "61-/admin,456[{\"_placeholder\":true,\"num\":0}]"
            .to_string()
            .into_bytes()
    );

    let packet =
        Socket::build_packet_for_payloads(vec![], Some(Event(b"hello".to_vec())), b"/", None, false);
    assert_eq!(packet.unwrap().encode(), "2[\"hello\"]".to_string().into_bytes());

    let payloads = vec![
        Payload::Binary(vec![1, 2, 3]),
        Payload::String(b"1".to_vec()),
    ];
    let packet =
        Socket::build_packet_for_payloads(payloads, Some(Event(b"hello".to_vec())), b"/", None, false);

    assert_eq!(
        packet.unwrap().encode(),
        "51-[\"hello\",{\"_placeholder\":true,\"num\":0},1]"
            .to_string()
            .into_bytes()
    );

    let payloads = vec![
        Payload::Binary(vec![1, 2, 3]),
        Payload::Binary(vec![1, 2, 3]),
    ];
    let packet = Socket::build_packet_for_payloads(
        payloads,
        Some(Event(b"project:delete".to_vec())),
        b"/admin",
        Some(456),
        false,
    );

    assert_eq!(
        packet.unwrap().encode(),
        "52-/admin,456[\"project:delete\",{\"_placeholder\":true,\"num\":0},{\"_placeholder\":true,\"num\":1}]"
            .to_string()
            .into_bytes()
    );

    let payloads = vec![Payload::Number(4), Payload::Binary(vec![3, 2, 1])];
    let packet = Socket::build_packet_for_payloads(payloads, None, b"/admin", Some(456), true);

    assert_eq!(
        packet.unwrap().encode(),
        "61-/admin,456[4,{\"_placeholder\":true,\"num\":0}]"
            .to_string()
            .into_bytes()
    );
}

#[test]
fn engine_text_round_trip() {
    let packet = EnginePacket::new(EnginePacketId::Message, b"msg".to_vec());
    let frame = packet.serialize();
    assert_eq!(frame, EngineFrame::Text(b"4msg".to_vec()));
    let back = EnginePacket::parse(&frame).unwrap();
    assert_eq!(back.packet_id, EnginePacketId::Message);
    assert_eq!(back.data, b"msg".to_vec());
}

#[test]
fn engine_binary_round_trip() {
    let packet = EnginePacket::new(EnginePacketId::MessageBinary, vec![1, 2, 3]);
    let frame = packet.serialize();
    assert_eq!(frame, EngineFrame::Binary(vec![1, 2, 3]));
    let back = EnginePacket::parse(&frame).unwrap();
    assert_eq!(back.packet_id, EnginePacketId::MessageBinary);
    assert_eq!(back.data, vec![1, 2, 3]);
}

#[test]
fn engine_all_text_ids_round_trip() {
    let ids = [
        EnginePacketId::Open,
        EnginePacketId::Close,
        EnginePacketId::Ping,
        EnginePacketId::Pong,
        EnginePacketId::Message,
        EnginePacketId::Upgrade,
        EnginePacketId::Noop,
    ];
    for (k, id) in ids.iter().enumerate() {
        let packet = EnginePacket::new(*id, b"payload".to_vec());
        let frame = packet.serialize();
        match &frame {
            EngineFrame::Text(v) => assert_eq!(v[0], b'0' + k as u8),
            EngineFrame::Binary(_) => panic!("text id must give a text frame"),
        }
        let back = EnginePacket::parse(&frame).unwrap();
        assert_eq!(back.packet_id, *id);
        assert_eq!(back.data, b"payload".to_vec());
    }
}

#[test]
fn engine_parse_rejects_empty_and_unknown() {
    assert_eq!(
        EnginePacket::parse(&EngineFrame::Text(vec![])),
        Err(Error::InvalidPacket)
    );
    assert_eq!(
        EnginePacket::parse(&EngineFrame::Text(b"9abc".to_vec())),
        Err(Error::InvalidPacket)
    );
}

#[test]
fn packet_decode_round_trip() {
    let p = Packet::decode(b"51-/admin,456[\"project:delete\",{\"_placeholder\":true,\"num\":0}]")
        .unwrap();
    assert_eq!(p.packet_type, PacketId::BinaryEvent);
    assert_eq!(p.attachment_count, 1);
    assert_eq!(p.nsp, b"/admin".to_vec());
    assert_eq!(p.id, Some(456));
    assert_eq!(
        p.data,
        Some(b"[\"project:delete\",{\"_placeholder\":true,\"num\":0}]".to_vec())
    );
    assert_eq!(p.attachments, None);
    assert_eq!(
        p.encode(),
        b"51-/admin,456[\"project:delete\",{\"_placeholder\":true,\"num\":0}]".to_vec()
    );
}

#[test]
fn packet_decode_default_namespace() {
    let p = Packet::decode(b"2[\"hello\"]").unwrap();
    assert_eq!(p.packet_type, PacketId::Event);
    assert_eq!(p.nsp, b"/".to_vec());
    assert_eq!(p.id, None);
    assert_eq!(p.data, Some(b"[\"hello\"]".to_vec()));
    assert_eq!(p.encode(), b"2[\"hello\"]".to_vec());
}

#[test]
fn packet_decode_rejects_malformed() {
    assert!(matches!(Packet::decode(b""), Err(Error::InvalidPacket)));
    assert!(matches!(Packet::decode(b"9"), Err(Error::InvalidPacket)));
    // a binary event whose attachment count never ends in '-'
    assert!(matches!(Packet::decode(b"51"), Err(Error::InvalidPacket)));
    // a namespace that never ends in ','
    assert!(matches!(Packet::decode(b"2/admin"), Err(Error::InvalidPacket)));
}

#[test]
fn attachment_pairing_restores_binary_event() {
    let head = EnginePacket::new(
        EnginePacketId::Message,
        b"51-[\"hello\",{\"_placeholder\":true,\"num\":0}]".to_vec(),
    );
    let following = vec![EnginePacket::new(EnginePacketId::MessageBinary, vec![1, 2, 3])];
    let p = Socket::handle_engineio_packet(&head, &following).unwrap();
    assert_eq!(p.packet_type, PacketId::BinaryEvent);
    assert_eq!(p.attachments, Some(vec![vec![1, 2, 3]]));
    assert_eq!(
        p.encode(),
        b"51-[\"hello\",{\"_placeholder\":true,\"num\":0}]".to_vec()
    );
}

#[test]
fn attachment_pairing_incomplete_stream() {
    let head = EnginePacket::new(
        EnginePacketId::Message,
        b"51-[\"hello\",{\"_placeholder\":true,\"num\":0}]".to_vec(),
    );
    let following: Vec<EnginePacket> = vec![];
    assert_eq!(
        Socket::handle_engineio_packet(&head, &following),
        Err(Error::IncompletePacket)
    );
}

#[test]
fn attachment_pairing_rejects_non_message_frame() {
    let head = EnginePacket::new(
        EnginePacketId::Message,
        b"51-[\"hello\",{\"_placeholder\":true,\"num\":0}]".to_vec(),
    );
    let following = vec![EnginePacket::new(EnginePacketId::Ping, vec![])];
    assert_eq!(
        Socket::handle_engineio_packet(&head, &following),
        Err(Error::InvalidAttachmentPacketType(2))
    );
}

#[test]
fn string_payload_quoted_only_when_not_json() {
    // "1" is JSON and stays inline; "hi" is not and gets quoted
    let packet = Socket::build_packet_for_payloads(
        vec![Payload::String(b"hi".to_vec()), Payload::String(b"1".to_vec())],
        Some(Event(b"ev".to_vec())),
        b"/",
        None,
        false,
    );
    assert_eq!(packet.unwrap().encode(), b"2[\"ev\",\"hi\",1]".to_vec());
}

#[test]
fn negative_number_payload() {
    let packet =
        Socket::build_packet_for_payloads(vec![Payload::Number(-7)], None, b"/", Some(3), true);
    assert_eq!(packet.unwrap().encode(), b"33[-7]".to_vec());
}
