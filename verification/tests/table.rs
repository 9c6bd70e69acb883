use pixel_canvas::broadcast::BroadcastCore;
use pixel_canvas::settings::{MAX_CONNECTIONS_PER_WORKER, MAX_CONN_ID_LEN, PKT_BUF_SIZE};
use pixel_canvas::transport::{random_connection_id, ConnectionTable, RouteDecision};
use pixel_canvas::worker::Framing;

#[test]
fn test_route_accepts_initial_and_links_dcid() {
    let mut t = ConnectionTable::new();
    assert_eq!(t.free_slots(), MAX_CONNECTIONS_PER_WORKER);
    assert_eq!(t.active_connections(), 0);

    let dcid = vec![1u8, 2, 3, 4];
    let scid = vec![9u8; MAX_CONN_ID_LEN];

    // An Initial from an unknown peer is accepted with the freshly
    // generated source id; ids are handed out from the top of the range.
    match t.route(&dcid, true, scid.clone()) {
        RouteDecision::Accepted(uid, s) => {
            assert_eq!(uid, (MAX_CONNECTIONS_PER_WORKER - 1) as u32);
            assert_eq!(s, scid);
        },
        other => panic!("expected acceptance, got {:?}", other),
    }
    assert_eq!(t.active_connections(), 1);
    assert_eq!(t.free_slots(), MAX_CONNECTIONS_PER_WORKER - 1);

    // A repeat packet with the peer's original destination id routes
    // through the reverse index in one lookup.
    match t.route(&dcid, false, vec![0u8; MAX_CONN_ID_LEN]) {
        RouteDecision::Existing(uid, s) => {
            assert_eq!(uid, (MAX_CONNECTIONS_PER_WORKER - 1) as u32);
            assert_eq!(s, scid);
        },
        other => panic!("expected existing connection, got {:?}", other),
    }

    // A packet addressed to the server-chosen source id routes directly.
    match t.route(&scid, false, vec![2u8; MAX_CONN_ID_LEN]) {
        RouteDecision::Existing(uid, _) => {
            assert_eq!(uid, (MAX_CONNECTIONS_PER_WORKER - 1) as u32)
        },
        other => panic!("expected existing connection, got {:?}", other),
    }

    // An unknown destination id outside an Initial is dropped.
    match t.route(&vec![5u8, 5], false, vec![1u8; MAX_CONN_ID_LEN]) {
        RouteDecision::Dropped => {},
        other => panic!("expected drop, got {:?}", other),
    }
}

#[test]
fn test_remove_connection_recycles_user_id() {
    let mut t = ConnectionTable::new();
    let dcid = vec![8u8, 8];
    let scid = vec![7u8; MAX_CONN_ID_LEN];
    match t.route(&dcid, true, scid.clone()) {
        RouteDecision::Accepted(_, _) => {},
        other => panic!("expected acceptance, got {:?}", other),
    }

    assert!(t.remove_connection(&scid));
    assert_eq!(t.free_slots(), MAX_CONNECTIONS_PER_WORKER);
    assert_eq!(t.active_connections(), 0);
    assert!(!t.remove_connection(&scid));

    // After removal the peer's destination id no longer routes.
    match t.route(&dcid, false, vec![3u8; MAX_CONN_ID_LEN]) {
        RouteDecision::Dropped => {},
        other => panic!("expected drop, got {:?}", other),
    }
}

#[test]
fn test_random_connection_id_length() {
    let id = random_connection_id();
    assert_eq!(id.len(), MAX_CONN_ID_LEN);
}

#[test]
fn test_framing_parse_full_frame() {
    let mut buf = vec![0u8; PKT_BUF_SIZE];
    // Completion summary: namelen, controllen, payloadlen (little-endian).
    buf[0..4].copy_from_slice(&16u32.to_le_bytes());
    buf[4..8].copy_from_slice(&28u32.to_le_bytes());
    buf[8..12].copy_from_slice(&5u32.to_le_bytes());
    // Peer socket address: port and IPv4 address in network order.
    buf[18] = 0xAB;
    buf[19] = 0xCD;
    buf[20..24].copy_from_slice(&[1, 2, 3, 4]);
    // One packet-info control message: length 28, level 0, type 8, and the
    // destination address at its byte 8.
    buf[32..40].copy_from_slice(&28u64.to_le_bytes());
    buf[40..44].copy_from_slice(&0u32.to_le_bytes());
    buf[44..48].copy_from_slice(&8u32.to_le_bytes());
    buf[56..60].copy_from_slice(&[9, 8, 7, 6]);
    // Payload.
    buf[96..101].copy_from_slice(&[100, 0, 200, 0, 255]);

    let framing = Framing::new(4433);
    let frame = framing.parse(&buf).expect("well-formed frame");
    assert_eq!(frame.peer_port, 0xABCD);
    assert_eq!(frame.peer_ip, 0x01020304);
    assert_eq!(frame.local_ip, 0x09080706);
    assert_eq!(frame.local_port, 4433);
    assert_eq!(frame.payload_pos, 96);
    assert_eq!(frame.payload_len, 5);
    assert_eq!(&buf[frame.payload_pos..frame.payload_pos + frame.payload_len], &[
        100, 0, 200, 0, 255
    ]);
}

#[test]
fn test_framing_parse_defaults_and_overrun() {
    // No address and no ancillary data: placeholder peer, unspecified local.
    let mut buf = vec![0u8; PKT_BUF_SIZE];
    buf[8..12].copy_from_slice(&3u32.to_le_bytes());
    let framing = Framing::new(4433);
    let frame = framing.parse(&buf).expect("frame with defaults");
    assert_eq!(frame.peer_ip, 0x7F000001);
    assert_eq!(frame.peer_port, 0);
    assert_eq!(frame.local_ip, 0);
    assert_eq!(frame.payload_len, 3);

    // A recorded payload length past the buffer is rejected.
    let mut bad = vec![0u8; PKT_BUF_SIZE];
    bad[8..12].copy_from_slice(&4000u32.to_le_bytes());
    assert!(framing.parse(&bad).is_none());
}

#[test]
fn test_broadcast_core_interval() {
    let core = BroadcastCore::new();
    assert!(!core.due(1000, 5999));
    assert!(core.due(1000, 6000));
}
