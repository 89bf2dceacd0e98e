use netplay_core::connection::{all_hashes_known, handle_packet, unknown_hashes, ConnectionPhase,
    ProtocolError};
use netplay_core::netplay_packets::{NetplayBufferItem, NetplayPacket, NetplayPacketData,
    NetplaySignal};
use netplay_core::structures::{FileHash, Input, PackageCategory, PackageId};

fn hash(bytes: &[u8]) -> FileHash {
    FileHash { bytes: bytes.to_vec() }
}

fn packet(data: NetplayPacketData) -> NetplayPacket {
    NetplayPacket { index: 0, data }
}

fn player_setup(cards: Vec<(PackageId, String)>, regular_card: Option<usize>) -> NetplayPacket {
    packet(NetplayPacketData::PlayerSetup {
        player_package: PackageId { id: String::from("player.example") },
        script_enabled: true,
        cards,
        regular_card,
        recipes: Vec::new(),
        blocks: Vec::new(),
        drives: Vec::new(),
    })
}

fn three_cards() -> Vec<(PackageId, String)> {
    vec![
        (PackageId { id: String::from("card.a") }, String::from("A")),
        (PackageId { id: String::from("card.b") }, String::from("B")),
        (PackageId { id: String::from("card.c") }, String::from("C")),
    ]
}

#[test]
fn disconnect_signal_closes_a_steady_connection() {
    let pkt = NetplayPacket::new_disconnect_signal(1);
    assert_eq!(pkt.index, 1);
    assert_eq!(handle_packet(ConnectionPhase::Steady, &pkt), Ok(ConnectionPhase::Closed));
}

#[test]
fn disconnect_closes_whatever_the_frame_presses() {
    let pkt = packet(NetplayPacketData::Buffer {
        data: NetplayBufferItem {
            pressed: vec![Input::Shoot, Input::DpadLeft],
            signals: vec![NetplaySignal::AttemptingFlee, NetplaySignal::Disconnect],
        },
        lead: vec![-1, 2],
    });
    assert_eq!(handle_packet(ConnectionPhase::Steady, &pkt), Ok(ConnectionPhase::Closed));
}

#[test]
fn buffer_without_disconnect_stays_steady() {
    let pkt = packet(NetplayPacketData::Buffer {
        data: NetplayBufferItem {
            pressed: vec![Input::Shoot],
            signals: vec![NetplaySignal::AttemptingFlee],
        },
        lead: Vec::new(),
    });
    assert_eq!(handle_packet(ConnectionPhase::Steady, &pkt), Ok(ConnectionPhase::Steady));
}

#[test]
fn out_of_range_regular_card_is_a_protocol_error() {
    let pkt = player_setup(three_cards(), Some(5));
    assert_eq!(
        handle_packet(ConnectionPhase::SettingUp, &pkt),
        Err(ProtocolError::RegularCardOutOfRange)
    );
}

#[test]
fn in_range_or_absent_regular_card_is_accepted() {
    let pkt = player_setup(three_cards(), Some(2));
    assert_eq!(handle_packet(ConnectionPhase::SettingUp, &pkt), Ok(ConnectionPhase::SettingUp));
    let pkt = player_setup(three_cards(), None);
    assert_eq!(handle_packet(ConnectionPhase::SettingUp, &pkt), Ok(ConnectionPhase::SettingUp));
    let pkt = player_setup(Vec::new(), Some(0));
    assert_eq!(
        handle_packet(ConnectionPhase::SettingUp, &pkt),
        Err(ProtocolError::RegularCardOutOfRange)
    );
}

#[test]
fn buffer_before_ready_is_unexpected() {
    let pkt = packet(NetplayPacketData::Buffer {
        data: NetplayBufferItem { pressed: Vec::new(), signals: Vec::new() },
        lead: Vec::new(),
    });
    assert_eq!(
        handle_packet(ConnectionPhase::SettingUp, &pkt),
        Err(ProtocolError::UnexpectedMessage)
    );
    assert_eq!(
        handle_packet(ConnectionPhase::Connecting, &pkt),
        Err(ProtocolError::UnexpectedMessage)
    );
}

#[test]
fn a_connection_walks_the_phases_in_order() {
    let mut phase = ConnectionPhase::Connecting;
    phase = handle_packet(phase, &packet(NetplayPacketData::Hello)).unwrap();
    assert_eq!(phase, ConnectionPhase::SettingUp);
    phase = handle_packet(phase, &player_setup(three_cards(), Some(0))).unwrap();
    assert_eq!(phase, ConnectionPhase::SettingUp);
    phase = handle_packet(phase, &packet(NetplayPacketData::PackageList {
        packages: Vec::new(),
    })).unwrap();
    assert_eq!(phase, ConnectionPhase::SettingUp);
    phase = handle_packet(phase, &packet(NetplayPacketData::ReadyForPackages)).unwrap();
    assert_eq!(phase, ConnectionPhase::ReadyPending);
    phase = handle_packet(phase, &packet(NetplayPacketData::Ready)).unwrap();
    assert_eq!(phase, ConnectionPhase::Steady);
    phase = handle_packet(phase, &NetplayPacket::new_disconnect_signal(0)).unwrap();
    assert_eq!(phase, ConnectionPhase::Closed);
}

#[test]
fn heartbeat_keeps_any_open_phase() {
    let hb = packet(NetplayPacketData::Heartbeat);
    for phase in [
        ConnectionPhase::Connecting,
        ConnectionPhase::SettingUp,
        ConnectionPhase::ReadyPending,
        ConnectionPhase::Steady,
    ] {
        assert_eq!(handle_packet(phase, &hb), Ok(phase));
    }
}

#[test]
fn a_closed_connection_accepts_nothing() {
    for data in [
        NetplayPacketData::Heartbeat,
        NetplayPacketData::Hello,
        NetplayPacketData::Ready,
        NetplayPacketData::Buffer {
            data: NetplayBufferItem { pressed: Vec::new(), signals: Vec::new() },
            lead: Vec::new(),
        },
    ] {
        assert_eq!(
            handle_packet(ConnectionPhase::Closed, &packet(data)),
            Err(ProtocolError::UnexpectedMessage)
        );
    }
}

#[test]
fn hello_ack_also_completes_the_handshake() {
    assert_eq!(
        handle_packet(ConnectionPhase::Connecting, &packet(NetplayPacketData::HelloAck)),
        Ok(ConnectionPhase::SettingUp)
    );
}

#[test]
fn ready_straight_from_setup_enters_steady() {
    assert_eq!(
        handle_packet(ConnectionPhase::SettingUp, &packet(NetplayPacketData::Ready)),
        Ok(ConnectionPhase::Steady)
    );
}

#[test]
fn package_diff_names_exactly_the_absent_hashes_in_order() {
    let packages = vec![
        (PackageCategory::Card, PackageId { id: String::from("card.a") }, hash(&[1, 2])),
        (PackageCategory::Player, PackageId { id: String::from("player.b") }, hash(&[3])),
        (PackageCategory::Augment, PackageId { id: String::from("augment.c") }, hash(&[4, 5])),
    ];
    let installed = vec![hash(&[3]), hash(&[7])];
    assert_eq!(unknown_hashes(&packages, &installed), vec![hash(&[1, 2]), hash(&[4, 5])]);
    assert_eq!(unknown_hashes(&packages, &Vec::new()).len(), 3);
    assert_eq!(
        unknown_hashes(&packages, &vec![hash(&[1, 2]), hash(&[3]), hash(&[4, 5])]),
        Vec::new()
    );
}

#[test]
fn requests_naming_unadvertised_hashes_are_detected() {
    let advertised = vec![hash(&[1]), hash(&[2])];
    assert!(all_hashes_known(&vec![hash(&[2]), hash(&[1])], &advertised));
    assert!(all_hashes_known(&Vec::new(), &advertised));
    assert!(!all_hashes_known(&vec![hash(&[2]), hash(&[9])], &advertised));
}

#[test]
fn disconnect_packet_carries_one_signal_and_nothing_else() {
    let pkt = NetplayPacket::new_disconnect_signal(3);
    assert_eq!(pkt.index, 3);
    match pkt.data {
        NetplayPacketData::Buffer { data, lead } => {
            assert!(data.pressed.is_empty());
            assert_eq!(data.signals, vec![NetplaySignal::Disconnect]);
            assert!(lead.is_empty());
        }
        _ => panic!("expected a buffer packet"),
    }
}
