use vesktop_voice_overlay::config::{AvatarSizeMode, NameDisplayMode, OverlaySettings, UserDisplayMode};
use vesktop_voice_overlay::protocol::{
    deserialize_client_message, payload_within_limit, ClientMessage, Participant,
    ParticipantSelf, Snapshot, MAX_PAYLOAD_SIZE, PROTOCOL_HEADER, PROTOCOL_VERSION,
};

fn snapshot(version: u8) -> Snapshot {
    Snapshot {
        version,
        timestamp: 1692000000000,
        self_: ParticipantSelf {
            user_id: "123".into(),
            username: "Test".into(),
            avatar_url: String::new(),
            mute: false,
            deaf: false,
            speaking: true,
        },
        participants: vec![Participant {
            user_id: "456".into(),
            username: "Friend".into(),
            avatar_url: String::new(),
            mute: false,
            deaf: false,
            speaking: false,
            volume: Some(80),
        }],
    }
}

fn settings(position: &str) -> OverlaySettings {
    OverlaySettings {
        enabled: true,
        position: position.into(),
        custom_x: 120,
        custom_y: 80,
        user_display: UserDisplayMode::SpeakingOnly,
        name_display: NameDisplayMode::Always,
        avatar_size_mode: AvatarSizeMode::Small,
    }
}

#[test]
fn decoded_version_one_snapshot_is_accepted() {
    let accepted = Snapshot::deserialize("{}", Some(snapshot(1))).expect("accepted");
    assert_eq!(accepted, snapshot(1));
    assert_eq!(accepted.participants[0].volume, Some(80));
}

#[test]
fn other_versions_and_undecodable_lines_are_rejected() {
    assert!(Snapshot::deserialize("{}", Some(snapshot(2))).is_none());
    assert!(Snapshot::deserialize("not json", None).is_none());
}

#[test]
fn oversized_line_is_rejected_even_when_decoded() {
    let large = "x".repeat(MAX_PAYLOAD_SIZE + 1);
    assert!(!payload_within_limit(&large));
    assert!(Snapshot::deserialize(&large, Some(snapshot(1))).is_none());
    assert!(deserialize_client_message(&large, Some(ClientMessage::Clear)).is_none());
    let limit = "x".repeat(MAX_PAYLOAD_SIZE);
    assert!(payload_within_limit(&limit));
    assert!(Snapshot::deserialize(&limit, Some(snapshot(1))).is_some());
}

#[test]
fn client_messages_are_checked() {
    assert!(matches!(
        deserialize_client_message("{}", Some(ClientMessage::Settings { settings: settings("custom") })),
        Some(ClientMessage::Settings { .. })
    ));
    assert!(deserialize_client_message("{}", Some(ClientMessage::Settings { settings: settings("somewhere") })).is_none());
    assert!(matches!(
        deserialize_client_message("{\"type\":\"clear\"}", Some(ClientMessage::Clear)),
        Some(ClientMessage::Clear)
    ));
    assert!(deserialize_client_message("{}", None).is_none());
}

#[test]
fn protocol_constants() {
    assert_eq!(PROTOCOL_VERSION, 1);
    assert_eq!(PROTOCOL_HEADER, "VESKTOP_VOICE_OVERLAY/1.0\n");
    assert_eq!(MAX_PAYLOAD_SIZE, 64 * 1024);
}
