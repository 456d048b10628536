//! The protocol's JSON cases: a line is decoded here with serde_json the way
//! the overlay process decodes it, and the library decides what is accepted.
use serde_json::Value;

type JsonObject = serde_json::Map<String, Value>;
use vesktop_voice_overlay::config::{AvatarSizeMode, NameDisplayMode, OverlaySettings, UserDisplayMode};
use vesktop_voice_overlay::protocol::{
    deserialize_client_message, ClientMessage, Participant, ParticipantSelf, Snapshot,
    MAX_PAYLOAD_SIZE,
};

fn string_field(object: &JsonObject, key: &str) -> Option<String> {
    object.get(key)?.as_str().map(|s| s.to_string())
}

fn bool_field(object: &JsonObject, key: &str) -> Option<bool> {
    object.get(key)?.as_bool()
}

fn bool_or_false(object: &JsonObject, key: &str) -> Option<bool> {
    match object.get(key) {
        None => Some(false),
        Some(value) => value.as_bool(),
    }
}

fn decode_self(value: &Value) -> Option<ParticipantSelf> {
    let object = value.as_object()?;
    Some(ParticipantSelf {
        user_id: string_field(object, "userId")?,
        username: string_field(object, "username")?,
        avatar_url: string_field(object, "avatarUrl")?,
        mute: bool_field(object, "mute")?,
        deaf: bool_field(object, "deaf")?,
        speaking: bool_field(object, "speaking")?,
    })
}

fn decode_participant(value: &Value) -> Option<Participant> {
    let object = value.as_object()?;
    let volume = match object.get("volume") {
        None | Some(Value::Null) => None,
        Some(v) => Some(u8::try_from(v.as_u64()?).ok()?),
    };
    Some(Participant {
        user_id: string_field(object, "userId")?,
        username: string_field(object, "username")?,
        avatar_url: string_field(object, "avatarUrl")?,
        mute: bool_or_false(object, "mute")?,
        deaf: bool_or_false(object, "deaf")?,
        speaking: bool_field(object, "speaking")?,
        volume,
    })
}

fn decode_snapshot(line: &str) -> Option<Snapshot> {
    let value: Value = serde_json::from_str(line).ok()?;
    let object = value.as_object()?;
    let mut participants = Vec::new();
    for p in object.get("participants")?.as_array()? {
        participants.push(decode_participant(p)?);
    }
    Some(Snapshot {
        version: u8::try_from(object.get("version")?.as_u64()?).ok()?,
        timestamp: object.get("timestamp")?.as_u64()?,
        self_: decode_self(object.get("self")?)?,
        participants,
    })
}

fn decode_settings(value: &Value) -> Option<OverlaySettings> {
    let object = value.as_object()?;
    let user_display = match object.get("user_display")?.as_str()? {
        "always" => UserDisplayMode::Always,
        "speaking_only" => UserDisplayMode::SpeakingOnly,
        _ => return None,
    };
    let name_display = match object.get("name_display")?.as_str()? {
        "always" => NameDisplayMode::Always,
        "speaking_only" => NameDisplayMode::SpeakingOnly,
        "never" => NameDisplayMode::Never,
        _ => return None,
    };
    let avatar_size_mode = match object.get("avatar_size_mode")?.as_str()? {
        "small" => AvatarSizeMode::Small,
        "large" => AvatarSizeMode::Large,
        _ => return None,
    };
    Some(OverlaySettings {
        enabled: bool_field(object, "enabled")?,
        position: string_field(object, "position")?,
        custom_x: i32::try_from(object.get("custom_x")?.as_i64()?).ok()?,
        custom_y: i32::try_from(object.get("custom_y")?.as_i64()?).ok()?,
        user_display,
        name_display,
        avatar_size_mode,
    })
}

fn decode_message(line: &str) -> Option<ClientMessage> {
    let value: Value = serde_json::from_str(line).ok()?;
    let object = value.as_object()?;
    match object.get("type")?.as_str()? {
        "settings" => Some(ClientMessage::Settings { settings: decode_settings(object.get("settings")?)? }),
        "clear" => Some(ClientMessage::Clear),
        _ => None,
    }
}

fn accept_snapshot(line: &str) -> Option<Snapshot> {
    Snapshot::deserialize(line, decode_snapshot(line))
}

fn accept_message(line: &str) -> Option<ClientMessage> {
    deserialize_client_message(line, decode_message(line))
}

fn encode_snapshot(snapshot: &Snapshot) -> String {
    let mut me = JsonObject::new();
    me.insert("userId".into(), Value::from(snapshot.self_.user_id.clone()));
    me.insert("username".into(), Value::from(snapshot.self_.username.clone()));
    me.insert("avatarUrl".into(), Value::from(snapshot.self_.avatar_url.clone()));
    me.insert("mute".into(), Value::from(snapshot.self_.mute));
    me.insert("deaf".into(), Value::from(snapshot.self_.deaf));
    me.insert("speaking".into(), Value::from(snapshot.self_.speaking));
    let mut others = Vec::new();
    for p in &snapshot.participants {
        let mut entry = JsonObject::new();
        entry.insert("userId".into(), Value::from(p.user_id.clone()));
        entry.insert("username".into(), Value::from(p.username.clone()));
        entry.insert("avatarUrl".into(), Value::from(p.avatar_url.clone()));
        entry.insert("mute".into(), Value::from(p.mute));
        entry.insert("deaf".into(), Value::from(p.deaf));
        entry.insert("speaking".into(), Value::from(p.speaking));
        if let Some(volume) = p.volume {
            entry.insert("volume".into(), Value::from(volume));
        }
        others.push(Value::Object(entry));
    }
    let mut root = JsonObject::new();
    root.insert("version".into(), Value::from(snapshot.version));
    root.insert("timestamp".into(), Value::from(snapshot.timestamp));
    root.insert("self".into(), Value::Object(me));
    root.insert("participants".into(), Value::Array(others));
    Value::Object(root).to_string()
}

#[test]
fn test_deserialize_valid_snapshot() {
    let json = r#"{"version":1,"timestamp":1692000000000,"self":{"userId":"123","username":"Test","avatarUrl":"","mute":false,"deaf":false,"speaking":true},"participants":[{"userId":"456","username":"Friend","avatarUrl":"","speaking":false,"volume":80}]}"#;

    let snapshot = accept_snapshot(json).expect("Should deserialize");
    assert_eq!(snapshot.version, 1);
    assert_eq!(snapshot.timestamp, 1692000000000);
    assert_eq!(snapshot.self_.user_id, "123");
    assert!(snapshot.self_.speaking);
    assert_eq!(snapshot.participants.len(), 1);
    assert_eq!(snapshot.participants[0].volume, Some(80));
}

#[test]
fn test_deserialize_invalid_json() {
    let result = accept_snapshot("not json");
    assert!(result.is_none());
}

#[test]
fn test_deserialize_wrong_version() {
    let json = r#"{"version":2,"timestamp":0,"self":{},"participants":[]}"#;
    let result = accept_snapshot(json);
    assert!(result.is_none());
}

#[test]
fn test_serialize_round_trip() {
    let original = Snapshot {
        version: 1,
        timestamp: 1234567890,
        self_: ParticipantSelf {
            user_id: "123".into(),
            username: "Test".into(),
            avatar_url: "".into(),
            mute: false,
            deaf: false,
            speaking: true,
        },
        participants: vec![Participant {
            user_id: "456".into(),
            username: "Friend".into(),
            avatar_url: "".into(),
            mute: false,
            deaf: false,
            speaking: false,
            volume: Some(75),
        }],
    };

    let json = encode_snapshot(&original);
    let parsed = accept_snapshot(&json).expect("Should parse");
    assert_eq!(parsed, original);
}

#[test]
fn test_payload_size_limit() {
    let large_json = "x".repeat(MAX_PAYLOAD_SIZE + 1);
    let result = accept_snapshot(&large_json);
    assert!(result.is_none());
}

#[test]
fn test_deserialize_valid_settings() {
    let json = r#"{"type":"settings","settings":{"enabled":true,"position":"custom","custom_x":120,"custom_y":80,"user_display":"speaking_only","name_display":"always","avatar_size_mode":"small"}}"#;

    assert!(matches!(accept_message(json), Some(ClientMessage::Settings { .. })));
}

#[test]
fn test_deserialize_clear_message() {
    assert!(matches!(accept_message(r#"{"type":"clear"}"#), Some(ClientMessage::Clear)));
}

#[test]
fn test_reject_invalid_settings_position() {
    let json = r#"{"type":"settings","settings":{"enabled":true,"position":"somewhere","custom_x":0,"custom_y":0,"user_display":"speaking_only","name_display":"always","avatar_size_mode":"small"}}"#;

    assert!(accept_message(json).is_none());
}

#[test]
fn test_deserialize_settings_accepts_large_avatar_mode() {
    let json = r#"{"type":"settings","settings":{"enabled":true,"position":"top-right","custom_x":20,"custom_y":20,"user_display":"speaking_only","name_display":"always","avatar_size_mode":"large"}}"#;

    match accept_message(json) {
        Some(ClientMessage::Settings { settings }) => {
            assert_eq!(settings.avatar_size_mode, AvatarSizeMode::Large);
        }
        other => panic!("Expected valid settings message, got {other:?}"),
    }
}
