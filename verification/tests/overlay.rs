use vesktop_voice_overlay::config::{Config, AvatarSizeMode, NameDisplayMode, OverlaySettings, SocketConfig, UserDisplayMode};
use vesktop_voice_overlay::overlay::OverlayState;
use vesktop_voice_overlay::protocol::{ParticipantSelf, Snapshot, PROTOCOL_VERSION};

fn snapshot_with_speaking_self(speaking: bool) -> Snapshot {
    Snapshot {
        version: PROTOCOL_VERSION,
        timestamp: 0,
        self_: ParticipantSelf {
            user_id: "me".to_string(),
            username: "Me".to_string(),
            avatar_url: String::new(),
            mute: false,
            deaf: false,
            speaking,
        },
        participants: Vec::new(),
    }
}

fn settings(enabled: bool, user_display: UserDisplayMode) -> OverlaySettings {
    OverlaySettings {
        enabled,
        position: "top-right".into(),
        custom_x: 0,
        custom_y: 0,
        user_display,
        name_display: NameDisplayMode::Always,
        avatar_size_mode: AvatarSizeMode::Small,
    }
}

fn state() -> OverlayState {
    OverlayState::new(Config::with_socket(SocketConfig { path: String::new() }))
}

#[test]
fn container_visibility_tracks_visible_participants() {
    let mut ui = state();
    assert!(ui.last_snapshot().is_none(), "empty overlay must not render before the first snapshot");

    // Default user_display is speaking_only: a speaking self is visible.
    assert!(ui.update_from_snapshot(snapshot_with_speaking_self(true)).visible);

    let update = ui.update_from_snapshot(snapshot_with_speaking_self(false));
    assert!(!update.visible, "container must hide when no participant is visible");
    assert_eq!(update.rows.map(|r| r.len()), Some(0));
}

#[test]
fn settings_before_any_snapshot_show_nothing() {
    let mut ui = state();
    let update = ui.update_settings(settings(true, UserDisplayMode::Always));
    assert!(update.rows.is_none());
    assert!(!update.visible);
    assert_eq!(ui.config().overlay.user_display, UserDisplayMode::Always);
}

#[test]
fn settings_replay_the_last_snapshot() {
    let mut ui = state();
    assert!(!ui.update_from_snapshot(snapshot_with_speaking_self(false)).visible);
    let update = ui.update_settings(settings(true, UserDisplayMode::Always));
    assert!(update.visible);
    assert_eq!(update.rows.expect("rows")[0].0, "me");
}

#[test]
fn disabling_removes_every_row() {
    let mut ui = state();
    assert!(ui.update_from_snapshot(snapshot_with_speaking_self(true)).visible);
    let update = ui.update_settings(settings(false, UserDisplayMode::Always));
    assert!(!update.visible);
    assert_eq!(update.rows.map(|r| r.len()), Some(0));
}

#[test]
fn clear_forgets_the_snapshot() {
    let mut ui = state();
    assert!(ui.update_from_snapshot(snapshot_with_speaking_self(true)).visible);
    let update = ui.clear();
    assert!(!update.visible);
    assert!(ui.last_snapshot().is_none());
    let update = ui.update_settings(settings(true, UserDisplayMode::Always));
    assert!(update.rows.is_none() && !update.visible, "a clear must not be undone by settings");
}
