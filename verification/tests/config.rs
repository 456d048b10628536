use vesktop_voice_overlay::config::{
    default_avatar_size, default_max_participants, default_position, default_pulse_ms,
    default_socket_path, default_theme, default_true, AppearanceConfig, AvatarSizeMode, Config,
    NameDisplayMode, OverlayConfig, OverlaySettings, SocketConfig, UserDisplayMode,
};

fn settings(position: &str, x: i32, y: i32) -> OverlaySettings {
    OverlaySettings {
        enabled: true,
        position: position.into(),
        custom_x: x,
        custom_y: y,
        user_display: UserDisplayMode::Always,
        name_display: NameDisplayMode::Never,
        avatar_size_mode: AvatarSizeMode::Large,
    }
}

#[test]
fn settings_validation_accepts_known_positions_and_bounded_coordinates() {
    for position in ["top-left", "top-right", "bottom-left", "bottom-right", "center", "custom"] {
        assert!(settings(position, 0, 0).is_valid(), "{position}");
    }
    assert!(!settings("somewhere", 0, 0).is_valid());
    assert!(!settings("Top-Left", 0, 0).is_valid());
    assert!(settings("custom", 32768, -32768).is_valid());
    assert!(!settings("custom", 32769, 0).is_valid());
    assert!(!settings("custom", 0, -32769).is_valid());
}

#[test]
fn defaults_match_the_documented_values() {
    assert_eq!(default_position(), "top-right");
    assert_eq!(default_max_participants(), 10);
    assert_eq!(default_avatar_size(), 28);
    assert_eq!(default_theme(), "auto");
    assert_eq!(default_pulse_ms(), 1000);
    assert!(default_true());
    let overlay = OverlayConfig::default();
    assert!(overlay.enabled);
    assert_eq!(overlay.user_display, UserDisplayMode::SpeakingOnly);
    assert_eq!(overlay.name_display, NameDisplayMode::SpeakingOnly);
    assert_eq!(overlay.avatar_size_mode, AvatarSizeMode::Small);
    let appearance = AppearanceConfig::default();
    assert_eq!(appearance.theme, "auto");
    assert!(appearance.show_names);
}

#[test]
fn socket_path_lives_in_the_runtime_directory() {
    assert_eq!(
        default_socket_path(Some("/run/user/1000")).as_deref(),
        Some("/run/user/1000/vesktop-voice-overlay.sock")
    );
    assert_eq!(default_socket_path(None), None);
    let path = default_socket_path(Some("/run/user/5")).expect("runtime dir");
    let config = Config::with_socket(SocketConfig { path });
    assert_eq!(config.socket_path(), "/run/user/5/vesktop-voice-overlay.sock");
}

#[test]
fn applying_settings_replaces_display_fields_only() {
    let mut config = Config::with_socket(SocketConfig { path: "/s".into() });
    config.overlay.max_participants = 3;
    assert_eq!(config.avatar_size_px(), 28);
    config.apply_overlay_settings(settings("custom", 120, 80));
    assert_eq!(config.overlay.position, "custom");
    assert_eq!((config.overlay.custom_x, config.overlay.custom_y), (120, 80));
    assert_eq!(config.overlay.user_display, UserDisplayMode::Always);
    assert_eq!(config.overlay.name_display, NameDisplayMode::Never);
    assert_eq!(config.overlay.max_participants, 3);
    assert_eq!(config.socket_path(), "/s");
    assert_eq!(config.avatar_size_px(), 40);
}
