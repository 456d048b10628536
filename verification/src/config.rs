//! Overlay configuration: display modes, settings received from the plugin,
//! their validation, and the defaults used when no configuration file exists.
use vstd::prelude::*;
use vstd::string::StringExecFns;

use crate::text::str_eq;

verus! {

/// Which participants are shown.
#[derive(Clone, Copy, Debug, PartialEq, Eq, Structural)]
pub enum UserDisplayMode {
    Always,
    SpeakingOnly,
}

/// When a participant's name is shown next to the avatar.
#[derive(Clone, Copy, Debug, PartialEq, Eq, Structural)]
pub enum NameDisplayMode {
    Always,
    SpeakingOnly,
    Never,
}

/// Avatar size preset.
#[derive(Clone, Copy, Debug, PartialEq, Eq, Structural)]
pub enum AvatarSizeMode {
    Small,
    Large,
}

impl Default for UserDisplayMode {
    fn default() -> (r: Self)
        ensures
            r == UserDisplayMode::SpeakingOnly,
    {
        UserDisplayMode::SpeakingOnly
    }
}

impl Default for NameDisplayMode {
    fn default() -> (r: Self)
        ensures
            r == NameDisplayMode::SpeakingOnly,
    {
        NameDisplayMode::SpeakingOnly
    }
}

impl Default for AvatarSizeMode {
    fn default() -> (r: Self)
        ensures
            r == AvatarSizeMode::Small,
    {
        AvatarSizeMode::Small
    }
}

/// The `[overlay]` section of the configuration.
#[derive(Clone, Debug)]
pub struct OverlayConfig {
    pub enabled: bool,
    pub position: String,
    pub custom_x: i32,
    pub custom_y: i32,
    pub max_participants: usize,
    pub avatar_size: i32,
    pub user_display: UserDisplayMode,
    pub name_display: NameDisplayMode,
    pub avatar_size_mode: AvatarSizeMode,
}

/// Settings sent by the plugin; they override the display part of the
/// overlay configuration in memory.
#[derive(Clone, Debug)]
pub struct OverlaySettings {
    pub enabled: bool,
    pub position: String,
    pub custom_x: i32,
    pub custom_y: i32,
    pub user_display: UserDisplayMode,
    pub name_display: NameDisplayMode,
    pub avatar_size_mode: AvatarSizeMode,
}

/// The `[appearance]` section (kept for compatibility, not used for rendering).
#[derive(Clone, Debug)]
pub struct AppearanceConfig {
    pub theme: String,
    pub speaking_pulse_ms: u64,
    pub show_names: bool,
}

/// The `[socket]` section.
#[derive(Clone, Debug)]
pub struct SocketConfig {
    pub path: String,
}

/// The whole overlay configuration.
#[derive(Clone, Debug)]
pub struct Config {
    pub overlay: OverlayConfig,
    pub appearance: AppearanceConfig,
    pub socket: SocketConfig,
}

/// The anchor positions the overlay understands.
pub open spec fn is_known_position(p: Seq<char>) -> bool {
    ||| p == "top-left"@
    ||| p == "top-right"@
    ||| p == "bottom-left"@
    ||| p == "bottom-right"@
    ||| p == "center"@
    ||| p == "custom"@
}

/// Range accepted for a custom coordinate.
pub open spec fn is_valid_coordinate(v: i32) -> bool {
    -32768 <= v <= 32768
}

/// The file name of the socket inside the runtime directory.
pub open spec fn socket_file_name() -> Seq<char> {
    "/vesktop-voice-overlay.sock"@
}

impl OverlaySettings {
    /// Whether the settings can be applied: a known position and coordinates
    /// in `[-32768, 32768]`.
    pub open spec fn valid(&self) -> bool {
        &&& is_known_position(self.position@)
        &&& is_valid_coordinate(self.custom_x)
        &&& is_valid_coordinate(self.custom_y)
    }

    pub fn is_valid(&self) -> (res: bool)
        ensures
            res == self.valid(),
    {
        let p = self.position.as_str();
        proof {
            reveal_strlit("top-left");
            reveal_strlit("top-right");
            reveal_strlit("bottom-left");
            reveal_strlit("bottom-right");
            reveal_strlit("center");
            reveal_strlit("custom");
        }
        let known = str_eq(p, "top-left") || str_eq(p, "top-right") || str_eq(p, "bottom-left")
            || str_eq(p, "bottom-right") || str_eq(p, "center") || str_eq(p, "custom");
        known && -32768 <= self.custom_x && self.custom_x <= 32768 && -32768 <= self.custom_y
            && self.custom_y <= 32768
    }
}

/// Default anchor position.
pub fn default_position() -> (res: String)
    ensures
        res@ == "top-right"@,
{
    String::from_str("top-right")
}

/// Default cap on the number of other participants shown.
pub fn default_max_participants() -> (res: usize)
    ensures
        res == 10,
{
    10
}

/// Default numeric avatar size (legacy field).
pub fn default_avatar_size() -> (res: i32)
    ensures
        res == 28,
{
    28
}

/// Default theme name.
pub fn default_theme() -> (res: String)
    ensures
        res@ == "auto"@,
{
    String::from_str("auto")
}

/// Default speaking pulse period in milliseconds.
pub fn default_pulse_ms() -> (res: u64)
    ensures
        res == 1000,
{
    1000
}

/// Default for boolean switches that start enabled.
pub fn default_true() -> (res: bool)
    ensures
        res,
{
    true
}

/// The default socket path: `<runtime dir>/vesktop-voice-overlay.sock`.
/// Without a runtime directory there is no default; the overlay then refuses
/// to start rather than fall back to a shared location.
pub fn default_socket_path(runtime_dir: Option<&str>) -> (res: Option<String>)
    ensures
        match runtime_dir {
            Some(dir) => res matches Some(p) && p@ == dir@ + socket_file_name(),
            None => res is None,
        },
{
    match runtime_dir {
        Some(dir) => {
            let mut path = String::from_str(dir);
            path.append("/vesktop-voice-overlay.sock");
            Some(path)
        },
        None => None,
    }
}

impl OverlayConfig {
    /// The configuration used when no file provides one.
    pub open spec fn is_default(&self) -> bool {
        &&& self.enabled
        &&& self.position@ == "top-right"@
        &&& self.custom_x == 0
        &&& self.custom_y == 0
        &&& self.max_participants == 10
        &&& self.avatar_size == 28
        &&& self.user_display == UserDisplayMode::SpeakingOnly
        &&& self.name_display == NameDisplayMode::SpeakingOnly
        &&& self.avatar_size_mode == AvatarSizeMode::Small
    }
}

impl Default for OverlayConfig {
    fn default() -> (r: Self)
        ensures
            r.is_default(),
    {
        OverlayConfig {
            enabled: default_true(),
            position: default_position(),
            custom_x: 0,
            custom_y: 0,
            max_participants: default_max_participants(),
            avatar_size: default_avatar_size(),
            user_display: UserDisplayMode::default(),
            name_display: NameDisplayMode::default(),
            avatar_size_mode: AvatarSizeMode::default(),
        }
    }
}

impl Default for AppearanceConfig {
    fn default() -> (r: Self)
        ensures
            r.theme@ == "auto"@,
            r.speaking_pulse_ms == 1000,
            r.show_names,
    {
        AppearanceConfig {
            theme: default_theme(),
            speaking_pulse_ms: default_pulse_ms(),
            show_names: default_true(),
        }
    }
}

impl Config {
    /// A configuration with default overlay and appearance sections and the
    /// given socket section.
    pub fn with_socket(socket: SocketConfig) -> (res: Config)
        ensures
            res.overlay.is_default(),
            res.appearance.theme@ == "auto"@,
            res.appearance.speaking_pulse_ms == 1000,
            res.appearance.show_names,
            res.socket == socket,
    {
        Config { overlay: OverlayConfig::default(), appearance: AppearanceConfig::default(), socket }
    }

    pub fn socket_path(&self) -> (res: &str)
        ensures
            res@ == self.socket.path@,
    {
        self.socket.path.as_str()
    }

    /// Applies plugin settings: every display field is replaced, while the
    /// socket path, the participant cap and the legacy fields stay.
    pub fn apply_overlay_settings(&mut self, settings: OverlaySettings)
        ensures
            final(self).overlay.enabled == settings.enabled,
            final(self).overlay.position == settings.position,
            final(self).overlay.custom_x == settings.custom_x,
            final(self).overlay.custom_y == settings.custom_y,
            final(self).overlay.user_display == settings.user_display,
            final(self).overlay.name_display == settings.name_display,
            final(self).overlay.avatar_size_mode == settings.avatar_size_mode,
            final(self).overlay.max_participants == old(self).overlay.max_participants,
            final(self).overlay.avatar_size == old(self).overlay.avatar_size,
            final(self).appearance == old(self).appearance,
            final(self).socket == old(self).socket,
    {
        self.overlay.enabled = settings.enabled;
        self.overlay.position = settings.position;
        self.overlay.custom_x = settings.custom_x;
        self.overlay.custom_y = settings.custom_y;
        self.overlay.user_display = settings.user_display;
        self.overlay.name_display = settings.name_display;
        self.overlay.avatar_size_mode = settings.avatar_size_mode;
    }

    /// Rendered avatar size in pixels for the configured size mode.
    pub open spec fn spec_avatar_px(&self) -> i32 {
        match self.overlay.avatar_size_mode {
            AvatarSizeMode::Small => 28,
            AvatarSizeMode::Large => 40,
        }
    }

    pub fn avatar_size_px(&self) -> (res: i32)
        ensures
            res == self.spec_avatar_px(),
    {
        match self.overlay.avatar_size_mode {
            AvatarSizeMode::Small => 28,
            AvatarSizeMode::Large => 40,
        }
    }
}

/// Law: settings are valid exactly when the position is one of `top-left`,
/// `top-right`, `bottom-left`, `bottom-right`, `center` and `custom`, and
/// both custom coordinates lie in `[-32768, 32768]`.
pub proof fn lemma_settings_validity(settings: OverlaySettings)
    ensures
        settings.valid() <==> ((settings.position@ == "top-left"@ || settings.position@
            == "top-right"@ || settings.position@ == "bottom-left"@ || settings.position@
            == "bottom-right"@ || settings.position@ == "center"@ || settings.position@
            == "custom"@) && -32768 <= settings.custom_x <= 32768 && -32768 <= settings.custom_y
            <= 32768),
{
}

/// Law: the small avatar preset renders at 28 pixels, the large at 40.
pub proof fn lemma_avatar_sizes(config: Config)
    ensures
        config.overlay.avatar_size_mode == AvatarSizeMode::Small ==> config.spec_avatar_px() == 28,
        config.overlay.avatar_size_mode == AvatarSizeMode::Large ==> config.spec_avatar_px() == 40,
{
}

} // verus!
