//! What the overlay shows: the configuration in force and the last snapshot,
//! and the rows and visibility that follow from each update. The panel is
//! visible only while at least one row is shown.
use vstd::prelude::*;

use crate::config::{Config, OverlaySettings};
use crate::participants::{desired_participants, is_selection};
use crate::protocol::{Participant, Snapshot};

verus! {

/// The configuration in force and the last snapshot received.
pub struct OverlayState {
    config: Config,
    last_snapshot: Option<Snapshot>,
}

/// The rows shown for a snapshot: its selection when the overlay is enabled,
/// none when it is disabled.
pub open spec fn shown_rows(config: Config, snapshot: Snapshot, rows: Seq<(String, Participant)>) -> bool {
    if config.overlay.enabled {
        is_selection(config, snapshot, rows)
    } else {
        rows.len() == 0
    }
}

/// `new` is `old` with the plugin settings applied.
pub open spec fn settings_applied(old: Config, settings: OverlaySettings, new: Config) -> bool {
    &&& new.overlay.enabled == settings.enabled
    &&& new.overlay.position == settings.position
    &&& new.overlay.custom_x == settings.custom_x
    &&& new.overlay.custom_y == settings.custom_y
    &&& new.overlay.user_display == settings.user_display
    &&& new.overlay.name_display == settings.name_display
    &&& new.overlay.avatar_size_mode == settings.avatar_size_mode
    &&& new.overlay.max_participants == old.overlay.max_participants
    &&& new.overlay.avatar_size == old.overlay.avatar_size
    &&& new.appearance == old.appearance
    &&& new.socket == old.socket
}

/// The rows to show after an update and whether the panel is visible.
pub struct OverlayUpdate {
    /// The rows to show, in order; `None` leaves the rows as they are.
    pub rows: Option<Vec<(String, Participant)>>,
    pub visible: bool,
}

impl OverlayState {
    pub closed spec fn config_view(&self) -> Config {
        self.config
    }

    pub closed spec fn last_snapshot_view(&self) -> Option<Snapshot> {
        self.last_snapshot
    }

    /// Nothing received yet.
    pub fn new(config: Config) -> (res: OverlayState)
        ensures
            res.config_view() == config,
            res.last_snapshot_view() is None,
    {
        OverlayState { config, last_snapshot: None }
    }

    pub fn config(&self) -> (res: &Config)
        ensures
            *res == self.config_view(),
    {
        &self.config
    }

    pub fn last_snapshot(&self) -> (res: Option<&Snapshot>)
        ensures
            res == (match self.last_snapshot_view() {
                Some(s) => Some(&s),
                None => None,
            }),
    {
        match &self.last_snapshot {
            Some(s) => Some(s),
            None => None,
        }
    }

    fn rows_for(config: &Config, snapshot: &Snapshot) -> (rows: Vec<(String, Participant)>)
        ensures
            shown_rows(*config, *snapshot, rows@),
    {
        if !config.overlay.enabled {
            return Vec::new();
        }
        desired_participants(config, snapshot)
    }

    /// A new snapshot: it becomes the last one, and its rows are shown.
    pub fn update_from_snapshot(&mut self, snapshot: Snapshot) -> (res: OverlayUpdate)
        ensures
            final(self).config_view() == old(self).config_view(),
            final(self).last_snapshot_view() == Some(snapshot),
            res.rows matches Some(rows) && shown_rows(old(self).config_view(), snapshot, rows@)
                && res.visible == (rows.len() > 0),
    {
        let rows = Self::rows_for(&self.config, &snapshot);
        self.last_snapshot = Some(snapshot);
        let visible = rows.len() > 0;
        OverlayUpdate { rows: Some(rows), visible }
    }

    /// New plugin settings: applied, and the last snapshot shown again under
    /// them. Before any snapshot nothing is shown.
    pub fn update_settings(&mut self, settings: OverlaySettings) -> (res: OverlayUpdate)
        ensures
            settings_applied(old(self).config_view(), settings, final(self).config_view()),
            final(self).last_snapshot_view() == old(self).last_snapshot_view(),
            match final(self).last_snapshot_view() {
                Some(s) => res.rows matches Some(rows) && shown_rows(final(self).config_view(), s, rows@)
                    && res.visible == (rows.len() > 0),
                None => res.rows is None && !res.visible,
            },
    {
        self.config.apply_overlay_settings(settings);
        match &self.last_snapshot {
            Some(snapshot) => {
                let rows = Self::rows_for(&self.config, snapshot);
                let visible = rows.len() > 0;
                OverlayUpdate { rows: Some(rows), visible }
            },
            None => OverlayUpdate { rows: None, visible: false },
        }
    }

    /// The client left the voice channel: no rows, no snapshot to show again.
    pub fn clear(&mut self) -> (res: OverlayUpdate)
        ensures
            final(self).config_view() == old(self).config_view(),
            final(self).last_snapshot_view() is None,
            res.rows matches Some(rows) && rows.len() == 0,
            !res.visible,
    {
        self.last_snapshot = None;
        OverlayUpdate { rows: Some(Vec::new()), visible: false }
    }
}

/// Law: with the overlay disabled no row is shown, whatever the snapshot.
pub proof fn lemma_disabled_shows_nothing(config: Config, snapshot: Snapshot, rows: Seq<(String, Participant)>)
    requires
        !config.overlay.enabled,
        shown_rows(config, snapshot, rows),
    ensures
        rows.len() == 0,
{
}

/// Law: after a clear, settings updates show nothing until a new snapshot
/// arrives: what `clear` leaves behind, `update_settings` answers with no rows
/// and a hidden panel.
pub proof fn lemma_clear_then_settings(
    cleared: OverlayState,
    after: OverlayState,
    update: OverlayUpdate,
)
    requires
        cleared.last_snapshot_view() is None,
        after.last_snapshot_view() == cleared.last_snapshot_view(),
        match after.last_snapshot_view() {
            Some(s) => update.rows matches Some(rows) && shown_rows(after.config_view(), s, rows@)
                && update.visible == (rows.len() > 0),
            None => update.rows is None && !update.visible,
        },
    ensures
        update.rows is None,
        !update.visible,
{
}

/// Law: what applying plugin settings changes: every display field takes the
/// settings' value, while the participant cap, the legacy size, the
/// appearance section and the socket stay; and an enabled overlay shows the
/// snapshot's selection.
pub proof fn lemma_settings_and_rows(
    before: Config,
    settings: OverlaySettings,
    after: Config,
    snapshot: Snapshot,
    rows: Seq<(String, Participant)>,
)
    requires
        settings_applied(before, settings, after),
    ensures
        after.overlay.enabled == settings.enabled,
        after.overlay.position == settings.position,
        after.overlay.custom_x == settings.custom_x,
        after.overlay.custom_y == settings.custom_y,
        after.overlay.user_display == settings.user_display,
        after.overlay.name_display == settings.name_display,
        after.overlay.avatar_size_mode == settings.avatar_size_mode,
        after.overlay.max_participants == before.overlay.max_participants,
        after.socket == before.socket,
        after.overlay.enabled ==> (shown_rows(after, snapshot, rows) <==> is_selection(after, snapshot, rows)),
        !after.overlay.enabled ==> (shown_rows(after, snapshot, rows) <==> rows.len() == 0),
{
}

} // verus!
