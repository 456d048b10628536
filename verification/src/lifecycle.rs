//! Overlay lifecycle: the commands the socket side sends to the UI side, and
//! the client count that decides when the overlay hides. The hide is delayed
//! after the last client leaves; a reconnect cancels it, and a delayed hide
//! that fires after a reconnect is ignored.
use vstd::prelude::*;

use crate::config::OverlaySettings;
use crate::protocol::Snapshot;

verus! {

/// Work for the UI side.
#[derive(Debug)]
pub enum OverlayCommand {
    UpdateSnapshot(Snapshot),
    UpdateSettings(OverlaySettings),
    Clear,
    Hide,
    ClientConnected,
    ClientDisconnected,
}

/// Connected clients and whether a delayed hide is pending.
#[derive(Debug)]
pub struct OverlayLifecycle {
    connected_clients: usize,
    hide_pending: bool,
}

/// A lifecycle as plain values.
pub struct LifecycleView {
    pub connected_clients: usize,
    pub hide_pending: bool,
}

impl View for OverlayLifecycle {
    type V = LifecycleView;

    closed spec fn view(&self) -> LifecycleView {
        LifecycleView { connected_clients: self.connected_clients, hide_pending: self.hide_pending }
    }
}

/// State after a client connects: one more client (saturating), no pending hide.
pub open spec fn spec_connected(s: LifecycleView) -> LifecycleView {
    LifecycleView {
        connected_clients: if s.connected_clients == usize::MAX {
            usize::MAX
        } else {
            (s.connected_clients + 1) as usize
        },
        hide_pending: false,
    }
}

/// State after a client disconnects: ignored without clients; otherwise one
/// client fewer, and a hide pending once none is left.
pub open spec fn spec_disconnected(s: LifecycleView) -> LifecycleView {
    if s.connected_clients == 0 {
        s
    } else {
        LifecycleView {
            connected_clients: (s.connected_clients - 1) as usize,
            hide_pending: s.hide_pending || s.connected_clients == 1,
        }
    }
}

/// Whether a disconnect (re)starts the hide delay: exactly when the last
/// client leaves.
pub open spec fn disconnect_schedules_hide(s: LifecycleView) -> bool {
    s.connected_clients == 1
}

/// State after the hide delay ran out: nothing pending any more.
pub open spec fn spec_timed_out(s: LifecycleView) -> LifecycleView {
    LifecycleView { connected_clients: s.connected_clients, hide_pending: false }
}

impl OverlayLifecycle {
    /// No client, nothing pending.
    pub fn new() -> (res: OverlayLifecycle)
        ensures
            res@ == (LifecycleView { connected_clients: 0, hide_pending: false }),
    {
        OverlayLifecycle { connected_clients: 0, hide_pending: false }
    }

    pub fn connected_clients(&self) -> (res: usize)
        ensures
            res == self@.connected_clients,
    {
        self.connected_clients
    }

    /// Whether a delayed hide is pending.
    pub fn hide_pending(&self) -> (res: bool)
        ensures
            res == self@.hide_pending,
    {
        self.hide_pending
    }

    /// A client connected. Returns whether a pending hide must be cancelled.
    pub fn on_client_connected(&mut self) -> (cancel_hide: bool)
        ensures
            final(self)@ == spec_connected(old(self)@),
            cancel_hide == old(self)@.hide_pending,
    {
        let cancel = self.hide_pending;
        self.connected_clients = self.connected_clients.saturating_add(1);
        self.hide_pending = false;
        cancel
    }

    /// A client disconnected. Returns whether the hide delay must be started
    /// (replacing any pending one): only when the last client left.
    pub fn on_client_disconnected(&mut self) -> (schedule_hide: bool)
        ensures
            final(self)@ == spec_disconnected(old(self)@),
            schedule_hide == disconnect_schedules_hide(old(self)@),
    {
        if self.connected_clients == 0 {
            return false;
        }
        self.connected_clients = self.connected_clients - 1;
        if self.connected_clients == 0 {
            self.hide_pending = true;
            return true;
        }
        false
    }

    /// The hide delay ran out. Returns whether to hide: only when no client
    /// is connected at that moment.
    pub fn on_hide_timeout(&mut self) -> (hide: bool)
        ensures
            final(self)@ == spec_timed_out(old(self)@),
            hide == (old(self)@.connected_clients == 0),
    {
        self.hide_pending = false;
        self.connected_clients == 0
    }

    /// Whether the overlay should be hidden: no client is connected.
    pub fn should_hide(&self) -> (res: bool)
        ensures
            res == (self@.connected_clients == 0),
    {
        self.connected_clients == 0
    }
}

/// Law: an extra disconnect never takes the count below zero nor schedules a hide.
pub proof fn lemma_disconnect_without_client(s: LifecycleView)
    requires
        s.connected_clients == 0,
    ensures
        spec_disconnected(s) == s,
        !disconnect_schedules_hide(s),
{
}

/// Law: while other clients remain, a disconnect schedules no hide.
pub proof fn lemma_disconnect_with_others(s: LifecycleView)
    requires
        s.connected_clients >= 2,
    ensures
        !disconnect_schedules_hide(s),
        spec_disconnected(s).connected_clients == s.connected_clients - 1,
        spec_disconnected(s).hide_pending == s.hide_pending,
{
}

/// Law: a reconnect after the last client left cancels the pending hide, and
/// a delayed hide that still fires afterwards hides nothing.
pub proof fn lemma_reconnect_rejects_stale_hide(s: LifecycleView)
    requires
        s.connected_clients == 1,
    ensures
        disconnect_schedules_hide(s),
        spec_disconnected(s).hide_pending,
        !spec_connected(spec_disconnected(s)).hide_pending,
        spec_connected(spec_disconnected(s)).connected_clients != 0,
{
}

/// Law: connecting and then disconnecting one client restores the count.
pub proof fn lemma_connect_disconnect(s: LifecycleView)
    requires
        s.connected_clients < usize::MAX,
    ensures
        spec_disconnected(spec_connected(s)).connected_clients == s.connected_clients,
{
}

/// Law: the hide delay running out never changes how many clients are
/// connected, and clears any pending hide; so the overlay should hide
/// afterwards exactly when it should before.
pub proof fn lemma_timeout_keeps_clients(s: LifecycleView)
    ensures
        spec_timed_out(s).connected_clients == s.connected_clients,
        !spec_timed_out(s).hide_pending,
{
}

/// Law: a client that reconnects while a hide is pending survives the stale
/// hide: after connect, disconnect, reconnect and the delay running out, one
/// client is still connected, and its later disconnect starts the hide delay
/// again.
pub proof fn lemma_stale_hide_then_leave(s: LifecycleView)
    requires
        s.connected_clients == 0,
    ensures
        ({
            let t = spec_timed_out(spec_connected(spec_disconnected(spec_connected(s))));
            &&& t.connected_clients == 1
            &&& disconnect_schedules_hide(t)
            &&& spec_disconnected(t).connected_clients == 0
            &&& spec_disconnected(t).hide_pending
        }),
{
}

/// Law: a connect adds one client and cancels any pending hide; a disconnect
/// with clients connected removes one; the hide delay starts exactly when the
/// last client leaves.
pub proof fn lemma_client_counting(s: LifecycleView)
    ensures
        s.connected_clients < usize::MAX ==> spec_connected(s).connected_clients == s.connected_clients + 1,
        !spec_connected(s).hide_pending,
        s.connected_clients > 0 ==> spec_disconnected(s).connected_clients == s.connected_clients - 1,
        disconnect_schedules_hide(s) <==> s.connected_clients == 1,
        s.connected_clients == 1 ==> spec_disconnected(s).hide_pending,
{
}

} // verus!
