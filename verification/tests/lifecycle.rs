use vesktop_voice_overlay::lifecycle::OverlayLifecycle;

#[test]
fn on_client_connected_sets_flag_without_showing_empty_overlay() {
    let mut lifecycle = OverlayLifecycle::new();
    assert_eq!(lifecycle.connected_clients(), 0);

    let cancel = lifecycle.on_client_connected();

    assert_eq!(lifecycle.connected_clients(), 1);
    assert!(!cancel && !lifecycle.hide_pending());
}

#[test]
fn disconnecting_one_of_multiple_clients_does_not_schedule_hide() {
    let mut lifecycle = OverlayLifecycle::new();

    lifecycle.on_client_connected();
    lifecycle.on_client_connected();
    let schedule = lifecycle.on_client_disconnected();

    assert_eq!(lifecycle.connected_clients(), 1);
    assert!(!lifecycle.hide_pending());
    assert!(!schedule);
}

#[test]
fn extra_disconnect_never_underflows_connection_count() {
    let mut lifecycle = OverlayLifecycle::new();
    lifecycle.on_client_disconnected();
    assert_eq!(lifecycle.connected_clients(), 0);
    assert!(!lifecycle.hide_pending());
}

#[test]
fn reconnect_cancels_delayed_hide_and_rejects_a_stale_hide() {
    let mut lifecycle = OverlayLifecycle::new();
    lifecycle.on_client_connected();
    lifecycle.on_client_disconnected();
    assert!(lifecycle.hide_pending());

    lifecycle.on_client_connected();

    assert!(!lifecycle.hide_pending());
    assert!(!lifecycle.should_hide());
    assert!(!lifecycle.on_hide_timeout(), "a stale hide must not hide");
}

#[test]
fn last_disconnect_schedules_a_hide_that_fires() {
    let mut lifecycle = OverlayLifecycle::new();
    assert!(!lifecycle.on_client_connected());
    assert!(lifecycle.on_client_disconnected());
    assert!(lifecycle.should_hide());
    assert!(lifecycle.on_hide_timeout());
    assert!(!lifecycle.hide_pending());
}

#[test]
fn reconnect_reports_the_pending_hide_to_cancel() {
    let mut lifecycle = OverlayLifecycle::new();
    lifecycle.on_client_connected();
    lifecycle.on_client_disconnected();
    assert!(lifecycle.on_client_connected());
}
