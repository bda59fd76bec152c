use lib::widget_session::{SessionAction, SessionEvent, Transport, WidgetSession, CDC_POLL_MS};

#[test]
fn nothing_happens_until_the_host_connects() {
    let (mut s, a) = WidgetSession::new(Transport::Ftdi, 3u8, 0);
    assert_eq!(a, SessionAction::WaitForHost);
    assert_eq!(s.on_event(SessionEvent::TimedOut, 16), SessionAction::WaitForHost);
    assert_eq!(s.on_event(SessionEvent::ModeChanged(7, 512), 16), SessionAction::WaitForHost);
    assert_eq!(s.mode, 3);
    assert!(!s.connected);
    assert_eq!(s.on_event(SessionEvent::HostConnected, 16), SessionAction::CheckMode);
    assert!(s.connected);
}

#[test]
fn ftdi_idle_tick_sends_the_heartbeat_at_the_latency_period() {
    let (mut s, _) = WidgetSession::new(Transport::Ftdi, 3u8, 0);
    s.on_event(SessionEvent::HostConnected, 16);
    assert_eq!(s.on_event(SessionEvent::ModeUnchanged, 16), SessionAction::Listen { rebase: None, timeout_ms: 16 });
    assert_eq!(s.on_event(SessionEvent::TimedOut, 16), SessionAction::PollForwarder(3));
    assert_eq!(s.on_event(SessionEvent::Forwarded(None), 16), SessionAction::SendHeartbeat);
    assert_eq!(s.on_event(SessionEvent::Sent(true), 16), SessionAction::CheckMode);
    // The latency timer is read afresh each round.
    assert_eq!(s.on_event(SessionEvent::ModeUnchanged, 2), SessionAction::Listen { rebase: None, timeout_ms: 2 });
}

#[test]
fn cdc_idle_tick_sends_nothing() {
    let (mut s, _) = WidgetSession::new(Transport::Cdc, 1u8, 0);
    s.on_event(SessionEvent::HostConnected, 16);
    assert_eq!(
        s.on_event(SessionEvent::ModeUnchanged, 16),
        SessionAction::Listen { rebase: None, timeout_ms: CDC_POLL_MS }
    );
    assert_eq!(CDC_POLL_MS, 30);
    assert_eq!(s.on_event(SessionEvent::TimedOut, 16), SessionAction::PollForwarder(1));
    assert_eq!(s.on_event(SessionEvent::Forwarded(None), 16), SessionAction::CheckMode);
}

#[test]
fn received_dmx_is_forwarded_on_the_tick() {
    let (mut s, _) = WidgetSession::new(Transport::Cdc, 1u8, 0);
    s.on_event(SessionEvent::HostConnected, 16);
    s.on_event(SessionEvent::ModeUnchanged, 16);
    s.on_event(SessionEvent::TimedOut, 16);
    assert_eq!(s.on_event(SessionEvent::Forwarded(Some(518)), 16), SessionAction::Send(518));
    assert_eq!(s.on_event(SessionEvent::Sent(true), 16), SessionAction::CheckMode);
}

#[test]
fn mode_change_retargets_the_forwarder_and_the_handler() {
    let (mut s, _) = WidgetSession::new(Transport::Ftdi, 3u8, 0);
    s.on_event(SessionEvent::HostConnected, 16);
    assert_eq!(
        s.on_event(SessionEvent::ModeChanged(5, 1024), 16),
        SessionAction::Listen { rebase: Some(1024), timeout_ms: 16 }
    );
    assert_eq!((s.mode, s.artnet_base), (5, 1024));
    assert_eq!(s.on_event(SessionEvent::Received(12), 16), SessionAction::Handle { len: 12, mode: 5 });
    assert_eq!(s.on_event(SessionEvent::Handled(true), 16), SessionAction::CheckMode);
}

#[test]
fn endpoint_errors_drop_the_host_and_keep_the_mode() {
    for failure in [SessionEvent::ReadFailed, SessionEvent::Handled(false), SessionEvent::Sent(false)] {
        let (mut s, _) = WidgetSession::new(Transport::Cdc, 2u8, 0);
        s.on_event(SessionEvent::HostConnected, 16);
        s.on_event(SessionEvent::ModeChanged(4, 512), 16);
        assert_eq!(s.on_event(failure, 16), SessionAction::WaitForHost);
        assert!(!s.connected);
        assert_eq!((s.mode, s.artnet_base), (4, 512));
        // Reconnecting resumes in the same mode.
        assert_eq!(s.on_event(SessionEvent::HostConnected, 16), SessionAction::CheckMode);
        s.on_event(SessionEvent::ModeUnchanged, 16);
        assert_eq!(s.on_event(SessionEvent::Received(1), 16), SessionAction::Handle { len: 1, mode: 4 });
    }
}
