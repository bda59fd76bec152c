use lib::diag::{text, Diag, ETH_BAD_VERSION, ETH_CONFIGURED, ETH_LINK_DROPPED, ETH_LINK_UP, ETH_NO_REPLY, ETH_OK};
use lib::w6300::{
    chip_version_read, operating_rate, probe_freq, record_bring_up, ClockTuner, DriverOutcome, NetWatch,
    ProbeAction, ProbePhase, CHIP_VERSION, PROBE_READS, RESET_PULSE_MS, RESET_SETTLE_MS,
};

/// A tuner whose reset pulse is over, and its first read request.
fn started() -> (ClockTuner, ProbeAction) {
    let (mut t, _) = ClockTuner::new();
    let a = t.on_reset_done();
    (t, a)
}

/// Feeds `version` until the tuner asks for something other than another read.
fn feed_until_change(t: &mut ClockTuner, d: &mut Diag, version: u8) -> (u32, ProbeAction) {
    let mut n = 0;
    loop {
        n += 1;
        let a = t.on_version(d, version);
        if a != ProbeAction::ReadAgain {
            return (n, a);
        }
    }
}

#[test]
fn healthy_chip_settles_at_the_operating_cap() {
    let mut d = Diag::new();
    let (mut t, first) = started();
    assert_eq!(first, ProbeAction::ReadAt(32_000_000));
    let (n, a) = feed_until_change(&mut t, &mut d, CHIP_VERSION);
    assert_eq!(n, PROBE_READS);
    assert_eq!(a, ProbeAction::ReadAt(20_000_000));
    assert_eq!(d.eth_max_hz, 32_000_000);
    assert_eq!(d.eth_hz, 0);
    let (n, a) = feed_until_change(&mut t, &mut d, CHIP_VERSION);
    assert_eq!(n, PROBE_READS);
    assert_eq!(a, ProbeAction::Finished(Some(20_000_000)));
    assert_eq!(d.eth_hz, 20_000_000);
    assert_eq!(text(&d), "none eth_ver=0x11 eth_hz=20000k eth_max=32000k");
    // Once finished, it stays finished.
    assert_eq!(t.on_version(&mut d, 0), ProbeAction::Finished(Some(20_000_000)));
    assert_eq!(d.eth_version, 0x11);
}

#[test]
fn shifted_reads_step_down_the_ladder() {
    let mut d = Diag::new();
    let (mut t, _) = started();
    // 0x08 is 0x11 shifted one bit right: too fast.
    assert_eq!(t.on_version(&mut d, 0x08), ProbeAction::ReadAt(30_000_000));
    assert_eq!(d.eth_version, 0x08);
    // Clean a few times, then a bad byte: the rung fails.
    for _ in 0..5 {
        assert_eq!(t.on_version(&mut d, CHIP_VERSION), ProbeAction::ReadAgain);
    }
    assert_eq!(t.on_version(&mut d, 0x88), ProbeAction::ReadAt(28_000_000));
    assert_eq!(t.rung, 2);
    assert_eq!(t.clean_reads, 0);
}

#[test]
fn ceiling_below_the_cap_runs_at_the_ceiling() {
    let mut d = Diag::new();
    let (mut t, _) = started();
    for _ in 0..7 {
        t.on_version(&mut d, 0x08);
    }
    assert_eq!(t.rung, 7);
    let (_, a) = feed_until_change(&mut t, &mut d, CHIP_VERSION);
    assert_eq!(a, ProbeAction::ReadAt(18_000_000));
    assert_eq!(d.eth_max_hz, 18_000_000);
    let (_, a) = feed_until_change(&mut t, &mut d, CHIP_VERSION);
    assert_eq!(a, ProbeAction::Finished(Some(18_000_000)));
}

#[test]
fn failed_confirmation_gives_up() {
    let mut d = Diag::new();
    let (mut t, _) = started();
    feed_until_change(&mut t, &mut d, CHIP_VERSION);
    assert_eq!(t.phase, ProbePhase::Confirming(20_000_000));
    assert_eq!(t.on_version(&mut d, CHIP_VERSION), ProbeAction::ReadAgain);
    assert_eq!(t.on_version(&mut d, 0xFF), ProbeAction::Finished(None));
    assert_eq!(d.eth_version, 0xFF);
    assert_eq!(d.eth_hz, 0);
    assert_eq!(d.eth_max_hz, 32_000_000);
    // The bring-up then records a bad version and brings no link up.
    assert!(!record_bring_up(&mut d, None, DriverOutcome::Up));
    assert_eq!(d.flags, ETH_BAD_VERSION);
}

#[test]
fn probe_starts_with_a_reset_pulse() {
    let mut d = Diag::new();
    let (mut t, first) = ClockTuner::new();
    assert_eq!(first, ProbeAction::PulseReset { low_ms: RESET_PULSE_MS, settle_ms: RESET_SETTLE_MS });
    assert_eq!((RESET_PULSE_MS, RESET_SETTLE_MS), (1, 100));
    assert_eq!(t.phase, ProbePhase::Resetting);
    // A byte read before the pulse is over changes nothing.
    assert_eq!(t.on_version(&mut d, CHIP_VERSION), first);
    assert_eq!(t.clean_reads, 0);
    assert_eq!((d.flags, d.eth_version, d.eth_hz, d.eth_max_hz), (0, 0xFFFF, 0, 0));
    assert_eq!(t.on_reset_done(), ProbeAction::ReadAt(32_000_000));
    assert_eq!(t.phase, ProbePhase::Scanning);
    assert_eq!(t.rung, 0);
}

#[test]
fn no_clock_only_when_no_rung_passed() {
    // Fifteen clean reads at every rung, then a bad one: nothing ever passes.
    let mut d = Diag::new();
    let (mut t, _) = started();
    let mut last = ProbeAction::ReadAgain;
    for _ in 0..18 {
        for _ in 0..15 {
            assert_eq!(t.on_version(&mut d, CHIP_VERSION), ProbeAction::ReadAgain);
        }
        last = t.on_version(&mut d, 0x22);
    }
    assert_eq!(last, ProbeAction::Finished(None));
    assert_eq!(d.eth_version, 0x22);
    assert_eq!(d.eth_hz, 0);
    assert_eq!(d.eth_max_hz, 0);
}

#[test]
fn dead_chip_exhausts_the_ladder() {
    let mut d = Diag::new();
    let (mut t, _) = started();
    let mut last = ProbeAction::ReadAgain;
    for _ in 0..18 {
        last = t.on_version(&mut d, 0x00);
    }
    assert_eq!(last, ProbeAction::Finished(None));
    assert_eq!(d.eth_version, 0);
    assert!(!record_bring_up(&mut d, None, DriverOutcome::Up));
    assert_eq!(d.flags, ETH_BAD_VERSION);
    assert_eq!(text(&d), "ETH_BAD_VERSION eth_ver=0x00");
}

#[test]
fn any_answers_finish_within_304_reads() {
    let mut d = Diag::new();
    let (mut t, _) = started();
    let mut x: u32 = 12345;
    for _ in 0..304 {
        x = x.wrapping_mul(1103515245).wrapping_add(12345);
        let v = if x % 3 == 0 { 0x08 } else { CHIP_VERSION };
        t.on_version(&mut d, v);
    }
    assert!(matches!(t.phase, ProbePhase::Finished(_)));
}

#[test]
fn operating_rate_is_first_rung_under_the_cap() {
    assert_eq!(operating_rate(0), Some(20_000_000));
    assert_eq!(operating_rate(6), Some(20_000_000));
    assert_eq!(operating_rate(7), Some(18_000_000));
    assert_eq!(operating_rate(17), Some(2_000_000));
    assert_eq!(probe_freq(9), 15_000_000);
}

#[test]
fn bring_up_outcomes_are_recorded() {
    let mut d = Diag::new();
    assert!(record_bring_up(&mut d, Some(20_000_000), DriverOutcome::Up));
    assert_eq!(d.flags, ETH_OK);
    assert_eq!(d.eth_version, 0x11);

    let mut d = Diag::new();
    assert!(!record_bring_up(&mut d, Some(20_000_000), DriverOutcome::NoReply));
    assert_eq!(d.flags, ETH_NO_REPLY);

    let mut d = Diag::new();
    assert!(!record_bring_up(&mut d, Some(20_000_000), DriverOutcome::BadVersion(0x22)));
    assert_eq!(d.flags, ETH_BAD_VERSION);
    assert_eq!(text(&d), "ETH_BAD_VERSION eth_ver=0x22");
}

#[test]
fn version_read_is_zero_when_the_frame_fails() {
    assert_eq!(chip_version_read(true, 0x11), 0x11);
    assert_eq!(chip_version_read(false, 0x11), 0);
}

#[test]
fn net_watch_reports_changes_and_leaves_evidence_of_drops() {
    let mut d = Diag::new();
    let mut w = NetWatch::new();
    assert_eq!(w.observe(&mut d, false, None), None);
    assert_eq!(d.flags, 0);
    assert_eq!(w.observe(&mut d, true, None), None);
    assert_eq!(d.flags, ETH_LINK_UP);
    let ip = u32::from_be_bytes([192, 168, 1, 50]);
    assert_eq!(w.observe(&mut d, true, Some(ip)), Some(Some(ip)));
    assert_eq!(d.flags, ETH_LINK_UP | ETH_CONFIGURED);
    assert_eq!(w.observe(&mut d, true, Some(ip)), None);
    assert_eq!(w.observe(&mut d, false, None), Some(None));
    assert_eq!(d.flags, ETH_LINK_UP | ETH_CONFIGURED | ETH_LINK_DROPPED);
    assert_eq!(text(&d), "eth_link_up ETH_LINK_DROPPED eth_configured");
    assert!(!w.link);
    assert_eq!(w.addr, None);
}
