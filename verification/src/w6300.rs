//! W6300 Ethernet bring-up decisions: choosing the SPI clock at boot,
//! recording how bring-up ended, and following the link and address.
//!
//! The bus work itself (setting the PIO SPI clock, reading `CIDR2`, polling the
//! stack) is done by the caller; these state machines decide what to do next
//! and what the diagnostics record.

use vstd::prelude::*;
use crate::diag::{
    Diag, set_eth_hz, set_eth_max_hz, set_eth_version, ETH_BAD_VERSION, ETH_CONFIGURED,
    ETH_LINK_DROPPED, ETH_LINK_UP, ETH_NO_REPLY, ETH_OK,
};

verus! {

/// `CIDR2` minor chip ID a healthy W6300 reports.
pub const CHIP_VERSION: u8 = 0x11;
/// Number of rungs on the probe ladder.
pub const PROBE_RUNGS: usize = 18;
/// Fastest rate the link will actually run at, whatever the probe finds it is
/// capable of.
pub const OPERATING_MAX_HZ: u32 = 20_000_000;
/// Consecutive clean reads a rate must produce before it is accepted.
pub const PROBE_READS: u32 = 16;
/// Fastest rate the probe will try.
pub const SPI_FREQ_HZ: u32 = 32_000_000;
/// Receive queue depth, in MACRAW frames, between the driver and the stack.
pub const N_RX: usize = 8;
/// Transmit queue depth.
pub const N_TX: usize = 4;
/// The `CIDR2` read frame: common block select, address `0x0004`
/// big-endian, one dummy byte; one data byte follows.
pub const VERSION_READ_HEADER: [u8; 4] = [0x00, 0x00, 0x04, 0x00];

/// Rung `i` of the probe ladder, fastest first.
pub open spec fn ladder(i: int) -> u32 {
    if i == 0 { 32_000_000 }
    else if i == 1 { 30_000_000 }
    else if i == 2 { 28_000_000 }
    else if i == 3 { 26_000_000 }
    else if i == 4 { 24_000_000 }
    else if i == 5 { 22_000_000 }
    else if i == 6 { 20_000_000 }
    else if i == 7 { 18_000_000 }
    else if i == 8 { 16_000_000 }
    else if i == 9 { 15_000_000 }
    else if i == 10 { 14_000_000 }
    else if i == 11 { 13_000_000 }
    else if i == 12 { 12_000_000 }
    else if i == 13 { 10_000_000 }
    else if i == 14 { 8_000_000 }
    else if i == 15 { 6_000_000 }
    else if i == 16 { 4_000_000 }
    else { 2_000_000 }
}

/// Rung `i` of the probe ladder.
pub fn probe_freq(i: usize) -> (f: u32)
    requires
        i < PROBE_RUNGS,
    ensures
        f == ladder(i as int),
{
    match i {
        0 => 32_000_000,
        1 => 30_000_000,
        2 => 28_000_000,
        3 => 26_000_000,
        4 => 24_000_000,
        5 => 22_000_000,
        6 => 20_000_000,
        7 => 18_000_000,
        8 => 16_000_000,
        9 => 15_000_000,
        10 => 14_000_000,
        11 => 13_000_000,
        12 => 12_000_000,
        13 => 10_000_000,
        14 => 8_000_000,
        15 => 6_000_000,
        16 => 4_000_000,
        _ => 2_000_000,
    }
}

/// The first rung at or after `n` that is at most [`OPERATING_MAX_HZ`].
pub open spec fn first_operating_rung(n: int) -> Option<int>
    decreases PROBE_RUNGS - n,
{
    if n < 0 || n >= PROBE_RUNGS {
        None
    } else if ladder(n) <= OPERATING_MAX_HZ {
        Some(n)
    } else {
        first_operating_rung(n + 1)
    }
}

/// The rate the link runs at once rung `n` has passed: the first rung at or
/// after it that is at most [`OPERATING_MAX_HZ`], if the ladder has one.
pub fn operating_rate(n: usize) -> (r: Option<u32>)
    requires
        n < PROBE_RUNGS,
    ensures
        match first_operating_rung(n as int) {
            None => r is None,
            Some(m) => r == Some(ladder(m)),
        },
{
    let mut m = n;
    while m < PROBE_RUNGS
        invariant
            n <= m <= PROBE_RUNGS,
            first_operating_rung(n as int) == first_operating_rung(m as int),
        decreases PROBE_RUNGS - m,
    {
        let f = probe_freq(m);
        if f <= OPERATING_MAX_HZ {
            return Some(f);
        }
        m = m + 1;
    }
    None
}

/// The ladder is strictly descending.
pub proof fn lemma_ladder_descends(i: int, j: int)
    requires
        0 <= i < j < PROBE_RUNGS,
    ensures
        ladder(j) < ladder(i),
{
}

/// The operating rung comes at or after the passing rung, so it is never
/// faster; and it is within the operating cap.
pub proof fn lemma_operating_rung(n: int)
    requires
        0 <= n < PROBE_RUNGS,
    ensures
        first_operating_rung(n) matches Some(m) ==> n <= m < PROBE_RUNGS && ladder(m) <= ladder(n)
            && ladder(m) <= OPERATING_MAX_HZ,
    decreases PROBE_RUNGS - n,
{
    if ladder(n) > OPERATING_MAX_HZ {
        if n + 1 < PROBE_RUNGS {
            lemma_operating_rung(n + 1);
            if let Some(m) = first_operating_rung(n + 1) {
                lemma_ladder_descends(n, m);
            }
        }
    }
}

/// How long the chip's reset line is held low before probing, in milliseconds.
pub const RESET_PULSE_MS: u32 = 1;
/// How long the chip is left to come out of reset before the first read, in
/// milliseconds.
pub const RESET_SETTLE_MS: u32 = 100;

/// What the caller does next for the clock probe.
#[derive(Clone, Copy, Debug, PartialEq, Eq, Structural)]
pub enum ProbeAction {
    /// Drive the reset line low for `low_ms`, release it, wait `settle_ms`,
    /// then report with [`ClockTuner::on_reset_done`].
    PulseReset { low_ms: u32, settle_ms: u32 },
    /// Set the bus to this clock, then read the version register.
    ReadAt(u32),
    /// Read the version register again at the same clock.
    ReadAgain,
    /// Probing is over: the operating clock, or `None` if there is none to
    /// run at.
    Finished(Option<u32>),
}

/// Where the clock probe stands.
#[derive(Clone, Copy, Debug, PartialEq, Eq, Structural)]
pub enum ProbePhase {
    /// Waiting for the chip to come out of the reset pulse.
    Resetting,
    /// Testing ladder rungs for the ceiling.
    Scanning,
    /// Re-verifying this operating clock below a passed ceiling.
    Confirming(u32),
    /// Finished with this result.
    Finished(Option<u32>),
}

/// The reset pulse the probe starts with.
pub open spec fn reset_pulse() -> ProbeAction {
    ProbeAction::PulseReset { low_ms: RESET_PULSE_MS, settle_ms: RESET_SETTLE_MS }
}

/// The boot-time SPI clock probe: reset the chip, measure the ceiling, then
/// settle on an operating point below it.
pub struct ClockTuner {
    /// Current phase.
    pub phase: ProbePhase,
    /// Ladder rung under test, or the one that passed once confirming.
    pub rung: usize,
    /// Consecutive clean reads at the current clock.
    pub clean_reads: u32,
}

impl ClockTuner {
    /// The tuner's invariant.
    pub open spec fn wf(&self) -> bool {
        &&& self.rung < PROBE_RUNGS
        &&& self.clean_reads < PROBE_READS
        &&& self.phase matches ProbePhase::Confirming(f) ==> first_operating_rung(self.rung as int) matches Some(
            m,
        ) && f == ladder(m)
    }

    /// A tuner about to reset the chip; its first action is the reset pulse.
    pub fn new() -> (r: (ClockTuner, ProbeAction))
        ensures
            r.0.wf(),
            r.0 == tuner_at(ProbePhase::Resetting, 0),
            r.1 == reset_pulse(),
    {
        (
            ClockTuner { phase: ProbePhase::Resetting, rung: 0, clean_reads: 0 },
            ProbeAction::PulseReset { low_ms: RESET_PULSE_MS, settle_ms: RESET_SETTLE_MS },
        )
    }

    /// The reset pulse is over: the tuner moves on to test the fastest rung.
    pub fn on_reset_done(&mut self) -> (action: ProbeAction)
        requires
            old(self).phase == ProbePhase::Resetting,
        ensures
            *final(self) == tuner_at(ProbePhase::Scanning, 0),
            final(self).wf(),
            action == ProbeAction::ReadAt(ladder(0)),
    {
        self.phase = ProbePhase::Scanning;
        self.rung = 0;
        self.clean_reads = 0;
        ProbeAction::ReadAt(probe_freq(0))
    }

    /// Takes the version byte just read and says what to do next, recording
    /// in `diag` the byte that ended each rate test, the ceiling and the
    /// operating clock.
    ///
    /// A rate passes only after [`PROBE_READS`] consecutive reads of
    /// [`CHIP_VERSION`]; the first wrong byte fails it. When a rung passes it is
    /// the ceiling, and the operating clock is the first rung at or after it
    /// that is at most [`OPERATING_MAX_HZ`], which must pass again before it
    /// is used. If it does not, probing gives up with no clock. A byte that
    /// arrives while the reset pulse is still under way changes nothing.
    pub fn on_version(&mut self, diag: &mut Diag, version: u8) -> (action: ProbeAction)
        requires
            old(self).wf(),
        ensures
            final(self).wf(),
            (*final(self), *final(diag), action) == tuner_step(*old(self), *old(diag), version),
    {
        match self.phase {
            ProbePhase::Resetting => ProbeAction::PulseReset { low_ms: RESET_PULSE_MS, settle_ms: RESET_SETTLE_MS },
            ProbePhase::Finished(r) => ProbeAction::Finished(r),
            ProbePhase::Scanning => {
                if version != CHIP_VERSION {
                    set_eth_version(diag, version);
                    self.clean_reads = 0;
                    if self.rung + 1 < PROBE_RUNGS {
                        self.rung = self.rung + 1;
                        ProbeAction::ReadAt(probe_freq(self.rung))
                    } else {
                        self.phase = ProbePhase::Finished(None);
                        ProbeAction::Finished(None)
                    }
                } else if self.clean_reads + 1 < PROBE_READS {
                    self.clean_reads = self.clean_reads + 1;
                    ProbeAction::ReadAgain
                } else {
                    let freq = probe_freq(self.rung);
                    set_eth_version(diag, version);
                    set_eth_max_hz(diag, freq);
                    self.clean_reads = 0;
                    match operating_rate(self.rung) {
                        None => {
                            set_eth_hz(diag, freq);
                            self.phase = ProbePhase::Finished(Some(freq));
                            ProbeAction::Finished(Some(freq))
                        },
                        Some(op) => {
                            self.phase = ProbePhase::Confirming(op);
                            ProbeAction::ReadAt(op)
                        },
                    }
                }
            },
            ProbePhase::Confirming(op) => {
                if version != CHIP_VERSION {
                    set_eth_version(diag, version);
                    self.clean_reads = 0;
                    self.phase = ProbePhase::Finished(None);
                    ProbeAction::Finished(None)
                } else if self.clean_reads + 1 < PROBE_READS {
                    self.clean_reads = self.clean_reads + 1;
                    ProbeAction::ReadAgain
                } else {
                    set_eth_version(diag, version);
                    set_eth_hz(diag, op);
                    self.clean_reads = 0;
                    self.phase = ProbePhase::Finished(Some(op));
                    ProbeAction::Finished(Some(op))
                }
            },
        }
    }
}

/// `d` with the version byte `v` recorded.
pub open spec fn with_version(d: Diag, v: u8) -> Diag {
    Diag { eth_version: v as u16, ..d }
}

/// A tuner in `phase` at `rung` with no clean reads counted.
pub open spec fn tuner_at(phase: ProbePhase, rung: usize) -> ClockTuner {
    ClockTuner { phase, rung, clean_reads: 0 }
}

/// One step of the clock probe: reading `v` takes tuner `t` and record `d`
/// to a new tuner, a new record and the next action.
pub open spec fn tuner_step(t: ClockTuner, d: Diag, v: u8) -> (ClockTuner, Diag, ProbeAction) {
    match t.phase {
        ProbePhase::Resetting => (t, d, reset_pulse()),
        ProbePhase::Finished(r) => (t, d, ProbeAction::Finished(r)),
        ProbePhase::Scanning => if v != CHIP_VERSION {
            if t.rung + 1 < PROBE_RUNGS {
                (
                    tuner_at(ProbePhase::Scanning, (t.rung + 1) as usize),
                    with_version(d, v),
                    ProbeAction::ReadAt(ladder(t.rung + 1)),
                )
            } else {
                (tuner_at(ProbePhase::Finished(None), t.rung), with_version(d, v), ProbeAction::Finished(None))
            }
        } else if t.clean_reads + 1 < PROBE_READS {
            (ClockTuner { clean_reads: (t.clean_reads + 1) as u32, ..t }, d, ProbeAction::ReadAgain)
        } else {
            let ceiling = ladder(t.rung as int);
            let d1 = Diag { eth_max_hz: ceiling, ..with_version(d, v) };
            match first_operating_rung(t.rung as int) {
                None => (
                    tuner_at(ProbePhase::Finished(Some(ceiling)), t.rung),
                    Diag { eth_hz: ceiling, ..d1 },
                    ProbeAction::Finished(Some(ceiling)),
                ),
                Some(m) => (
                    tuner_at(ProbePhase::Confirming(ladder(m)), t.rung),
                    d1,
                    ProbeAction::ReadAt(ladder(m)),
                ),
            }
        },
        ProbePhase::Confirming(op) => if v != CHIP_VERSION {
            (tuner_at(ProbePhase::Finished(None), t.rung), with_version(d, v), ProbeAction::Finished(None))
        } else if t.clean_reads + 1 < PROBE_READS {
            (ClockTuner { clean_reads: (t.clean_reads + 1) as u32, ..t }, d, ProbeAction::ReadAgain)
        } else {
            (
                tuner_at(ProbePhase::Finished(Some(op)), t.rung),
                Diag { eth_hz: op, ..with_version(d, v) },
                ProbeAction::Finished(Some(op)),
            )
        },
    }
}

/// The tuner and record after reading each of `vs` in turn.
pub open spec fn probe_run(t: ClockTuner, d: Diag, vs: Seq<u8>) -> (ClockTuner, Diag)
    decreases vs.len(),
{
    if vs.len() == 0 {
        (t, d)
    } else {
        let (t1, d1) = probe_run(t, d, vs.drop_last());
        let (t2, d2, _a) = tuner_step(t1, d1, vs.last());
        (t2, d2)
    }
}

/// How many of the last bytes of `vs` are [`CHIP_VERSION`].
pub open spec fn trailing_clean(vs: Seq<u8>) -> nat
    decreases vs.len(),
{
    if vs.len() == 0 || vs.last() != CHIP_VERSION {
        0
    } else {
        trailing_clean(vs.drop_last()) + 1
    }
}

/// The ladder always has a rung at or under the operating cap from any rung
/// on, since its slowest rung is under it.
pub proof fn lemma_operating_rung_exists(n: int)
    requires
        0 <= n < PROBE_RUNGS,
    ensures
        first_operating_rung(n) is Some,
    decreases PROBE_RUNGS - n,
{
    if ladder(n) > OPERATING_MAX_HZ {
        lemma_operating_rung_exists(n + 1);
    }
}

/// Somewhere in `vs`, [`PROBE_READS`] consecutive bytes are all
/// [`CHIP_VERSION`]: some rate read cleanly as often as acceptance takes.
pub open spec fn has_clean_run(vs: Seq<u8>) -> bool {
    exists|i: int| 0 <= i && i + PROBE_READS <= vs.len() && #[trigger] clean_window(vs, i)
}

/// The [`PROBE_READS`] bytes of `vs` from `i` on are all [`CHIP_VERSION`].
pub open spec fn clean_window(vs: Seq<u8>, i: int) -> bool {
    forall|j: int| i <= j < i + PROBE_READS ==> vs[j] == CHIP_VERSION
}

/// The last `trailing_clean(vs)` bytes are all [`CHIP_VERSION`], and a run of
/// that many at the end is counted.
proof fn lemma_trailing_clean(vs: Seq<u8>, k: int)
    ensures
        trailing_clean(vs) <= vs.len(),
        forall|j: int| vs.len() - trailing_clean(vs) <= j < vs.len() ==> vs[j] == CHIP_VERSION,
        0 <= k <= vs.len() && (forall|j: int| vs.len() - k <= j < vs.len() ==> vs[j] == CHIP_VERSION)
            ==> trailing_clean(vs) >= k,
    decreases vs.len(),
{
    if vs.len() > 0 {
        let prev = vs.drop_last();
        lemma_trailing_clean(prev, k - 1);
        if vs.last() == CHIP_VERSION {
            assert forall|j: int| vs.len() - trailing_clean(vs) <= j < vs.len() implies vs[j] == CHIP_VERSION by {
                if j < vs.len() - 1 {
                    assert(vs[j] == prev[j]);
                }
            }
            if 0 < k <= vs.len() && (forall|j: int| vs.len() - k <= j < vs.len() ==> vs[j] == CHIP_VERSION) {
                assert forall|j: int| prev.len() - (k - 1) <= j < prev.len() implies prev[j] == CHIP_VERSION by {
                    assert(prev[j] == vs[j]);
                }
            }
        } else {
            if 0 < k <= vs.len() && (forall|j: int| vs.len() - k <= j < vs.len() ==> vs[j] == CHIP_VERSION) {
                assert(vs[vs.len() - 1] == CHIP_VERSION);
            }
        }
    }
}

/// A clean run stays found as more bytes arrive; a long enough clean tail is
/// one; and without one so far, a new byte makes one only as a tail.
proof fn lemma_clean_run_step(prev: Seq<u8>, b: u8)
    ensures
        has_clean_run(prev) ==> has_clean_run(prev.push(b)),
        trailing_clean(prev.push(b)) >= PROBE_READS ==> has_clean_run(prev.push(b)),
        !has_clean_run(prev) && trailing_clean(prev.push(b)) < PROBE_READS ==> !has_clean_run(prev.push(b)),
{
    let vs = prev.push(b);
    assert(vs.drop_last() =~= prev);
    if has_clean_run(prev) {
        let i = choose|i: int| 0 <= i && i + PROBE_READS <= prev.len() && #[trigger] clean_window(prev, i);
        assert forall|j: int| i <= j < i + PROBE_READS implies vs[j] == CHIP_VERSION by {
            assert(vs[j] == prev[j]);
        }
        assert(clean_window(vs, i));
    }
    lemma_trailing_clean(vs, 0);
    if trailing_clean(vs) >= PROBE_READS {
        let i = vs.len() - PROBE_READS;
        assert(clean_window(vs, i));
    }
    if !has_clean_run(prev) && has_clean_run(vs) {
        let i = choose|i: int| 0 <= i && i + PROBE_READS <= vs.len() && #[trigger] clean_window(vs, i);
        if i + PROBE_READS <= prev.len() {
            assert forall|j: int| i <= j < i + PROBE_READS implies prev[j] == CHIP_VERSION by {
                assert(vs[j] == prev[j]);
            }
            assert(clean_window(prev, i));
        } else {
            lemma_trailing_clean(vs, PROBE_READS as int);
        }
    }
}

/// The tuner and record after the reset pulse and then the reads `vs`,
/// starting from the record `d0`.
pub open spec fn probe_after_reset(d0: Diag, vs: Seq<u8>) -> (ClockTuner, Diag) {
    probe_run(tuner_at(ProbePhase::Scanning, 0), d0, vs)
}

/// What every run of the probe keeps, from a fresh tuner and record `d0`:
/// the tuner stays well formed and never goes back to resetting; while
/// scanning, its count of clean reads is the run of [`CHIP_VERSION`] bytes
/// just read and no rung has passed; once a rung has passed, the bytes read
/// hold a clean run; while confirming, the record holds the ceiling of the
/// rung that passed; the operating clock is recorded only when the probe
/// finishes with one, and that clock is within [`OPERATING_MAX_HZ`] and never
/// above the recorded ceiling.
pub open spec fn run_invariant(t: ClockTuner, d: Diag, d0: Diag, vs: Seq<u8>) -> bool {
    &&& t.wf()
    &&& t.phase !is Resetting
    &&& (t.phase is Scanning ==> t.clean_reads == trailing_clean(vs) && !has_clean_run(vs))
    &&& (t.phase is Confirming ==> t.clean_reads <= trailing_clean(vs) && has_clean_run(vs))
    &&& (t.phase matches ProbePhase::Confirming(_) ==> d.eth_max_hz == ladder(t.rung as int))
    &&& (!(t.phase matches ProbePhase::Finished(Some(_))) ==> d.eth_hz == d0.eth_hz)
    &&& (t.phase matches ProbePhase::Finished(Some(f)) ==> d.eth_hz == f && f <= d.eth_max_hz
        && f <= OPERATING_MAX_HZ && has_clean_run(vs))
}

/// How the probe ends at the read that finishes it: with no clock whenever
/// no rate has read [`CHIP_VERSION`] [`PROBE_READS`] times in a row; with no
/// clock only on a wrong byte; and with a clock only on the last of
/// [`PROBE_READS`] clean reads in a row.
pub open spec fn finish_law(t: ClockTuner, vs: Seq<u8>) -> bool {
    &&& (!has_clean_run(vs) ==> t.phase == ProbePhase::Finished(None))
    &&& (t.phase == ProbePhase::Finished(None) ==> vs.last() != CHIP_VERSION)
    &&& (t.phase matches ProbePhase::Finished(Some(_)) ==> trailing_clean(vs) >= PROBE_READS)
}

/// Every run of the probe after the reset keeps [`run_invariant`]; and at the
/// read that finishes it, it ends as [`finish_law`] says.
pub proof fn lemma_probe_run(d0: Diag, vs: Seq<u8>)
    ensures
        run_invariant(probe_after_reset(d0, vs).0, probe_after_reset(d0, vs).1, d0, vs),
        (vs.len() > 0 && probe_after_reset(d0, vs.drop_last()).0.phase !is Finished
            && probe_after_reset(d0, vs).0.phase is Finished) ==> finish_law(probe_after_reset(d0, vs).0, vs),
    decreases vs.len(),
{
    let t0 = tuner_at(ProbePhase::Scanning, 0);
    if vs.len() == 0 {
        assert(!has_clean_run(vs));
    } else {
        let prev = vs.drop_last();
        lemma_probe_run(d0, prev);
        let (t1, d1) = probe_run(t0, d0, prev);
        let v = vs.last();
        assert(prev.push(v) =~= vs);
        lemma_clean_run_step(prev, v);
        if v == CHIP_VERSION {
            assert(trailing_clean(vs) == trailing_clean(prev) + 1);
        } else {
            assert(trailing_clean(vs) == 0);
        }
        match t1.phase {
            ProbePhase::Scanning => {
                lemma_operating_rung(t1.rung as int);
                lemma_operating_rung_exists(t1.rung as int);
            },
            ProbePhase::Confirming(_) => {
                lemma_operating_rung(t1.rung as int);
            },
            _ => {},
        }
    }
}

/// Reads the probe has certainly taken to reach `t`: 16 per failed rung and
/// per clean read, with the confirmation counted after every rung.
pub open spec fn progress(t: ClockTuner) -> int {
    match t.phase {
        ProbePhase::Resetting => 0,
        ProbePhase::Scanning => PROBE_READS * t.rung + t.clean_reads,
        ProbePhase::Confirming(_) => PROBE_READS * PROBE_RUNGS + t.clean_reads,
        ProbePhase::Finished(_) => PROBE_READS * PROBE_RUNGS + PROBE_READS,
    }
}

/// Each read either finishes the probe or advances it.
proof fn lemma_probe_progress(d0: Diag, vs: Seq<u8>)
    ensures
        probe_after_reset(d0, vs).0.phase !is Finished ==> progress(probe_after_reset(d0, vs).0) >= vs.len(),
    decreases vs.len(),
{
    if vs.len() > 0 {
        lemma_probe_progress(d0, vs.drop_last());
        lemma_probe_run(d0, vs.drop_last());
    }
}

/// The probe always ends: after at most 304 reads following the reset (16 at
/// each of the 18 rungs, then 16 to confirm) it has finished, whatever the
/// chip answered.
pub proof fn lemma_probe_terminates(d0: Diag, vs: Seq<u8>)
    requires
        vs.len() >= PROBE_READS * PROBE_RUNGS + PROBE_READS,
    ensures
        probe_after_reset(d0, vs).0.phase is Finished,
{
    lemma_probe_progress(d0, vs);
    lemma_probe_run(d0, vs);
}

/// Whatever the chip answers, a clock the probe settles on is at most
/// [`OPERATING_MAX_HZ`] and at most the ceiling recorded for it, and is the
/// clock recorded as the one in use.
pub proof fn lemma_operating_within_ceiling(d0: Diag, vs: Seq<u8>)
    ensures
        probe_after_reset(d0, vs).0.phase matches ProbePhase::Finished(Some(f)) ==> f <= OPERATING_MAX_HZ
            && f <= probe_after_reset(d0, vs).1.eth_max_hz && probe_after_reset(d0, vs).1.eth_hz == f,
{
    lemma_probe_run(d0, vs);
}

/// A scanning step by its numbers: a rung is tested from 32 MHz down to
/// 2 MHz; a byte other than `0x11` fails it at once and the next rung is
/// tried, or the probe gives up after the last; `0x11` counts as a clean
/// read, and the sixteenth in a row passes the rung, which is recorded as the
/// ceiling, and the probe moves on to confirm a clock of at most 20 MHz no
/// faster than the ceiling.
pub proof fn lemma_scan_step_by_the_numbers(t: ClockTuner, d: Diag, v: u8)
    requires
        t.wf(),
        t.phase == ProbePhase::Scanning,
    ensures
        ladder(0) == 32_000_000 && ladder(PROBE_RUNGS - 1) == 2_000_000 && PROBE_RUNGS == 18,
        ({
            let (t2, d2, a) = tuner_step(t, d, v);
            &&& v != 0x11 && t.rung < 17 ==> t2.phase == ProbePhase::Scanning && t2.rung == t.rung + 1
                && t2.clean_reads == 0 && a == ProbeAction::ReadAt(ladder(t.rung + 1)) && d2.eth_version == v
            &&& v != 0x11 && t.rung == 17 ==> t2.phase == ProbePhase::Finished(None) && a == ProbeAction::Finished(
                None,
            )
            &&& v == 0x11 && t.clean_reads < 15 ==> t2.phase == ProbePhase::Scanning && t2.rung == t.rung
                && t2.clean_reads == t.clean_reads + 1 && a == ProbeAction::ReadAgain
            &&& v == 0x11 && t.clean_reads == 15 ==> d2.eth_max_hz == ladder(t.rung as int) && (t2.phase matches ProbePhase::Confirming(f)
                && f <= 20_000_000 && f <= ladder(t.rung as int) && a == ProbeAction::ReadAt(f))
        }),
{
    lemma_operating_rung(t.rung as int);
    lemma_operating_rung_exists(t.rung as int);
}

/// How the W6300 driver's bring-up ended.
#[derive(Clone, Copy, Debug, PartialEq, Eq, Structural)]
pub enum DriverOutcome {
    /// The driver is up.
    Up,
    /// Nothing answered over SPI.
    NoReply,
    /// The chip answered with this version byte, not the expected one.
    BadVersion(u8),
}

/// Records how bring-up ended: `tuned` is the probe's result, `driver` how the
/// driver's own initialisation went (not consulted when no clock was found,
/// since the driver is then never started). Returns whether the link device
/// is available.
pub fn record_bring_up(diag: &mut Diag, tuned: Option<u32>, driver: DriverOutcome) -> (up: bool)
    ensures
        up == (tuned is Some && driver == DriverOutcome::Up),
        tuned is None ==> final(diag).flags == old(diag).flags | ETH_BAD_VERSION
            && final(diag).eth_version == old(diag).eth_version,
        tuned is Some ==> match driver {
            DriverOutcome::Up => final(diag).flags == old(diag).flags | ETH_OK
                && final(diag).eth_version == CHIP_VERSION as u16,
            DriverOutcome::NoReply => final(diag).flags == old(diag).flags | ETH_NO_REPLY
                && final(diag).eth_version == old(diag).eth_version,
            DriverOutcome::BadVersion(actual) => final(diag).flags == old(diag).flags | ETH_BAD_VERSION
                && final(diag).eth_version == actual as u16,
        },
        final(diag).eth_hz == old(diag).eth_hz,
        final(diag).eth_max_hz == old(diag).eth_max_hz,
{
    if tuned.is_none() {
        crate::diag::set(diag, ETH_BAD_VERSION);
        return false;
    }
    match driver {
        DriverOutcome::Up => {
            crate::diag::set(diag, ETH_OK);
            set_eth_version(diag, CHIP_VERSION);
            true
        },
        DriverOutcome::NoReply => {
            crate::diag::set(diag, ETH_NO_REPLY);
            false
        },
        DriverOutcome::BadVersion(actual) => {
            crate::diag::set(diag, ETH_BAD_VERSION);
            set_eth_version(diag, actual);
            false
        },
    }
}

/// The version byte a `CIDR2` read yields: the byte read if the frame went
/// out and came back, otherwise 0.
pub fn chip_version_read(framed: bool, byte: u8) -> (v: u8)
    ensures
        v == (if framed { byte } else { 0 }),
{
    if framed { byte } else { 0 }
}

/// The link and address as last seen, so changes can be reported.
pub struct NetWatch {
    /// The link was up at the last poll.
    pub link: bool,
    /// The IPv4 address configured at the last poll.
    pub addr: Option<u32>,
}

impl NetWatch {
    /// Nothing seen yet: link down, no address.
    pub fn new() -> (w: NetWatch)
        ensures
            !w.link,
            w.addr is None,
    {
        NetWatch { link: false, addr: None }
    }

    /// One poll: the link is `up` and the configured address is `now`.
    /// Raises `eth_link_up` while the link is up, `ETH_LINK_DROPPED` when it
    /// falls from up to down, `eth_configured` when a new address arrives; and
    /// returns the address to report when it changed (`Some(None)` when it was
    /// lost), `None` when it did not.
    pub fn observe(&mut self, diag: &mut Diag, up: bool, now: Option<u32>) -> (report: Option<Option<u32>>)
        ensures
            final(self).link == up,
            final(self).addr == now,
            report == (if now != old(self).addr { Some(now) } else { None }),
            final(diag).flags == old(diag).flags
                | (if up { ETH_LINK_UP } else { 0 })
                | (if !up && old(self).link { ETH_LINK_DROPPED } else { 0 })
                | (if now != old(self).addr && now is Some { ETH_CONFIGURED } else { 0 }),
            final(diag).eth_version == old(diag).eth_version,
            final(diag).eth_hz == old(diag).eth_hz,
            final(diag).eth_max_hz == old(diag).eth_max_hz,
    {
        if up {
            crate::diag::set(diag, ETH_LINK_UP);
        } else if self.link {
            crate::diag::set(diag, ETH_LINK_DROPPED);
        }
        self.link = up;
        let mut report = None;
        if now != self.addr {
            if now.is_some() {
                crate::diag::set(diag, ETH_CONFIGURED);
            }
            report = Some(now);
            self.addr = now;
        }
        proof {
            // Or-ing in zero leaves the flags as they are.
            assert(forall|x: u32| #[trigger] (x | 0u32) == x) by (bit_vector);
        }
        report
    }
}

} // verus!
