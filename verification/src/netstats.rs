//! Ingest counters, so a throughput measurement is a measurement.
//!
//! These are the node's own account of what arrived; the `stats` console
//! command turns them into a rate. Each counter is a `u32` that wraps, as an
//! atomic `fetch_add` does.

use vstd::prelude::*;

verus! {

/// The six ingest counters of one node.
pub struct NetStats {
    /// Datagrams taken off the Art-Net socket, whatever they turned out to be.
    pub artnet_rx: u32,
    /// ArtDmx packets whose data reached the DMX buffer.
    pub artnet_stored: u32,
    /// Parsed fine, deliberately not rendered.
    pub artnet_ignored: u32,
    /// Did not parse as Art-Net at all.
    pub artnet_malformed: u32,
    /// `recv_from` itself failed.
    pub artnet_errors: u32,
    /// sACN packets whose data reached the DMX buffer.
    pub sacn_stored: u32,
}

/// Every counter at once, for the console.
pub struct Counts {
    pub rx: u32,
    pub stored: u32,
    pub ignored: u32,
    pub malformed: u32,
    pub errors: u32,
    pub sacn: u32,
}

/// `x + 1`, wrapping at 2^32.
pub open spec fn bumped(x: u32) -> u32 {
    if x == u32::MAX { 0 } else { (x + 1) as u32 }
}

/// `a` and `b` agree on every counter but the one numbered `which` (in the
/// order of the fields).
pub open spec fn same_except(a: NetStats, b: NetStats, which: int) -> bool {
    &&& (which != 0 ==> a.artnet_rx == b.artnet_rx)
    &&& (which != 1 ==> a.artnet_stored == b.artnet_stored)
    &&& (which != 2 ==> a.artnet_ignored == b.artnet_ignored)
    &&& (which != 3 ==> a.artnet_malformed == b.artnet_malformed)
    &&& (which != 4 ==> a.artnet_errors == b.artnet_errors)
    &&& (which != 5 ==> a.sacn_stored == b.sacn_stored)
}

impl NetStats {
    /// All counters at zero, as at boot.
    pub fn new() -> (s: NetStats)
        ensures
            s.artnet_rx == 0,
            s.artnet_stored == 0,
            s.artnet_ignored == 0,
            s.artnet_malformed == 0,
            s.artnet_errors == 0,
            s.sacn_stored == 0,
    {
        NetStats {
            artnet_rx: 0,
            artnet_stored: 0,
            artnet_ignored: 0,
            artnet_malformed: 0,
            artnet_errors: 0,
            sacn_stored: 0,
        }
    }
}

/// Counts one datagram taken off the Art-Net socket.
pub fn artnet_rx(stats: &mut NetStats)
    ensures
        final(stats).artnet_rx == bumped(old(stats).artnet_rx),
        same_except(*old(stats), *final(stats), 0),
{
    stats.artnet_rx = stats.artnet_rx.wrapping_add(1);
}

/// Counts one ArtDmx packet stored.
pub fn artnet_stored(stats: &mut NetStats)
    ensures
        final(stats).artnet_stored == bumped(old(stats).artnet_stored),
        same_except(*old(stats), *final(stats), 1),
{
    stats.artnet_stored = stats.artnet_stored.wrapping_add(1);
}

/// Counts one packet parsed and deliberately not rendered.
pub fn artnet_ignored(stats: &mut NetStats)
    ensures
        final(stats).artnet_ignored == bumped(old(stats).artnet_ignored),
        same_except(*old(stats), *final(stats), 2),
{
    stats.artnet_ignored = stats.artnet_ignored.wrapping_add(1);
}

/// Counts one datagram that did not parse as Art-Net.
pub fn artnet_malformed(stats: &mut NetStats)
    ensures
        final(stats).artnet_malformed == bumped(old(stats).artnet_malformed),
        same_except(*old(stats), *final(stats), 3),
{
    stats.artnet_malformed = stats.artnet_malformed.wrapping_add(1);
}

/// Counts one failed receive.
pub fn artnet_error(stats: &mut NetStats)
    ensures
        final(stats).artnet_errors == bumped(old(stats).artnet_errors),
        same_except(*old(stats), *final(stats), 4),
{
    stats.artnet_errors = stats.artnet_errors.wrapping_add(1);
}

/// Counts one sACN packet stored.
pub fn sacn_stored(stats: &mut NetStats)
    ensures
        final(stats).sacn_stored == bumped(old(stats).sacn_stored),
        same_except(*old(stats), *final(stats), 5),
{
    stats.sacn_stored = stats.sacn_stored.wrapping_add(1);
}

/// Datagrams taken off the Art-Net socket so far.
pub fn artnet_rx_count(stats: &NetStats) -> (n: u32)
    ensures
        n == stats.artnet_rx,
{
    stats.artnet_rx
}

/// ArtDmx packets stored so far.
pub fn artnet_stored_count(stats: &NetStats) -> (n: u32)
    ensures
        n == stats.artnet_stored,
{
    stats.artnet_stored
}

/// Packets deliberately not rendered so far.
pub fn artnet_ignored_count(stats: &NetStats) -> (n: u32)
    ensures
        n == stats.artnet_ignored,
{
    stats.artnet_ignored
}

/// Malformed datagrams so far.
pub fn artnet_malformed_count(stats: &NetStats) -> (n: u32)
    ensures
        n == stats.artnet_malformed,
{
    stats.artnet_malformed
}

/// Failed receives so far.
pub fn artnet_error_count(stats: &NetStats) -> (n: u32)
    ensures
        n == stats.artnet_errors,
{
    stats.artnet_errors
}

/// sACN packets stored so far.
pub fn sacn_stored_count(stats: &NetStats) -> (n: u32)
    ensures
        n == stats.sacn_stored,
{
    stats.sacn_stored
}

/// Every counter at once.
pub fn counts(stats: &NetStats) -> (c: Counts)
    ensures
        c.rx == stats.artnet_rx,
        c.stored == stats.artnet_stored,
        c.ignored == stats.artnet_ignored,
        c.malformed == stats.artnet_malformed,
        c.errors == stats.artnet_errors,
        c.sacn == stats.sacn_stored,
{
    Counts {
        rx: artnet_rx_count(stats),
        stored: artnet_stored_count(stats),
        ignored: artnet_ignored_count(stats),
        malformed: artnet_malformed_count(stats),
        errors: artnet_error_count(stats),
        sacn: sacn_stored_count(stats),
    }
}

} // verus!
