use lib::netstats::{
    artnet_error, artnet_error_count, artnet_ignored, artnet_ignored_count, artnet_malformed,
    artnet_malformed_count, artnet_rx, artnet_rx_count, artnet_stored, artnet_stored_count, counts,
    sacn_stored, sacn_stored_count, NetStats,
};

#[test]
fn each_bump_counts_its_own_counter() {
    let mut s = NetStats::new();
    artnet_rx(&mut s);
    artnet_rx(&mut s);
    artnet_stored(&mut s);
    artnet_ignored(&mut s);
    artnet_malformed(&mut s);
    artnet_malformed(&mut s);
    artnet_malformed(&mut s);
    artnet_error(&mut s);
    sacn_stored(&mut s);
    sacn_stored(&mut s);
    assert_eq!(artnet_rx_count(&s), 2);
    assert_eq!(artnet_stored_count(&s), 1);
    assert_eq!(artnet_ignored_count(&s), 1);
    assert_eq!(artnet_malformed_count(&s), 3);
    assert_eq!(artnet_error_count(&s), 1);
    assert_eq!(sacn_stored_count(&s), 2);
    let c = counts(&s);
    assert_eq!((c.rx, c.stored, c.ignored, c.malformed, c.errors, c.sacn), (2, 1, 1, 3, 1, 2));
}

#[test]
fn counters_wrap_like_an_atomic() {
    let mut s = NetStats::new();
    s.artnet_rx = u32::MAX;
    artnet_rx(&mut s);
    assert_eq!(artnet_rx_count(&s), 0);
    assert_eq!(counts(&s).stored, 0);
}
