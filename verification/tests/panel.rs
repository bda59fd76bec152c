use lib::panel_probe::probe_colour;
use lib::panel_test::{address_window, fill_row, init_sequence, CASET, COLMOD, RAMWR, RASET, SWRESET};

#[test]
fn address_window_covers_the_whole_frame_memory() {
    assert_eq!(address_window(239), vec![0, 0, 0x00, 0xEF]);
    assert_eq!(address_window(319), vec![0, 0, 0x01, 0x3F]);
}

#[test]
fn fill_row_is_240_big_endian_pixels() {
    let row = fill_row(0xF800);
    assert_eq!(row.len(), 480);
    assert!(row.chunks(2).all(|p| p == [0xF8, 0x00]));
    let row = fill_row(0x07E0);
    assert_eq!(&row[..4], &[0x07, 0xE0, 0x07, 0xE0]);
}

#[test]
fn init_sequence_resets_configures_and_opens_the_window() {
    let s = init_sequence();
    assert_eq!(s.len(), 20);
    assert_eq!((s[0].cmd, s[0].params.len(), s[0].delay_ms), (SWRESET, 0, 150));
    assert_eq!((s[2].cmd, s[2].params.clone(), s[2].delay_ms), (COLMOD, vec![0x55], 10));
    assert_eq!(s[6].cmd, 0xBB);
    assert_eq!(s[6].params, vec![0x19]);
    assert_eq!(s[17].cmd, CASET);
    assert_eq!(s[17].params, vec![0, 0, 0, 0xEF]);
    assert_eq!(s[18].cmd, RASET);
    assert_eq!(s[18].params, vec![0, 0, 1, 0x3F]);
    assert_eq!(s[19].cmd, RAMWR);
    let total_delay: u64 = s.iter().map(|c| c.delay_ms).sum();
    assert_eq!(total_delay, 150 + 255 + 10 + 10 + 120);
}

#[test]
fn probe_cycles_red_green_blue_white() {
    assert_eq!(probe_colour(0), ("red", 0xF800));
    assert_eq!(probe_colour(1), ("green", 0x07E0));
    assert_eq!(probe_colour(2), ("blue", 0x001F));
    assert_eq!(probe_colour(3), ("white", 0xFFFF));
    assert_eq!(probe_colour(4), ("red", 0xF800));
}
