use lib::diag::{
    set_eth_hz, set_eth_max_hz, set_eth_version, text, Diag, BACKLIGHT_OK, DRAW_ERROR, ETH_BAD_VERSION,
    ETH_CONFIGURED, EXPANDER_OK, FIRST_FRAME, NO_VERSION, PANEL_TEST_DONE, TERMINAL_OK, TFT_CS_ASSERTED,
    TFT_INIT_FAIL, TFT_INIT_OK, TFT_RES_RELEASED, TFT_SPLASH_DONE,
};

#[test]
fn fresh_diag_reports_none() {
    let d = Diag::new();
    assert_eq!(d.flags, 0);
    assert_eq!(d.eth_version, NO_VERSION);
    assert_eq!(text(&d), "none");
}

#[test]
fn complete_display_pass_lists_steps_in_table_order() {
    let mut d = Diag::new();
    lib::diag::set(&mut d, FIRST_FRAME);
    lib::diag::set(&mut d, TERMINAL_OK);
    lib::diag::set(&mut d, BACKLIGHT_OK);
    lib::diag::set(&mut d, TFT_SPLASH_DONE);
    lib::diag::set(&mut d, TFT_INIT_OK);
    lib::diag::set(&mut d, TFT_RES_RELEASED);
    lib::diag::set(&mut d, EXPANDER_OK);
    assert_eq!(
        text(&d),
        "expander_ok tft_res_released tft_init_ok tft_splash_done backlight_ok terminal_ok first_frame_drawn"
    );
}

#[test]
fn failures_are_in_capitals_and_cs_and_panel_test_come_early() {
    let mut d = Diag::new();
    lib::diag::set(&mut d, DRAW_ERROR | TFT_INIT_FAIL);
    lib::diag::set(&mut d, PANEL_TEST_DONE);
    lib::diag::set(&mut d, TFT_CS_ASSERTED);
    assert_eq!(text(&d), "tft_cs_asserted panel_test_done TFT_INIT_FAIL DRAW_ERROR");
}

#[test]
fn flags_are_sticky() {
    let mut d = Diag::new();
    lib::diag::set(&mut d, EXPANDER_OK);
    lib::diag::set(&mut d, ETH_CONFIGURED);
    lib::diag::set(&mut d, 0);
    assert_eq!(d.flags, EXPANDER_OK | ETH_CONFIGURED);
    assert_eq!(text(&d), "expander_ok eth_configured");
}

#[test]
fn version_is_appended_as_two_hex_digits() {
    let mut d = Diag::new();
    lib::diag::set(&mut d, ETH_BAD_VERSION);
    set_eth_version(&mut d, 0x08);
    assert_eq!(text(&d), "ETH_BAD_VERSION eth_ver=0x08");
    set_eth_version(&mut d, 0x11);
    assert_eq!(text(&d), "ETH_BAD_VERSION eth_ver=0x11");
    set_eth_version(&mut d, 0xFF);
    assert_eq!(text(&d), "ETH_BAD_VERSION eth_ver=0xff");
    set_eth_version(&mut d, 0);
    assert_eq!(text(&d), "ETH_BAD_VERSION eth_ver=0x00");
}

#[test]
fn clocks_are_shown_in_khz_once_known() {
    let mut d = Diag::new();
    set_eth_hz(&mut d, 20_000_000);
    assert_eq!(text(&d), "none eth_hz=20000k");
    set_eth_max_hz(&mut d, 24_000_000);
    assert_eq!(text(&d), "none eth_hz=20000k eth_max=24000k");
    set_eth_version(&mut d, 0x11);
    assert_eq!(text(&d), "none eth_ver=0x11 eth_hz=20000k eth_max=24000k");
}

#[test]
fn clock_below_one_khz_shows_zero() {
    let mut d = Diag::new();
    set_eth_max_hz(&mut d, 999);
    assert_eq!(text(&d), "none eth_max=0k");
}

#[test]
fn setters_touch_only_their_field() {
    let mut d = Diag::new();
    set_eth_hz(&mut d, 5);
    set_eth_max_hz(&mut d, 7);
    set_eth_version(&mut d, 3);
    assert_eq!(d.eth_hz, 5);
    assert_eq!(d.eth_max_hz, 7);
    assert_eq!(d.eth_version, 3);
    assert_eq!(d.flags, 0);
}
