use lib::ftdi::{ftdi_device_config, ftdi_interface, ftdi_packets, BulkEndpoint, Direction, FtdiControl, InDecision, OutDecision, REQ_GET_LATENCY_TIMER,
    REQ_GET_MODEM_STATUS, REQ_READ_EEPROM, REQ_READ_PINS, REQ_SET_BAUD_RATE, REQ_SET_LATENCY_TIMER};
use lib::usb_device::{
    cdc_device_config, cdc_functions, cdc_packet_sizes, CdcFunction, choose_identity, mark_boot_complete, needs_reboot, StartupMode, UsbBootState, UsbIdentity,
};

#[test]
fn identity_follows_the_first_mode_or_falls_back_to_cdc() {
    let mut s = UsbBootState::new();
    let m = choose_identity(&mut s, Some(StartupMode { usb_to_dmx: true, artnet_base: 7 }));
    assert_eq!(m, StartupMode { usb_to_dmx: true, artnet_base: 7 });
    assert_eq!(s.identity, UsbIdentity::Ftdi);
    let mut s = UsbBootState::new();
    let m = choose_identity(&mut s, None);
    assert_eq!(m, StartupMode { usb_to_dmx: false, artnet_base: 0 });
    assert_eq!(s.identity, UsbIdentity::Cdc);
}

#[test]
fn reboot_only_after_choice_and_completed_boot_and_on_mismatch() {
    let mut s = UsbBootState::new();
    assert!(!needs_reboot(&s, true));
    choose_identity(&mut s, Some(StartupMode { usb_to_dmx: false, artnet_base: 0 }));
    assert!(!needs_reboot(&s, true));
    mark_boot_complete(&mut s);
    assert!(s.boot_complete);
    assert!(needs_reboot(&s, true));
    assert!(!needs_reboot(&s, false));
}

#[test]
fn cdc_reply_is_chunked_with_a_zero_length_packet_on_boundaries() {
    assert_eq!(cdc_packet_sizes(0), vec![0]);
    assert_eq!(cdc_packet_sizes(10), vec![10]);
    assert_eq!(cdc_packet_sizes(64), vec![64, 0]);
    assert_eq!(cdc_packet_sizes(130), vec![64, 64, 2]);
    assert_eq!(cdc_packet_sizes(518), vec![64, 64, 64, 64, 64, 64, 64, 64, 6]);
}

#[test]
fn latency_timer_keeps_the_low_byte_at_least_one() {
    let mut c = FtdiControl::new();
    assert_eq!(c.latency_ms, 16);
    assert_eq!(c.control_out(true, REQ_SET_LATENCY_TIMER, 2), OutDecision::SetLatency(2));
    assert_eq!(c.control_out(true, REQ_SET_LATENCY_TIMER, 0), OutDecision::SetLatency(1));
    assert_eq!(c.control_out(true, REQ_SET_LATENCY_TIMER, 0x1234), OutDecision::SetLatency(0x34));
    assert_eq!(c.control_out(true, REQ_SET_LATENCY_TIMER, 0x0100), OutDecision::SetLatency(1));
}

#[test]
fn latency_timer_reads_back_as_last_set() {
    let mut c = FtdiControl::new();
    assert_eq!(c.control_in(true, REQ_GET_LATENCY_TIMER), InDecision::Reply(vec![16]));
    c.control_out(true, REQ_SET_LATENCY_TIMER, 2);
    assert_eq!(c.control_in(true, REQ_GET_LATENCY_TIMER), InDecision::Reply(vec![2]));
    c.control_out(true, REQ_SET_BAUD_RATE, 9);
    c.control_out(false, REQ_SET_LATENCY_TIMER, 40);
    assert_eq!(c.control_in(true, REQ_GET_LATENCY_TIMER), InDecision::Reply(vec![2]));
}

#[test]
fn other_out_requests_are_accepted_and_foreign_ones_left_alone() {
    let mut c = FtdiControl::new();
    assert_eq!(c.control_out(true, REQ_SET_BAUD_RATE, 0x4138), OutDecision::Accept);
    assert_eq!(c.control_out(true, 0x42, 0), OutDecision::Accept);
    assert_eq!(c.control_out(false, REQ_SET_LATENCY_TIMER, 5), OutDecision::NotHandled);
    assert_eq!(c.latency_ms, 16);
}

#[test]
fn in_requests_are_answered_like_an_ft232r() {
    let c = FtdiControl::new();
    assert_eq!(c.control_in(true, REQ_GET_MODEM_STATUS), InDecision::Reply(vec![0x01, 0x60]));
    assert_eq!(c.control_in(true, REQ_READ_PINS), InDecision::Reply(vec![0]));
    assert_eq!(c.control_in(true, REQ_READ_EEPROM), InDecision::Reply(vec![0, 0]));
    assert_eq!(c.control_in(true, 0x55), InDecision::Reject);
    assert_eq!(c.control_in(false, REQ_GET_MODEM_STATUS), InDecision::NotHandled);
}

#[test]
fn ftdi_interface_lists_bulk_in_before_out() {
    let i = ftdi_interface();
    assert_eq!((i.class, i.sub_class, i.protocol), (0xFF, 0xFF, 0xFF));
    assert_eq!(
        i.endpoints,
        vec![
            BulkEndpoint { address: 0x81, direction: Direction::In, max_packet: 64 },
            BulkEndpoint { address: 0x02, direction: Direction::Out, max_packet: 64 },
        ]
    );
}

#[test]
fn cdc_functions_come_in_port_order() {
    assert_eq!(cdc_functions(false), vec![CdcFunction::EnttecWidget, CdcFunction::Console]);
    assert_eq!(cdc_functions(true), vec![CdcFunction::EnttecWidget, CdcFunction::Console, CdcFunction::Logger]);
}

#[test]
fn ftdi_packets_carry_status_bytes_and_end_short() {
    assert_eq!(ftdi_packets(&[]), vec![vec![0x01, 0x60]]);
    let p = ftdi_packets(&[7, 8, 9]);
    assert_eq!(p, vec![vec![0x01, 0x60, 7, 8, 9]]);
    let full: Vec<u8> = (0..62).collect();
    let p = ftdi_packets(&full);
    assert_eq!(p.len(), 2);
    assert_eq!(p[0].len(), 64);
    assert_eq!(&p[0][2..], &full[..]);
    assert_eq!(p[1], vec![0x01, 0x60]);
    let long: Vec<u8> = (0..130u32).map(|i| i as u8).collect();
    let p = ftdi_packets(&long);
    assert_eq!(p.len(), 3);
    let stripped: Vec<u8> = p.iter().flat_map(|q| q[2..].to_vec()).collect();
    assert_eq!(stripped, long);
    assert_eq!(p[2].len(), 8);
}

#[test]
fn ftdi_identity_looks_like_an_enttec_ft232r() {
    let c = ftdi_device_config("0123456789ABCDEF");
    assert_eq!((c.vid, c.pid, c.device_release), (0x0403, 0x6001, Some(0x0600)));
    assert_eq!((c.manufacturer, c.product, c.serial_number), ("ENTTEC", "DMX USB PRO", "0123456789ABCDEF"));
    assert_eq!((c.device_class, c.device_sub_class, c.device_protocol), (0, 0, 0));
    assert!(!c.composite_with_iads);
    assert!(c.usb_2_0);
    assert_eq!((c.self_powered, c.supports_remote_wakeup, c.max_power_ma), (Some(false), Some(true), Some(90)));
}

#[test]
fn cdc_identity_is_a_composite_with_iads() {
    let c = cdc_device_config("X");
    assert_eq!((c.vid, c.pid), (0xc0de, 0xdcaf));
    assert_eq!((c.device_class, c.device_sub_class, c.device_protocol), (0xEF, 0x02, 0x01));
    assert!(c.composite_with_iads);
    assert_eq!(c.max_packet_size_0, 64);
    assert_eq!(c.device_release, None);
}
