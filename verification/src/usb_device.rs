//! Which USB identity the board enumerates as, when a settings change calls
//! for a reboot, and how a CDC reply is cut into packets.
//!
//! In `USB>DMX` mode the board presents a single vendor interface imitating an
//! FT232R; in every other mode a composite CDC device. Identity is fixed at
//! enumeration, so crossing into or out of `USB>DMX` needs a restart.

use vstd::prelude::*;

verus! {

/// Placeholder vendor ID of the CDC identity.
pub const USB_VID: u16 = 0xc0de;
/// Placeholder product ID of the CDC identity.
pub const USB_PID: u16 = 0xdcaf;
/// How long to wait for the stored input mode before building the CDC device.
pub const MODE_WAIT_MS: u64 = 2000;
/// How long to let the dust settle before resetting.
pub const REBOOT_SETTLE_MS: u64 = 750;
/// Full-speed packet size of the CDC endpoints.
pub const CDC_PACKET: usize = 64;

/// The identity this boot built.
#[derive(Clone, Copy, Debug, PartialEq, Eq, Structural)]
pub enum UsbIdentity {
    /// Not decided yet; distinguishable from CDC on purpose.
    Unchosen,
    /// The composite CDC device.
    Cdc,
    /// The FT232R imitation.
    Ftdi,
}

/// The input mode as far as USB cares: whether it is `USB>DMX`, and the
/// Art-Net buffer base that goes with it.
#[derive(Clone, Copy, Debug, PartialEq, Eq, Structural)]
pub struct StartupMode {
    pub usb_to_dmx: bool,
    pub artnet_base: usize,
}

/// What this boot knows about its USB identity.
pub struct UsbBootState {
    /// The identity built, once chosen.
    pub identity: UsbIdentity,
    /// Set when this boot finishes, not the previous one.
    pub boot_complete: bool,
}

impl UsbBootState {
    /// At power-up: nothing chosen, boot not complete.
    pub fn new() -> (s: UsbBootState)
        ensures
            s.identity == UsbIdentity::Unchosen,
            !s.boot_complete,
    {
        UsbBootState { identity: UsbIdentity::Unchosen, boot_complete: false }
    }
}

/// The identity a mode needs.
pub open spec fn identity_for(usb_to_dmx: bool) -> UsbIdentity {
    if usb_to_dmx { UsbIdentity::Ftdi } else { UsbIdentity::Cdc }
}

/// Called by the boot task at each of its exits.
pub fn mark_boot_complete(state: &mut UsbBootState)
    ensures
        final(state).boot_complete,
        final(state).identity == old(state).identity,
{
    state.boot_complete = true;
}

/// Chooses the identity from the first mode broadcast, or, when none arrived
/// within [`MODE_WAIT_MS`], falls back to CDC with Art-Net base 0: a board
/// with a console is one that can be debugged. Publishes the choice and
/// returns the mode to run with.
pub fn choose_identity(state: &mut UsbBootState, received: Option<StartupMode>) -> (mode: StartupMode)
    ensures
        mode == (match received {
            Some(m) => m,
            None => StartupMode { usb_to_dmx: false, artnet_base: 0 },
        }),
        final(state).identity == identity_for(mode.usb_to_dmx),
        final(state).boot_complete == old(state).boot_complete,
{
    let mode = match received {
        Some(m) => m,
        None => StartupMode { usb_to_dmx: false, artnet_base: 0 },
    };
    state.identity = if mode.usb_to_dmx { UsbIdentity::Ftdi } else { UsbIdentity::Cdc };
    mode
}

/// Whether a stored mode that `wants_ftdi` calls for a reboot: only once the
/// identity has been chosen, only after this boot completed, and only when the
/// identity built is not the one the mode needs.
pub fn needs_reboot(state: &UsbBootState, wants_ftdi: bool) -> (r: bool)
    ensures
        r == (state.identity != UsbIdentity::Unchosen && state.boot_complete && identity_for(wants_ftdi)
            != state.identity),
{
    match state.identity {
        UsbIdentity::Unchosen => false,
        UsbIdentity::Cdc => state.boot_complete && wants_ftdi,
        UsbIdentity::Ftdi => state.boot_complete && !wants_ftdi,
    }
}

/// No boot loop: once a boot has chosen the identity for the stored mode, that
/// same mode never calls for a reboot, whether or not the boot has completed.
pub proof fn lemma_no_reboot_loop(identity: UsbIdentity, boot_complete: bool, usb_to_dmx: bool)
    requires
        identity == identity_for(usb_to_dmx),
    ensures
        !(identity != UsbIdentity::Unchosen && boot_complete && identity_for(usb_to_dmx) != identity),
{
}

/// `USB>DMX` mode is served by the FT232R imitation and every other mode by
/// the composite CDC device; so a stored mode asks for a reboot exactly when
/// this completed boot built the other one of the two: CDC while the mode is
/// `USB>DMX`, or the FT232R while it is not.
pub proof fn lemma_reboot_when_identity_differs(identity: UsbIdentity, boot_complete: bool, usb_to_dmx: bool)
    ensures
        identity_for(true) == UsbIdentity::Ftdi,
        identity_for(false) == UsbIdentity::Cdc,
        (identity != UsbIdentity::Unchosen && boot_complete && identity_for(usb_to_dmx) != identity) <==> (
        boot_complete && ((identity == UsbIdentity::Cdc && usb_to_dmx) || (identity == UsbIdentity::Ftdi
            && !usb_to_dmx))),
{
}

/// Sizes of the packets a CDC reply of `len` bytes goes out in: full 64-byte
/// packets, the remainder, and a zero-length packet when the total lands on a
/// packet boundary so the host flushes the transfer.
pub open spec fn cdc_packets_spec(len: nat) -> Seq<usize> {
    let full = len / 64;
    let rest = len % 64;
    Seq::new(full, |i: int| 64usize) + (if rest == 0 { seq![0usize] } else { seq![rest as usize] })
}

/// The packet sizes of a CDC reply of `len` bytes.
pub fn cdc_packet_sizes(len: usize) -> (sizes: Vec<usize>)
    ensures
        sizes@ == cdc_packets_spec(len as nat),
{
    let mut sizes: Vec<usize> = Vec::new();
    let mut left = len;
    while left >= CDC_PACKET
        invariant
            left <= len,
            left % 64 == len % 64,
            sizes@ == Seq::new(((len - left) / 64) as nat, |i: int| 64usize),
            (len - left) % 64 == 0,
        decreases left,
    {
        sizes.push(CDC_PACKET);
        proof {
            assert(sizes@ =~= Seq::new(((len - (left - 64)) / 64) as nat, |i: int| 64usize));
        }
        left = left - CDC_PACKET;
    }
    sizes.push(left);
    proof {
        assert((len - left) / 64 == len / 64);
        assert(sizes@ =~= cdc_packets_spec(len as nat));
    }
    sizes
}

/// The packets carry the reply exactly, none is longer than 64 bytes, and the
/// last is short, which ends the transfer on the host side.
pub proof fn lemma_cdc_packets(len: nat)
    ensures
        cdc_packets_spec(len).last() < 64,
        forall|i: int| 0 <= i < cdc_packets_spec(len).len() ==> #[trigger] cdc_packets_spec(len)[i] <= 64,
        64 * (cdc_packets_spec(len).len() - 1) + cdc_packets_spec(len).last() == len,
{
}

/// What the device descriptor of an identity holds. `None` leaves a field at
/// the USB stack's default.
pub struct UsbDeviceConfig {
    pub vid: u16,
    pub pid: u16,
    pub manufacturer: &'static str,
    pub product: &'static str,
    pub serial_number: &'static str,
    /// `bcdDevice`.
    pub device_release: Option<u16>,
    /// Declare USB 2.0 with no BOS descriptor.
    pub usb_2_0: bool,
    pub device_class: u8,
    pub device_sub_class: u8,
    pub device_protocol: u8,
    /// Interface Association Descriptors around each function.
    pub composite_with_iads: bool,
    pub max_packet_size_0: u8,
    pub self_powered: Option<bool>,
    pub supports_remote_wakeup: Option<bool>,
    pub max_power_ma: Option<u16>,
}

/// The composite CDC device: Enttec widget, console and, with the logging
/// feature, the log, in that order. Interface Association Descriptors are on,
/// without which Windows will not bind its CDC driver to each serial function.
/// `serial` is unique per unit so two boxes on one PC keep separate bindings.
pub fn cdc_device_config(serial: &'static str) -> (c: UsbDeviceConfig)
    ensures
        c.vid == USB_VID && c.pid == USB_PID,
        c.manufacturer@ == "EQUUS"@ && c.product@ == "DMX USB Pro compatible"@,
        c.serial_number == serial,
        c.device_release is None && !c.usb_2_0,
        c.device_class == 0xEF && c.device_sub_class == 0x02 && c.device_protocol == 0x01,
        c.composite_with_iads,
        c.max_packet_size_0 == 64,
        c.self_powered is None && c.supports_remote_wakeup is None && c.max_power_ma is None,
{
    UsbDeviceConfig {
        vid: USB_VID,
        pid: USB_PID,
        manufacturer: "EQUUS",
        product: "DMX USB Pro compatible",
        serial_number: serial,
        device_release: None,
        usb_2_0: false,
        device_class: 0xEF,
        device_sub_class: 0x02,
        device_protocol: 0x01,
        composite_with_iads: true,
        max_packet_size_0: 64,
        self_powered: None,
        supports_remote_wakeup: None,
        max_power_ma: None,
    }
}

/// A serial function of the composite CDC device.
#[derive(Clone, Copy, Debug, PartialEq, Eq, Structural)]
pub enum CdcFunction {
    /// The Enttec DMX USB Pro widget.
    EnttecWidget,
    /// The console line protocol.
    Console,
    /// The log output, with the logging feature.
    Logger,
}

/// The CDC functions in the order the host sees the serial ports: widget,
/// console, then the logger when the logging feature is built in.
pub fn cdc_functions(with_logger: bool) -> (f: Vec<CdcFunction>)
    ensures
        f@ == (if with_logger {
            seq![CdcFunction::EnttecWidget, CdcFunction::Console, CdcFunction::Logger]
        } else {
            seq![CdcFunction::EnttecWidget, CdcFunction::Console]
        }),
{
    let mut f = vec![CdcFunction::EnttecWidget, CdcFunction::Console];
    if with_logger {
        f.push(CdcFunction::Logger);
    }
    assert(f@ =~= (if with_logger {
        seq![CdcFunction::EnttecWidget, CdcFunction::Console, CdcFunction::Logger]
    } else {
        seq![CdcFunction::EnttecWidget, CdcFunction::Console]
    }));
    f
}

} // verus!
