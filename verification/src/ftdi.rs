//! FT232R emulation on the module's native USB, for `USB>DMX` mode: the
//! answers to the FTDI vendor control requests, and the framing of IN data.
//!
//! Real silicon prefixes every IN packet with two status bytes that the host
//! driver strips; a packet carries at most 62 bytes of payload behind them.

use vstd::prelude::*;
use crate::usb_device::UsbDeviceConfig;

verus! {

/// FTDI's vendor ID.
pub const FTDI_VID: u16 = 0x0403;
/// The FT232R product ID.
pub const FTDI_PID: u16 = 0x6001;
/// `bcdDevice` of an FT232R; drivers switch behaviour on it.
pub const BCD_FT232R: u16 = 0x0600;
/// Full-speed bulk packet size.
pub const PACKET: usize = 64;
/// Payload bytes left in a packet after the status prefix.
pub const PAYLOAD_PER_PACKET: usize = 62;
/// Bulk IN endpoint number, as on an FT232R (`0x81`).
pub const EP_IN: usize = 1;
/// Bulk OUT endpoint number, as on an FT232R (`0x02`).
pub const EP_OUT: usize = 2;
/// Latency timer in milliseconds before the host sets one.
pub const DEFAULT_LATENCY_MS: u8 = 16;

pub const REQ_RESET: u8 = 0x00;
pub const REQ_MODEM_CTRL: u8 = 0x01;
pub const REQ_SET_FLOW_CTRL: u8 = 0x02;
pub const REQ_SET_BAUD_RATE: u8 = 0x03;
pub const REQ_SET_DATA: u8 = 0x04;
pub const REQ_GET_MODEM_STATUS: u8 = 0x05;
pub const REQ_SET_EVENT_CHAR: u8 = 0x06;
pub const REQ_SET_ERROR_CHAR: u8 = 0x07;
pub const REQ_SET_LATENCY_TIMER: u8 = 0x09;
pub const REQ_GET_LATENCY_TIMER: u8 = 0x0A;
pub const REQ_SET_BITMODE: u8 = 0x0B;
pub const REQ_READ_PINS: u8 = 0x0C;
pub const REQ_READ_EEPROM: u8 = 0x90;

/// Modem status byte: low nibble 1 as on real silicon, no handshake lines.
pub const STATUS_MODEM: u8 = 0x01;
/// Line status byte: transmitter empty (THRE | TEMT).
pub const STATUS_LINE: u8 = 0x60;

/// The two status bytes that lead every IN packet.
pub open spec fn status() -> Seq<u8> {
    seq![STATUS_MODEM, STATUS_LINE]
}

/// How a vendor OUT request is answered.
#[derive(Clone, Copy, Debug, PartialEq, Eq, Structural)]
pub enum OutDecision {
    /// Not a vendor request to the device: left to other handlers.
    NotHandled,
    /// Accepted; nothing to keep.
    Accept,
    /// Accepted; the latency timer becomes this many milliseconds.
    SetLatency(u8),
}

/// How a vendor IN request is answered.
#[derive(Debug, PartialEq, Eq)]
pub enum InDecision {
    /// Not a vendor request to the device: left to other handlers.
    NotHandled,
    /// Answered with these bytes.
    Reply(Vec<u8>),
    /// Refused.
    Reject,
}

/// The latency timer value that setting it to `value` keeps: the low byte,
/// at least 1 ms.
pub open spec fn latency_from(value: u16) -> u8 {
    if value % 256 == 0 { 1 } else { (value % 256) as u8 }
}

/// The latency timer after a control OUT request, starting from `latency`.
pub open spec fn latency_after_out(latency: u8, vendor_device: bool, request: u8, value: u16) -> u8 {
    if vendor_device && request == REQ_SET_LATENCY_TIMER { latency_from(value) } else { latency }
}

/// The bytes answering a vendor IN request, if it is one this device answers.
pub open spec fn in_reply(request: u8, latency_ms: u8) -> Option<Seq<u8>> {
    if request == REQ_GET_MODEM_STATUS {
        Some(status())
    } else if request == REQ_GET_LATENCY_TIMER {
        Some(seq![latency_ms])
    } else if request == REQ_READ_PINS {
        Some(seq![0u8])
    } else if request == REQ_READ_EEPROM {
        Some(seq![0u8, 0u8])
    } else {
        None
    }
}

/// Answers the vendor control requests a host makes while opening the port,
/// and keeps the one setting worth keeping: the latency timer, how often the
/// host expects to hear from the device when there is no data.
pub struct FtdiControl {
    /// Latency timer in milliseconds, as last set by the host.
    pub latency_ms: u8,
}

impl FtdiControl {
    /// Before the host sets anything: latency 16 ms.
    pub fn new() -> (c: FtdiControl)
        ensures
            c.latency_ms == DEFAULT_LATENCY_MS,
    {
        FtdiControl { latency_ms: DEFAULT_LATENCY_MS }
    }

    /// Answers a control OUT request. `vendor_device` says whether it is a
    /// vendor request addressed to the device. Setting the latency timer keeps
    /// the low byte of the value, at least 1 ms; every other request, known or
    /// not, is accepted and ignored, because a refusal aborts the host's open.
    pub fn control_out(&mut self, vendor_device: bool, request: u8, value: u16) -> (d: OutDecision)
        ensures
            !vendor_device ==> d == OutDecision::NotHandled,
            vendor_device && request == REQ_SET_LATENCY_TIMER ==> d == OutDecision::SetLatency(latency_from(value)),
            vendor_device && request != REQ_SET_LATENCY_TIMER ==> d == OutDecision::Accept,
            final(self).latency_ms == latency_after_out(old(self).latency_ms, vendor_device, request, value),
    {
        if !vendor_device {
            return OutDecision::NotHandled;
        }
        if request == REQ_SET_LATENCY_TIMER {
            let low = (value & 0xff) as u8;
            assert(value & 0xff == value % 256) by (bit_vector);
            let ms = if low < 1 { 1 } else { low };
            self.latency_ms = ms;
            OutDecision::SetLatency(ms)
        } else {
            OutDecision::Accept
        }
    }

    /// Answers a control IN request: the modem and line status, the latency
    /// timer as last set, no bit-bang pins, a blank EEPROM word; anything else
    /// is refused.
    pub fn control_in(&self, vendor_device: bool, request: u8) -> (d: InDecision)
        ensures
            !vendor_device ==> d == InDecision::NotHandled,
            vendor_device ==> match in_reply(request, self.latency_ms) {
                Some(bytes) => d matches InDecision::Reply(v) && v@ == bytes,
                None => d == InDecision::Reject,
            },
    {
        if !vendor_device {
            return InDecision::NotHandled;
        }
        if request == REQ_GET_MODEM_STATUS {
            InDecision::Reply(vec![STATUS_MODEM, STATUS_LINE])
        } else if request == REQ_GET_LATENCY_TIMER {
            InDecision::Reply(vec![self.latency_ms])
        } else if request == REQ_READ_PINS {
            InDecision::Reply(vec![0u8])
        } else if request == REQ_READ_EEPROM {
            InDecision::Reply(vec![0u8, 0u8])
        } else {
            InDecision::Reject
        }
    }
}

/// The latency timer reads back as last set by the host: after a vendor
/// request setting it to `value`, reading it answers the kept value; any
/// other OUT request leaves what it answers unchanged.
pub proof fn lemma_latency_reads_back(latency: u8, value: u16, request: u8, other_value: u16)
    ensures
        in_reply(REQ_GET_LATENCY_TIMER, latency_after_out(latency, true, REQ_SET_LATENCY_TIMER, value))
            == Some(seq![latency_from(value)]),
        1 <= latency_from(value),
        1 <= value <= 255 ==> latency_from(value) == value,
        request != REQ_SET_LATENCY_TIMER ==> latency_after_out(latency, true, request, other_value) == latency,
        latency_after_out(latency, false, request, other_value) == latency,
{
}

/// Number of 62-byte payload chunks of `len` bytes.
pub open spec fn chunk_count(len: nat) -> nat {
    ((len + 61) / 62) as nat
}

/// Payload chunk `n` of `bytes`.
pub open spec fn payload_chunk(bytes: Seq<u8>, n: int) -> Seq<u8> {
    let start = n * 62;
    let end = if start + 62 <= bytes.len() { start + 62 } else { bytes.len() as int };
    bytes.subrange(start, end)
}

/// The IN packets for a framed reply: a status-only heartbeat for no bytes;
/// otherwise each 62-byte chunk behind the status bytes, and a status-only
/// packet after a full last one, so the host does not wait for more.
pub open spec fn ftdi_packets_spec(bytes: Seq<u8>) -> Seq<Seq<u8>> {
    if bytes.len() == 0 {
        seq![status()]
    } else {
        let n = chunk_count(bytes.len());
        let data = Seq::new(n, |i: int| status() + payload_chunk(bytes, i));
        if bytes.len() % 62 == 0 { data.push(status()) } else { data }
    }
}

/// Cuts a framed reply into FTDI IN packets.
pub fn ftdi_packets(bytes: &[u8]) -> (packets: Vec<Vec<u8>>)
    ensures
        packets@.len() == ftdi_packets_spec(bytes@).len(),
        forall|i: int| 0 <= i < packets@.len() ==> (#[trigger] packets@[i])@ == ftdi_packets_spec(bytes@)[i],
{
    let len = bytes.len();
    let mut packets: Vec<Vec<u8>> = Vec::new();
    if len == 0 {
        packets.push(vec![STATUS_MODEM, STATUS_LINE]);
        proof {
            assert(packets@[0]@ =~= status());
        }
        return packets;
    }
    let ghost n = chunk_count(len as nat);
    let mut start: usize = 0;
    let mut ended_full = false;
    while start < len
        invariant
            start <= len,
            len == bytes@.len(),
            len > 0,
            n == chunk_count(len as nat),
            start < len ==> start == 62 * packets@.len(),
            start == len ==> packets@.len() == n,
            forall|i: int| 0 <= i < packets@.len() ==> (#[trigger] packets@[i])@ == status()
                + payload_chunk(bytes@, i),
            start == len ==> (ended_full <==> len % 62 == 0),
        decreases len - start,
    {
        let end = if len - start >= PAYLOAD_PER_PACKET { start + PAYLOAD_PER_PACKET } else { len };
        let mut packet: Vec<u8> = vec![STATUS_MODEM, STATUS_LINE];
        let mut k = start;
        while k < end
            invariant
                start <= k <= end,
                end <= bytes@.len(),
                packet@ == status() + bytes@.subrange(start as int, k as int),
            decreases end - k,
        {
            packet.push(bytes[k]);
            proof {
                assert(bytes@.subrange(start as int, k + 1) =~= bytes@.subrange(start as int, k as int).push(
                    bytes@[k as int],
                ));
                assert(packet@ =~= status() + bytes@.subrange(start as int, k + 1));
            }
            k = k + 1;
        }
        ended_full = end - start == PAYLOAD_PER_PACKET;
        let ghost idx = packets@.len() as int;
        proof {
            assert(start == idx * 62);
            assert(payload_chunk(bytes@, idx) == bytes@.subrange(start as int, end as int));
            if end == len {
                assert(chunk_count(len as nat) == idx + 1 && ((end - start == 62) <==> len % 62 == 0))
                    by (nonlinear_arith)
                    requires
                        start == idx * 62,
                        start < len,
                        len - start <= 62,
                        end == len,
                ;
            }
        }
        packets.push(packet);
        start = end;
    }
    let ghost m = packets@.len();
    if ended_full {
        packets.push(vec![STATUS_MODEM, STATUS_LINE]);
    }
    proof {
        assert(m == n);
        let want = ftdi_packets_spec(bytes@);
        assert forall|i: int| 0 <= i < packets@.len() implies (#[trigger] packets@[i])@ == want[i] by {
            if i == m {
                assert(packets@[i]@ =~= status());
            }
        }
    }
    packets
}

/// Stripping the two status bytes from every packet, as the host driver does,
/// gives back exactly the reply; and no packet is longer than 64 bytes.
pub proof fn lemma_packets_strip_to_reply(bytes: Seq<u8>)
    ensures
        forall|i: int| 0 <= i < ftdi_packets_spec(bytes).len() ==> (#[trigger] ftdi_packets_spec(bytes)[i]).len()
            <= 64 && ftdi_packets_spec(bytes)[i].subrange(0, 2) == status(),
        strip_all(ftdi_packets_spec(bytes), ftdi_packets_spec(bytes).len()) == bytes,
{
    let p = ftdi_packets_spec(bytes);
    assert forall|i: int| 0 <= i < p.len() implies (#[trigger] p[i]).len() <= 64 && p[i].subrange(0, 2)
        == status() by {
        assert(p[i].subrange(0, 2) =~= status());
    }
    if bytes.len() == 0 {
        assert(p[0] == status());
        assert(p[0].subrange(2, 2) =~= Seq::<u8>::empty());
        assert(strip_all(p, 0) == Seq::<u8>::empty());
        assert(strip_all(p, 1) == strip_all(p, 0) + p[0].subrange(2, p[0].len() as int));
        assert(strip_all(p, 1) =~= bytes);
    } else {
        let n = chunk_count(bytes.len());
        lemma_strip_prefix(bytes, n);
        assert(n * 62 >= bytes.len()) by (nonlinear_arith)
            requires
                n == (bytes.len() + 61) / 62,
        ;
        assert(bytes.subrange(0, bytes.len() as int) =~= bytes);
        if bytes.len() % 62 == 0 {
            assert(strip_all(p, n) == strip_all(p.drop_last(), n)) by {
                lemma_strip_all_prefix(p, p.drop_last(), n);
            }
            assert(p[n as int].subrange(2, 2) =~= Seq::<u8>::empty());
            assert(strip_all(p, n + 1) =~= strip_all(p, n));
        }
    }
}

/// `strip_all` of the first `k` packets depends only on those packets.
proof fn lemma_strip_all_prefix(p: Seq<Seq<u8>>, q: Seq<Seq<u8>>, k: nat)
    requires
        k <= p.len(),
        k <= q.len(),
        forall|i: int| 0 <= i < k ==> p[i] == q[i],
    ensures
        strip_all(p, k) == strip_all(q, k),
    decreases k,
{
    if k > 0 {
        lemma_strip_all_prefix(p, q, (k - 1) as nat);
    }
}

/// The payloads of the first `k` data packets are the first `62 * k` bytes of
/// the reply (or all of it).
proof fn lemma_strip_prefix(bytes: Seq<u8>, k: nat)
    requires
        bytes.len() > 0,
        k <= chunk_count(bytes.len()),
    ensures
        strip_all(ftdi_packets_spec(bytes), k) == bytes.subrange(
            0,
            if k * 62 <= bytes.len() { (k * 62) as int } else { bytes.len() as int },
        ),
    decreases k,
{
    let p = ftdi_packets_spec(bytes);
    if k == 0 {
        assert(bytes.subrange(0, 0) =~= Seq::<u8>::empty());
    } else {
        lemma_strip_prefix(bytes, (k - 1) as nat);
        let i = k - 1;
        assert((k - 1) * 62 < bytes.len()) by (nonlinear_arith)
            requires
                k <= (bytes.len() + 61) / 62,
                k >= 1,
        ;
        let c = payload_chunk(bytes, i);
        assert(p[i] == status() + c);
        assert(p[i].subrange(2, p[i].len() as int) =~= c);
        let lo = i * 62;
        let hi = if k * 62 <= bytes.len() { (k * 62) as int } else { bytes.len() as int };
        assert(bytes.subrange(0, hi) =~= bytes.subrange(0, lo) + bytes.subrange(lo, hi));
    }
}

/// The payloads of the first `k` packets, status bytes stripped, in order.
pub open spec fn strip_all(packets: Seq<Seq<u8>>, k: nat) -> Seq<u8>
    decreases k,
{
    if k == 0 {
        seq![]
    } else {
        strip_all(packets, (k - 1) as nat) + packets[k - 1].subrange(2, packets[k - 1].len() as int)
    }
}

/// Bulk IN endpoint address (`0x81`).
pub const EP_IN_ADDRESS: u8 = 0x81;
/// Bulk OUT endpoint address (`0x02`).
pub const EP_OUT_ADDRESS: u8 = 0x02;

/// The FT232R identity: FTDI's VID and PID, `bcdDevice` of an FT232R,
/// Enttec's strings, a plain USB 2.0 device with the class at the interface
/// and no IADs, bus-powered with remote wakeup and 90 mA, as the chip's own
/// descriptor reads.
pub fn ftdi_device_config(serial: &'static str) -> (c: UsbDeviceConfig)
    ensures
        c.vid == FTDI_VID && c.pid == FTDI_PID,
        c.manufacturer@ == "ENTTEC"@ && c.product@ == "DMX USB PRO"@,
        c.serial_number == serial,
        c.device_release == Some(BCD_FT232R) && c.usb_2_0,
        c.device_class == 0 && c.device_sub_class == 0 && c.device_protocol == 0,
        !c.composite_with_iads,
        c.max_packet_size_0 == 64,
        c.self_powered == Some(false) && c.supports_remote_wakeup == Some(true) && c.max_power_ma == Some(90u16),
{
    UsbDeviceConfig {
        vid: FTDI_VID,
        pid: FTDI_PID,
        manufacturer: "ENTTEC",
        product: "DMX USB PRO",
        serial_number: serial,
        device_release: Some(BCD_FT232R),
        usb_2_0: true,
        device_class: 0x00,
        device_sub_class: 0x00,
        device_protocol: 0x00,
        composite_with_iads: false,
        max_packet_size_0: 64,
        self_powered: Some(false),
        supports_remote_wakeup: Some(true),
        max_power_ma: Some(90),
    }
}

/// Direction of a bulk endpoint.
#[derive(Clone, Copy, Debug, PartialEq, Eq, Structural)]
pub enum Direction {
    In,
    Out,
}

/// One bulk endpoint of the vendor interface.
#[derive(Clone, Copy, Debug, PartialEq, Eq, Structural)]
pub struct BulkEndpoint {
    pub address: u8,
    pub direction: Direction,
    pub max_packet: u16,
}

/// The single interface of the FT232R identity.
pub struct VendorInterface {
    pub class: u8,
    pub sub_class: u8,
    pub protocol: u8,
    /// In the order the descriptor lists them.
    pub endpoints: Vec<BulkEndpoint>,
}

/// The FT232R's one interface: vendor class `FF/FF/FF`, not composite, with
/// bulk IN on `0x81` listed before bulk OUT on `0x02`, 64 bytes each, as real
/// silicon has them; the Windows driver expects that layout rather than
/// reading it back.
pub fn ftdi_interface() -> (i: VendorInterface)
    ensures
        i.class == 0xFF && i.sub_class == 0xFF && i.protocol == 0xFF,
        i.endpoints@ == seq![
            BulkEndpoint { address: EP_IN_ADDRESS, direction: Direction::In, max_packet: 64 },
            BulkEndpoint { address: EP_OUT_ADDRESS, direction: Direction::Out, max_packet: 64 },
        ],
{
    let v = vec![
        BulkEndpoint { address: EP_IN_ADDRESS, direction: Direction::In, max_packet: 64 },
        BulkEndpoint { address: EP_OUT_ADDRESS, direction: Direction::Out, max_packet: 64 },
    ];
    assert(v@ =~= seq![
        BulkEndpoint { address: EP_IN_ADDRESS, direction: Direction::In, max_packet: 64 },
        BulkEndpoint { address: EP_OUT_ADDRESS, direction: Direction::Out, max_packet: 64 },
    ]);
    VendorInterface { class: 0xFF, sub_class: 0xFF, protocol: 0xFF, endpoints: v }
}

/// The control requests as they appear on the wire, by their `ftdi_sio`
/// request numbers: reading the modem status (`0x05`) answers `01 60`, the
/// latency timer (`0x0A`) its current value, the pins (`0x0C`) one zero byte,
/// the EEPROM (`0x90`) a zero word, and any other read is refused; setting
/// the latency timer (`0x09`) keeps the value's low byte, at least 1, and any
/// other write or a request not to the device leaves it alone.
pub proof fn lemma_requests_on_the_wire(request: u8, latency: u8, value: u16, vendor_device: bool)
    ensures
        in_reply(request, latency) == (if request == 0x05 {
            Some(seq![0x01u8, 0x60u8])
        } else if request == 0x0A {
            Some(seq![latency])
        } else if request == 0x0C {
            Some(seq![0x00u8])
        } else if request == 0x90 {
            Some(seq![0x00u8, 0x00u8])
        } else {
            None
        }),
        latency_after_out(latency, vendor_device, request, value) == (if vendor_device && request == 0x09 {
            if value % 256 == 0 { 1u8 } else { (value % 256) as u8 }
        } else {
            latency
        }),
{
}

/// Every IN packet starts with the status bytes `01 60` and carries at most
/// 62 bytes behind them; a reply of no bytes is the lone status packet; and a
/// status-only packet follows the data exactly when the reply fills its last
/// packet.
pub proof fn lemma_packets_on_the_wire(bytes: Seq<u8>)
    ensures
        forall|i: int| 0 <= i < ftdi_packets_spec(bytes).len() ==> (#[trigger] ftdi_packets_spec(bytes)[i]).subrange(0, 2)
            == seq![0x01u8, 0x60u8] && ftdi_packets_spec(bytes)[i].len() <= 64,
        bytes.len() == 0 ==> ftdi_packets_spec(bytes) == seq![seq![0x01u8, 0x60u8]],
        bytes.len() > 0 ==> (ftdi_packets_spec(bytes).last() == seq![0x01u8, 0x60u8] <==> bytes.len() % 62 == 0),
{
    lemma_packets_strip_to_reply(bytes);
    let p = ftdi_packets_spec(bytes);
    assert(status() =~= seq![0x01u8, 0x60u8]);
    if bytes.len() > 0 && bytes.len() % 62 != 0 {
        let n = chunk_count(bytes.len());
        assert(n >= 1);
        let c = payload_chunk(bytes, n - 1);
        assert((n - 1) * 62 < bytes.len()) by (nonlinear_arith)
            requires
                n == (bytes.len() + 61) / 62,
                bytes.len() > 0,
        ;
        assert(p.last() == status() + c);
        assert(c.len() > 0);
        assert(p.last().len() > 2);
    }
}

} // verus!
