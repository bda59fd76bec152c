//! Bring-up diagnostics readable without a debug probe.
//!
//! Each init step raises a flag as it passes or fails; the USB console prints
//! the set as `diag=...`. Flags are sticky for the life of the boot: the point
//! is to answer "how far did it get" from a serial terminal. The firmware keeps
//! one [`Diag`] for the whole boot.

use vstd::prelude::*;
use vstd::string::*;
use crate::numfmt::{digits, hex_padded, push_digits, push_hex_padded};

verus! {

pub const EXPANDER_OK: u32 = 0x0000_0001;
pub const EXPANDER_FAIL: u32 = 0x0000_0002;
pub const EXPANDER_RES_FAIL: u32 = 0x0000_0004;
pub const TFT_RES_RELEASED: u32 = 0x0000_0008;
pub const TFT_CS_ASSERTED: u32 = 0x0000_2000;
pub const TFT_INIT_OK: u32 = 0x0000_0010;
pub const TFT_INIT_FAIL: u32 = 0x0000_0020;
pub const TFT_SPLASH_DONE: u32 = 0x0000_0040;
pub const BACKLIGHT_OK: u32 = 0x0000_0080;
pub const BACKLIGHT_FAIL: u32 = 0x0000_0100;
pub const TERMINAL_OK: u32 = 0x0000_0200;
pub const TERMINAL_FAIL: u32 = 0x0000_0400;
pub const FIRST_FRAME: u32 = 0x0000_0800;
pub const DRAW_ERROR: u32 = 0x0000_1000;
pub const PANEL_TEST_DONE: u32 = 0x0000_4000;

/// The W6300 answered and reported the version the driver expects.
pub const ETH_OK: u32 = 0x0000_8000;
/// Nothing came back over SPI at all: the transaction itself errored.
pub const ETH_NO_REPLY: u32 = 0x0001_0000;
/// Something came back, but not a healthy W6300; `eth_ver=` carries the byte.
pub const ETH_BAD_VERSION: u32 = 0x0002_0000;
/// The PHY negotiated a link at least once.
pub const ETH_LINK_UP: u32 = 0x0004_0000;
/// The link came up and then dropped. Sticky, so an intermittent cable leaves
/// evidence.
pub const ETH_LINK_DROPPED: u32 = 0x0008_0000;
/// The stack reached a configured address (DHCP lease or the static config).
pub const ETH_CONFIGURED: u32 = 0x0010_0000;

/// Sentinel for "the version register was never read".
pub const NO_VERSION: u16 = 0xFFFF;

/// Number of named flags.
pub const FLAG_COUNT: usize = 21;

/// The boot's diagnostic record.
pub struct Diag {
    /// Every flag raised so far.
    pub flags: u32,
    /// Version byte read from the W6300's `CIDR2`, or [`NO_VERSION`].
    pub eth_version: u16,
    /// SPI clock the W6300 link runs at, in Hz; 0 until one is chosen.
    pub eth_hz: u32,
    /// Highest clock the probe found working, in Hz; 0 until measured.
    pub eth_max_hz: u32,
}

/// The bit of the `i`-th named flag, in display order.
pub open spec fn flag_bit(i: int) -> u32 {
    if i == 0 { EXPANDER_OK }
    else if i == 1 { EXPANDER_FAIL }
    else if i == 2 { EXPANDER_RES_FAIL }
    else if i == 3 { TFT_RES_RELEASED }
    else if i == 4 { TFT_CS_ASSERTED }
    else if i == 5 { PANEL_TEST_DONE }
    else if i == 6 { TFT_INIT_OK }
    else if i == 7 { TFT_INIT_FAIL }
    else if i == 8 { TFT_SPLASH_DONE }
    else if i == 9 { BACKLIGHT_OK }
    else if i == 10 { BACKLIGHT_FAIL }
    else if i == 11 { TERMINAL_OK }
    else if i == 12 { TERMINAL_FAIL }
    else if i == 13 { FIRST_FRAME }
    else if i == 14 { DRAW_ERROR }
    else if i == 15 { ETH_OK }
    else if i == 16 { ETH_NO_REPLY }
    else if i == 17 { ETH_BAD_VERSION }
    else if i == 18 { ETH_LINK_UP }
    else if i == 19 { ETH_LINK_DROPPED }
    else { ETH_CONFIGURED }
}

/// The name of the `i`-th flag; failures are in capitals.
pub open spec fn flag_name(i: int) -> Seq<char> {
    if i == 0 { "expander_ok"@ }
    else if i == 1 { "EXPANDER_FAIL"@ }
    else if i == 2 { "EXPANDER_RES_FAIL"@ }
    else if i == 3 { "tft_res_released"@ }
    else if i == 4 { "tft_cs_asserted"@ }
    else if i == 5 { "panel_test_done"@ }
    else if i == 6 { "tft_init_ok"@ }
    else if i == 7 { "TFT_INIT_FAIL"@ }
    else if i == 8 { "tft_splash_done"@ }
    else if i == 9 { "backlight_ok"@ }
    else if i == 10 { "BACKLIGHT_FAIL"@ }
    else if i == 11 { "terminal_ok"@ }
    else if i == 12 { "TERMINAL_FAIL"@ }
    else if i == 13 { "first_frame_drawn"@ }
    else if i == 14 { "DRAW_ERROR"@ }
    else if i == 15 { "eth_ok"@ }
    else if i == 16 { "ETH_NO_REPLY"@ }
    else if i == 17 { "ETH_BAD_VERSION"@ }
    else if i == 18 { "eth_link_up"@ }
    else if i == 19 { "ETH_LINK_DROPPED"@ }
    else { "eth_configured"@ }
}

/// Names of the flags among the first `k` that are raised in `flags`, in order.
pub open spec fn raised_names(flags: u32, k: nat) -> Seq<Seq<char>>
    decreases k,
{
    if k == 0 {
        seq![]
    } else {
        let before = raised_names(flags, (k - 1) as nat);
        if flags & flag_bit(k - 1) != 0 {
            before.push(flag_name(k - 1))
        } else {
            before
        }
    }
}

/// The words of `words` joined by single spaces.
pub open spec fn join_spaced(words: Seq<Seq<char>>) -> Seq<char>
    decreases words.len(),
{
    if words.len() == 0 {
        seq![]
    } else if words.len() == 1 {
        words[0]
    } else {
        join_spaced(words.drop_last()) + seq![' '] + words.last()
    }
}

/// The flag part of the report: the raised names, or `none`.
pub open spec fn flags_text(flags: u32) -> Seq<char> {
    let names = raised_names(flags, FLAG_COUNT as nat);
    if names.len() == 0 { "none"@ } else { join_spaced(names) }
}

/// The whole report that [`text`] returns for `d`.
pub open spec fn diag_text(d: Diag) -> Seq<char> {
    flags_text(d.flags)
        + (if d.eth_version != NO_VERSION { " eth_ver=0x"@ + hex_padded(d.eth_version as nat, 2) } else { seq![] })
        + (if d.eth_hz != 0 { " eth_hz="@ + digits((d.eth_hz / 1000) as nat, 10) + "k"@ } else { seq![] })
        + (if d.eth_max_hz != 0 { " eth_max="@ + digits((d.eth_max_hz / 1000) as nat, 10) + "k"@ } else { seq![] })
}

impl Diag {
    /// A fresh boot: no flag raised, no version read, no clock chosen.
    pub fn new() -> (d: Diag)
        ensures
            d.flags == 0,
            d.eth_version == NO_VERSION,
            d.eth_hz == 0,
            d.eth_max_hz == 0,
    {
        Diag { flags: 0, eth_version: NO_VERSION, eth_hz: 0, eth_max_hz: 0 }
    }
}

/// Raises the flags in `bit`; nothing is ever cleared.
pub fn set(diag: &mut Diag, bit: u32)
    ensures
        final(diag).flags == old(diag).flags | bit,
        final(diag).eth_version == old(diag).eth_version,
        final(diag).eth_hz == old(diag).eth_hz,
        final(diag).eth_max_hz == old(diag).eth_max_hz,
{
    diag.flags = diag.flags | bit;
}

/// Records the W6300 version byte, whatever it turned out to be.
pub fn set_eth_version(diag: &mut Diag, version: u8)
    ensures
        final(diag).eth_version == version as u16,
        final(diag).flags == old(diag).flags,
        final(diag).eth_hz == old(diag).eth_hz,
        final(diag).eth_max_hz == old(diag).eth_max_hz,
{
    diag.eth_version = version as u16;
}

/// Records the SPI clock the link runs at.
pub fn set_eth_hz(diag: &mut Diag, hz: u32)
    ensures
        final(diag).eth_hz == hz,
        final(diag).flags == old(diag).flags,
        final(diag).eth_version == old(diag).eth_version,
        final(diag).eth_max_hz == old(diag).eth_max_hz,
{
    diag.eth_hz = hz;
}

/// Records the highest SPI clock that read the version register cleanly.
pub fn set_eth_max_hz(diag: &mut Diag, hz: u32)
    ensures
        final(diag).eth_max_hz == hz,
        final(diag).flags == old(diag).flags,
        final(diag).eth_version == old(diag).eth_version,
        final(diag).eth_hz == old(diag).eth_hz,
{
    diag.eth_max_hz = hz;
}

/// The bit and name of the `i`-th flag in display order.
fn flag_entry(i: usize) -> (r: (u32, &'static str))
    requires
        i < FLAG_COUNT,
    ensures
        r.0 == flag_bit(i as int),
        r.1@ == flag_name(i as int),
{
    match i {
        0 => (EXPANDER_OK, "expander_ok"),
        1 => (EXPANDER_FAIL, "EXPANDER_FAIL"),
        2 => (EXPANDER_RES_FAIL, "EXPANDER_RES_FAIL"),
        3 => (TFT_RES_RELEASED, "tft_res_released"),
        4 => (TFT_CS_ASSERTED, "tft_cs_asserted"),
        5 => (PANEL_TEST_DONE, "panel_test_done"),
        6 => (TFT_INIT_OK, "tft_init_ok"),
        7 => (TFT_INIT_FAIL, "TFT_INIT_FAIL"),
        8 => (TFT_SPLASH_DONE, "tft_splash_done"),
        9 => (BACKLIGHT_OK, "backlight_ok"),
        10 => (BACKLIGHT_FAIL, "BACKLIGHT_FAIL"),
        11 => (TERMINAL_OK, "terminal_ok"),
        12 => (TERMINAL_FAIL, "TERMINAL_FAIL"),
        13 => (FIRST_FRAME, "first_frame_drawn"),
        14 => (DRAW_ERROR, "DRAW_ERROR"),
        15 => (ETH_OK, "eth_ok"),
        16 => (ETH_NO_REPLY, "ETH_NO_REPLY"),
        17 => (ETH_BAD_VERSION, "ETH_BAD_VERSION"),
        18 => (ETH_LINK_UP, "eth_link_up"),
        19 => (ETH_LINK_DROPPED, "ETH_LINK_DROPPED"),
        _ => (ETH_CONFIGURED, "eth_configured"),
    }
}

/// Space-separated names of every flag raised so far, failures in capitals
/// (`none` when nothing is raised), then the version byte, the operating clock
/// and the measured ceiling, each only once it is known.
pub fn text(diag: &Diag) -> (s: String)
    ensures
        s@ == diag_text(*diag),
{
    let f = diag.flags;
    let mut s = String::new();
    let mut any = false;
    let mut i: usize = 0;
    while i < FLAG_COUNT
        invariant
            i <= FLAG_COUNT,
            any <==> raised_names(f, i as nat).len() > 0,
            any ==> s@ == join_spaced(raised_names(f, i as nat)),
            !any ==> s@ == Seq::<char>::empty(),
        decreases FLAG_COUNT - i,
    {
        let (bit, name) = flag_entry(i);
        if f & bit != 0 {
            let ghost before = raised_names(f, i as nat);
            if any {
                s.append(" ");
            }
            s.append(name);
            proof {
                reveal_strlit(" ");
                let after = raised_names(f, (i + 1) as nat);
                assert(after == before.push(flag_name(i as int)));
                assert(after.drop_last() == before);
                if !any {
                    assert(before.len() == 0);
                    assert(s@ =~= join_spaced(after));
                } else {
                    assert(s@ =~= join_spaced(after));
                }
            }
            any = true;
        }
        i = i + 1;
    }
    if !any {
        s.append("none");
    }
    let version = diag.eth_version;
    if version != NO_VERSION {
        s.append(" eth_ver=0x");
        push_hex_padded(&mut s, version as u64, 2);
    }
    let hz = diag.eth_hz;
    if hz != 0 {
        s.append(" eth_hz=");
        push_digits(&mut s, (hz / 1000) as u64, 10);
        s.append("k");
    }
    let max = diag.eth_max_hz;
    if max != 0 {
        s.append(" eth_max=");
        push_digits(&mut s, (max / 1000) as u64, 10);
        s.append("k");
    }
    s
}

/// Flags are sticky: raising one never lowers another.
pub proof fn lemma_set_is_sticky(before: u32, bit: u32, other: u32)
    requires
        before & other == other,
    ensures
        (before | bit) & other == other,
{
    assert((before | bit) & other == other) by (bit_vector)
        requires
            before & other == other,
    ;
}

/// The names raised among the first `k` flags include `name` exactly when
/// one of those flags is raised and has that name.
proof fn lemma_raised_names_contains(flags: u32, k: nat, name: Seq<char>)
    ensures
        raised_names(flags, k).contains(name) <==> exists|j: int|
            0 <= j < k && flags & flag_bit(j) != 0 && #[trigger] flag_name(j) == name,
    decreases k,
{
    if k > 0 {
        lemma_raised_names_contains(flags, (k - 1) as nat, name);
        let before = raised_names(flags, (k - 1) as nat);
        if flags & flag_bit(k - 1) != 0 {
            let after = before.push(flag_name(k - 1));
            if after.contains(name) {
                let i = choose|i: int| 0 <= i < after.len() && after[i] == name;
                if i < before.len() {
                    assert(before[i] == name);
                }
            }
            if exists|j: int| 0 <= j < k && flags & flag_bit(j) != 0 && #[trigger] flag_name(j) == name {
                let j = choose|j: int| 0 <= j < k && flags & flag_bit(j) != 0 && #[trigger] flag_name(j) == name;
                if j == k - 1 {
                    assert(after[after.len() - 1] == name);
                } else {
                    let i = choose|i: int| 0 <= i < before.len() && before[i] == name;
                    assert(after[i] == name);
                }
            }
        } else {
            if exists|j: int| 0 <= j < k && flags & flag_bit(j) != 0 && #[trigger] flag_name(j) == name {
                let j = choose|j: int| 0 <= j < k && flags & flag_bit(j) != 0 && #[trigger] flag_name(j) == name;
                assert(j < k - 1);
            }
        }
    }
}

/// Length, second and fifth character of flag `i`'s name: enough to tell
/// every name apart.
spec fn name_signature(i: int) -> (nat, char, char) {
    if i == 0 { (11, 'x', 'n') }
    else if i == 1 { (13, 'X', 'N') }
    else if i == 2 { (17, 'X', 'N') }
    else if i == 3 { (16, 'f', 'r') }
    else if i == 4 { (15, 'f', 'c') }
    else if i == 5 { (15, 'a', 'l') }
    else if i == 6 { (11, 'f', 'i') }
    else if i == 7 { (13, 'F', 'I') }
    else if i == 8 { (15, 'f', 's') }
    else if i == 9 { (12, 'a', 'l') }
    else if i == 10 { (14, 'A', 'L') }
    else if i == 11 { (11, 'e', 'i') }
    else if i == 12 { (13, 'E', 'I') }
    else if i == 13 { (17, 'i', 't') }
    else if i == 14 { (10, 'R', '_') }
    else if i == 15 { (6, 't', 'o') }
    else if i == 16 { (12, 'T', 'N') }
    else if i == 17 { (15, 'T', 'B') }
    else if i == 18 { (11, 't', 'l') }
    else if i == 19 { (16, 'T', 'L') }
    else { (14, 't', 'c') }
}

/// Flag `i`'s name has the signature [`name_signature`] gives.
proof fn lemma_name_signature(i: int)
    requires
        0 <= i < FLAG_COUNT,
    ensures
        (flag_name(i).len(), flag_name(i)[1], flag_name(i)[4]) == name_signature(i),
{
    if i == 0 {
        reveal_strlit("expander_ok");
        assert(flag_name(i).len() == 11 && flag_name(i)[1] == 'x' && flag_name(i)[4] == 'n');
    } else if i == 1 {
        reveal_strlit("EXPANDER_FAIL");
        assert(flag_name(i).len() == 13 && flag_name(i)[1] == 'X' && flag_name(i)[4] == 'N');
    } else if i == 2 {
        reveal_strlit("EXPANDER_RES_FAIL");
        assert(flag_name(i).len() == 17 && flag_name(i)[1] == 'X' && flag_name(i)[4] == 'N');
    } else if i == 3 {
        reveal_strlit("tft_res_released");
        assert(flag_name(i).len() == 16 && flag_name(i)[1] == 'f' && flag_name(i)[4] == 'r');
    } else if i == 4 {
        reveal_strlit("tft_cs_asserted");
        assert(flag_name(i).len() == 15 && flag_name(i)[1] == 'f' && flag_name(i)[4] == 'c');
    } else if i == 5 {
        reveal_strlit("panel_test_done");
        assert(flag_name(i).len() == 15 && flag_name(i)[1] == 'a' && flag_name(i)[4] == 'l');
    } else if i == 6 {
        reveal_strlit("tft_init_ok");
        assert(flag_name(i).len() == 11 && flag_name(i)[1] == 'f' && flag_name(i)[4] == 'i');
    } else if i == 7 {
        reveal_strlit("TFT_INIT_FAIL");
        assert(flag_name(i).len() == 13 && flag_name(i)[1] == 'F' && flag_name(i)[4] == 'I');
    } else if i == 8 {
        reveal_strlit("tft_splash_done");
        assert(flag_name(i).len() == 15 && flag_name(i)[1] == 'f' && flag_name(i)[4] == 's');
    } else if i == 9 {
        reveal_strlit("backlight_ok");
        assert(flag_name(i).len() == 12 && flag_name(i)[1] == 'a' && flag_name(i)[4] == 'l');
    } else if i == 10 {
        reveal_strlit("BACKLIGHT_FAIL");
        assert(flag_name(i).len() == 14 && flag_name(i)[1] == 'A' && flag_name(i)[4] == 'L');
    } else if i == 11 {
        reveal_strlit("terminal_ok");
        assert(flag_name(i).len() == 11 && flag_name(i)[1] == 'e' && flag_name(i)[4] == 'i');
    } else if i == 12 {
        reveal_strlit("TERMINAL_FAIL");
        assert(flag_name(i).len() == 13 && flag_name(i)[1] == 'E' && flag_name(i)[4] == 'I');
    } else if i == 13 {
        reveal_strlit("first_frame_drawn");
        assert(flag_name(i).len() == 17 && flag_name(i)[1] == 'i' && flag_name(i)[4] == 't');
    } else if i == 14 {
        reveal_strlit("DRAW_ERROR");
        assert(flag_name(i).len() == 10 && flag_name(i)[1] == 'R' && flag_name(i)[4] == '_');
    } else if i == 15 {
        reveal_strlit("eth_ok");
        assert(flag_name(i).len() == 6 && flag_name(i)[1] == 't' && flag_name(i)[4] == 'o');
    } else if i == 16 {
        reveal_strlit("ETH_NO_REPLY");
        assert(flag_name(i).len() == 12 && flag_name(i)[1] == 'T' && flag_name(i)[4] == 'N');
    } else if i == 17 {
        reveal_strlit("ETH_BAD_VERSION");
        assert(flag_name(i).len() == 15 && flag_name(i)[1] == 'T' && flag_name(i)[4] == 'B');
    } else if i == 18 {
        reveal_strlit("eth_link_up");
        assert(flag_name(i).len() == 11 && flag_name(i)[1] == 't' && flag_name(i)[4] == 'l');
    } else if i == 19 {
        reveal_strlit("ETH_LINK_DROPPED");
        assert(flag_name(i).len() == 16 && flag_name(i)[1] == 'T' && flag_name(i)[4] == 'L');
    } else if i == 20 {
        reveal_strlit("eth_configured");
        assert(flag_name(i).len() == 14 && flag_name(i)[1] == 't' && flag_name(i)[4] == 'c');
    }
}

/// No two flags share a name.
proof fn lemma_flag_names_distinct(i: int, j: int)
    requires
        0 <= i < FLAG_COUNT,
        0 <= j < FLAG_COUNT,
        flag_name(i) == flag_name(j),
    ensures
        i == j,
{
    lemma_name_signature(i);
    lemma_name_signature(j);
}

/// Flag `i`'s name is among the raised names exactly when its bit is set.
proof fn lemma_names_flag(flags: u32, i: int)
    requires
        0 <= i < FLAG_COUNT,
    ensures
        raised_names(flags, FLAG_COUNT as nat).contains(flag_name(i)) <==> flags & flag_bit(i) != 0,
{
    lemma_raised_names_contains(flags, FLAG_COUNT as nat, flag_name(i));
    if raised_names(flags, FLAG_COUNT as nat).contains(flag_name(i)) {
        let j = choose|j: int|
            0 <= j < FLAG_COUNT && flags & flag_bit(j) != 0 && #[trigger] flag_name(j) == flag_name(i);
        lemma_flag_names_distinct(i, j);
    }
}

/// The report names exactly the raised flags, each by its own constant's
/// name, failures in capitals: for every flag, its name is among the raised
/// names exactly when its bit is set.
pub proof fn lemma_report_names_raised_flags(flags: u32)
    ensures
        raised_names(flags, FLAG_COUNT as nat).contains("expander_ok"@) <==> flags & EXPANDER_OK != 0,
        raised_names(flags, FLAG_COUNT as nat).contains("EXPANDER_FAIL"@) <==> flags & EXPANDER_FAIL != 0,
        raised_names(flags, FLAG_COUNT as nat).contains("EXPANDER_RES_FAIL"@) <==> flags & EXPANDER_RES_FAIL != 0,
        raised_names(flags, FLAG_COUNT as nat).contains("tft_res_released"@) <==> flags & TFT_RES_RELEASED != 0,
        raised_names(flags, FLAG_COUNT as nat).contains("tft_cs_asserted"@) <==> flags & TFT_CS_ASSERTED != 0,
        raised_names(flags, FLAG_COUNT as nat).contains("panel_test_done"@) <==> flags & PANEL_TEST_DONE != 0,
        raised_names(flags, FLAG_COUNT as nat).contains("tft_init_ok"@) <==> flags & TFT_INIT_OK != 0,
        raised_names(flags, FLAG_COUNT as nat).contains("TFT_INIT_FAIL"@) <==> flags & TFT_INIT_FAIL != 0,
        raised_names(flags, FLAG_COUNT as nat).contains("tft_splash_done"@) <==> flags & TFT_SPLASH_DONE != 0,
        raised_names(flags, FLAG_COUNT as nat).contains("backlight_ok"@) <==> flags & BACKLIGHT_OK != 0,
        raised_names(flags, FLAG_COUNT as nat).contains("BACKLIGHT_FAIL"@) <==> flags & BACKLIGHT_FAIL != 0,
        raised_names(flags, FLAG_COUNT as nat).contains("terminal_ok"@) <==> flags & TERMINAL_OK != 0,
        raised_names(flags, FLAG_COUNT as nat).contains("TERMINAL_FAIL"@) <==> flags & TERMINAL_FAIL != 0,
        raised_names(flags, FLAG_COUNT as nat).contains("first_frame_drawn"@) <==> flags & FIRST_FRAME != 0,
        raised_names(flags, FLAG_COUNT as nat).contains("DRAW_ERROR"@) <==> flags & DRAW_ERROR != 0,
        raised_names(flags, FLAG_COUNT as nat).contains("eth_ok"@) <==> flags & ETH_OK != 0,
        raised_names(flags, FLAG_COUNT as nat).contains("ETH_NO_REPLY"@) <==> flags & ETH_NO_REPLY != 0,
        raised_names(flags, FLAG_COUNT as nat).contains("ETH_BAD_VERSION"@) <==> flags & ETH_BAD_VERSION != 0,
        raised_names(flags, FLAG_COUNT as nat).contains("eth_link_up"@) <==> flags & ETH_LINK_UP != 0,
        raised_names(flags, FLAG_COUNT as nat).contains("ETH_LINK_DROPPED"@) <==> flags & ETH_LINK_DROPPED != 0,
        raised_names(flags, FLAG_COUNT as nat).contains("eth_configured"@) <==> flags & ETH_CONFIGURED != 0,
{
    reveal_strlit("expander_ok");
    reveal_strlit("EXPANDER_FAIL");
    reveal_strlit("EXPANDER_RES_FAIL");
    reveal_strlit("tft_res_released");
    reveal_strlit("tft_cs_asserted");
    reveal_strlit("panel_test_done");
    reveal_strlit("tft_init_ok");
    reveal_strlit("TFT_INIT_FAIL");
    reveal_strlit("tft_splash_done");
    reveal_strlit("backlight_ok");
    reveal_strlit("BACKLIGHT_FAIL");
    reveal_strlit("terminal_ok");
    reveal_strlit("TERMINAL_FAIL");
    reveal_strlit("first_frame_drawn");
    reveal_strlit("DRAW_ERROR");
    reveal_strlit("eth_ok");
    reveal_strlit("ETH_NO_REPLY");
    reveal_strlit("ETH_BAD_VERSION");
    reveal_strlit("eth_link_up");
    reveal_strlit("ETH_LINK_DROPPED");
    reveal_strlit("eth_configured");
    lemma_names_flag(flags, 0);
    lemma_names_flag(flags, 1);
    lemma_names_flag(flags, 2);
    lemma_names_flag(flags, 3);
    lemma_names_flag(flags, 4);
    lemma_names_flag(flags, 5);
    lemma_names_flag(flags, 6);
    lemma_names_flag(flags, 7);
    lemma_names_flag(flags, 8);
    lemma_names_flag(flags, 9);
    lemma_names_flag(flags, 10);
    lemma_names_flag(flags, 11);
    lemma_names_flag(flags, 12);
    lemma_names_flag(flags, 13);
    lemma_names_flag(flags, 14);
    lemma_names_flag(flags, 15);
    lemma_names_flag(flags, 16);
    lemma_names_flag(flags, 17);
    lemma_names_flag(flags, 18);
    lemma_names_flag(flags, 19);
    lemma_names_flag(flags, 20);
}

} // verus!
