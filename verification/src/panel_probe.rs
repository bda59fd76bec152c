//! Panel probe variant B: the Rev 1 display path with CS held statically low,
//! for a module on a breadboard with the carrier removed. It cycles solid
//! colours forever, since the SPI bus is write-only and only the glass can
//! answer whether the panel heard anything.

use vstd::prelude::*;

verus! {

/// SPI clock of the probe, kept low: the test is about the protocol.
pub const SPI_HZ: u32 = 4_000_000;
/// 1.47" 172x320 glass, centred in the controller's 240-wide frame memory.
pub const DISPLAY_WIDTH: u16 = 172;
pub const DISPLAY_HEIGHT: u16 = 320;
pub const DISPLAY_OFFSET: u16 = 34;
/// How long each colour stays up, in milliseconds.
pub const COLOUR_HOLD_MS: u64 = 1200;

/// RGB565 red.
pub const RED: u16 = 0xF800;
/// RGB565 green.
pub const GREEN: u16 = 0x07E0;
/// RGB565 blue.
pub const BLUE: u16 = 0x001F;
/// RGB565 white.
pub const WHITE: u16 = 0xFFFF;

/// The name and RGB565 value of the `n`-th fill: red, green, blue, white, and
/// round again.
pub open spec fn probe_colour_spec(n: nat) -> (Seq<char>, u16) {
    let k = n % 4;
    if k == 0 { ("red"@, RED) } else if k == 1 { ("green"@, GREEN) } else if k == 2 { ("blue"@, BLUE) } else { (
        "white"@,
        WHITE,
    ) }
}

/// The `n`-th colour of the cycle.
pub fn probe_colour(n: usize) -> (c: (&'static str, u16))
    ensures
        c.0@ == probe_colour_spec(n as nat).0,
        c.1 == probe_colour_spec(n as nat).1,
{
    match n % 4 {
        0 => ("red", RED),
        1 => ("green", GREEN),
        2 => ("blue", BLUE),
        _ => ("white", WHITE),
    }
}

/// The cycle repeats every four fills and shows, in order, pure red
/// (`0xF800`), pure green (`0x07E0`), pure blue (`0x001F`) and white
/// (`0xFFFF`) in RGB565: four different colours, each named for what it is.
pub proof fn lemma_probe_cycle(n: nat)
    ensures
        probe_colour_spec(n + 4) == probe_colour_spec(n),
        probe_colour_spec(4 * (n / 4)) == ("red"@, 0xF800u16),
        probe_colour_spec(4 * (n / 4) + 1) == ("green"@, 0x07E0u16),
        probe_colour_spec(4 * (n / 4) + 2) == ("blue"@, 0x001Fu16),
        probe_colour_spec(4 * (n / 4) + 3) == ("white"@, 0xFFFFu16),
{
    assert((n + 4) % 4 == n % 4);
    assert((4 * (n / 4)) % 4 == 0) by (nonlinear_arith);
    assert((4 * (n / 4) + 1) % 4 == 1) by (nonlinear_arith);
    assert((4 * (n / 4) + 2) % 4 == 2) by (nonlinear_arith);
    assert((4 * (n / 4) + 3) % 4 == 3) by (nonlinear_arith);
}

} // verus!
