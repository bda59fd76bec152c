//! Bare-metal ST7789 panel test: the full register set every mainstream
//! ST7789 driver sends, with datasheet-generous delays, then a fill of the
//! controller's entire 240x320 frame memory, ignoring display size, offset and
//! rotation so no geometry mistake can hide the result.

use vstd::prelude::*;

verus! {

/// Run the test at boot; off once the panel works.
pub const ENABLED: bool = false;
/// Width of the controller's frame memory, in pixels.
pub const RAM_W: u16 = 240;
/// Height of the controller's frame memory, in pixels.
pub const RAM_H: u16 = 320;

pub const SWRESET: u8 = 0x01;
pub const SLPOUT: u8 = 0x11;
pub const INVON: u8 = 0x21;
pub const DISPON: u8 = 0x29;
pub const CASET: u8 = 0x2A;
pub const RASET: u8 = 0x2B;
pub const RAMWR: u8 = 0x2C;
pub const MADCTL: u8 = 0x36;
pub const COLMOD: u8 = 0x3A;

/// Number of commands before the pixel fill.
pub const INIT_COMMANDS: usize = 20;

/// One command: its byte (sent with DC low), its parameters (sent with DC
/// high, only if there are any), and how long to wait after it.
pub struct PanelCommand {
    pub cmd: u8,
    pub params: Vec<u8>,
    pub delay_ms: u64,
}

/// Column/row address window parameters from 0 to `last`: start 0, then
/// `last` big-endian.
pub open spec fn window(last: u16) -> Seq<u8> {
    seq![0u8, 0u8, (last / 256) as u8, (last % 256) as u8]
}

/// Command `i` of the test sequence: byte, parameters, delay after.
pub open spec fn init_command(i: int) -> (u8, Seq<u8>, u64) {
    if i == 0 { (SWRESET, seq![], 150) }
    else if i == 1 { (SLPOUT, seq![], 255) }
    else if i == 2 { (COLMOD, seq![0x55u8], 10) }
    else if i == 3 { (MADCTL, seq![0x00u8], 0) }
    else if i == 4 { (0xB2, seq![0x0Cu8, 0x0C, 0x00, 0x33, 0x33], 0) }
    else if i == 5 { (0xB7, seq![0x35u8], 0) }
    else if i == 6 { (0xBB, seq![0x19u8], 0) }
    else if i == 7 { (0xC0, seq![0x2Cu8], 0) }
    else if i == 8 { (0xC2, seq![0x01u8], 0) }
    else if i == 9 { (0xC3, seq![0x12u8], 0) }
    else if i == 10 { (0xC4, seq![0x20u8], 0) }
    else if i == 11 { (0xC6, seq![0x0Fu8], 0) }
    else if i == 12 { (0xD0, seq![0xA4u8, 0xA1], 0) }
    else if i == 13 {
        (0xE0, seq![0xD0u8, 0x04, 0x0D, 0x11, 0x13, 0x2B, 0x3F, 0x54, 0x4C, 0x18, 0x0D, 0x0B, 0x1F, 0x23], 0)
    } else if i == 14 {
        (0xE1, seq![0xD0u8, 0x04, 0x0C, 0x11, 0x13, 0x2C, 0x3F, 0x44, 0x51, 0x2F, 0x1F, 0x1F, 0x20, 0x23], 0)
    } else if i == 15 { (INVON, seq![], 10) }
    else if i == 16 { (DISPON, seq![], 120) }
    else if i == 17 { (CASET, window((RAM_W - 1) as u16), 0) }
    else if i == 18 { (RASET, window((RAM_H - 1) as u16), 0) }
    else { (RAMWR, seq![], 0) }
}

/// The address window parameters from 0 to `last`.
pub fn address_window(last: u16) -> (p: Vec<u8>)
    ensures
        p@ == window(last),
{
    let v = vec![0u8, 0u8, (last >> 8) as u8, (last & 0xFF) as u8];
    proof {
        assert(last >> 8 == last / 256) by (bit_vector);
        assert(last & 0xFF == last % 256) by (bit_vector);
        assert(v@ =~= window(last));
    }
    v
}

/// A command with its parameters and the wait after it.
fn command(cmd: u8, params: Vec<u8>, delay_ms: u64) -> (c: PanelCommand)
    ensures
        c.cmd == cmd,
        c.params@ == params@,
        c.delay_ms == delay_ms,
{
    PanelCommand { cmd, params, delay_ms }
}

/// The commands of the test up to and including `RAMWR`: reset and wake,
/// pixel format and orientation, the registers a minimal driver leaves at
/// their defaults, inversion and display on, then the full address window.
pub fn init_sequence() -> (cmds: Vec<PanelCommand>)
    ensures
        cmds@.len() == 20,
        forall|i: int| 0 <= i < 20 ==> (#[trigger] cmds@[i]).cmd == init_command(i).0
            && cmds@[i].params@ == init_command(i).1 && cmds@[i].delay_ms == init_command(i).2,
{
    let mut c: Vec<PanelCommand> = Vec::new();
    c.push(command(SWRESET, vec![], 150));
    c.push(command(SLPOUT, vec![], 255));
    c.push(command(COLMOD, vec![0x55], 10));
    c.push(command(MADCTL, vec![0x00], 0));
    c.push(command(0xB2, vec![0x0C, 0x0C, 0x00, 0x33, 0x33], 0));
    c.push(command(0xB7, vec![0x35], 0));
    c.push(command(0xBB, vec![0x19], 0));
    c.push(command(0xC0, vec![0x2C], 0));
    c.push(command(0xC2, vec![0x01], 0));
    c.push(command(0xC3, vec![0x12], 0));
    c.push(command(0xC4, vec![0x20], 0));
    c.push(command(0xC6, vec![0x0F], 0));
    c.push(command(0xD0, vec![0xA4, 0xA1], 0));
    c.push(command(0xE0, vec![0xD0, 0x04, 0x0D, 0x11, 0x13, 0x2B, 0x3F, 0x54, 0x4C, 0x18, 0x0D, 0x0B, 0x1F, 0x23], 0));
    c.push(command(0xE1, vec![0xD0, 0x04, 0x0C, 0x11, 0x13, 0x2C, 0x3F, 0x44, 0x51, 0x2F, 0x1F, 0x1F, 0x20, 0x23], 0));
    c.push(command(INVON, vec![], 10));
    c.push(command(DISPON, vec![], 120));
    c.push(command(CASET, address_window(RAM_W - 1), 0));
    c.push(command(RASET, address_window(RAM_H - 1), 0));
    c.push(command(RAMWR, vec![], 0));
    proof {
        assert forall|i: int| 0 <= i < 20 implies (#[trigger] c@[i]).cmd == init_command(i).0
            && c@[i].params@ == init_command(i).1 && c@[i].delay_ms == init_command(i).2 by {
            assert(c@[i].params@ =~= init_command(i).1);
        }
    }
    c
}

/// One row of the fill: `RAM_W` pixels of `colour`, each RGB565 value
/// big-endian.
pub open spec fn fill_row_spec(colour: u16) -> Seq<u8> {
    Seq::new(2 * RAM_W as nat, |i: int| if i % 2 == 0 { (colour / 256) as u8 } else { (colour % 256) as u8 })
}

/// One row of pixels of `colour`; the fill writes it `RAM_H` times, which is
/// the whole frame memory.
pub fn fill_row(colour: u16) -> (row: Vec<u8>)
    ensures
        row@ == fill_row_spec(colour),
{
    let hi = (colour >> 8) as u8;
    let lo = (colour & 0xFF) as u8;
    proof {
        assert(colour >> 8 == colour / 256) by (bit_vector);
        assert(colour & 0xFF == colour % 256) by (bit_vector);
    }
    let mut row: Vec<u8> = Vec::new();
    let mut i: usize = 0;
    while i < RAM_W as usize
        invariant
            i <= RAM_W,
            hi == colour / 256,
            lo == colour % 256,
            row@ == fill_row_spec(colour).take(2 * i as int),
        decreases RAM_W - i,
    {
        row.push(hi);
        row.push(lo);
        proof {
            assert(row@ =~= fill_row_spec(colour).take(2 * (i + 1) as int));
        }
        i = i + 1;
    }
    proof {
        assert(row@ =~= fill_row_spec(colour));
    }
    row
}

/// What the test sequence promises the panel, whatever the registers in
/// between: it starts with a software reset given at least the datasheet's
/// 120 ms, then leaves sleep with at least 120 ms to wake; it sets 16-bit
/// colour (`COLMOD` 0x55); it switches the display on (`DISPON`, 0x29) right
/// before the address window and never switches it off (`DISPOFF`, 0x28)
/// nor back to sleep (`SLPIN`, 0x10); the window spans the whole 240x320
/// frame memory, columns 0 to 239 and rows 0 to 319; and the last command
/// starts the memory write.
pub proof fn lemma_panel_sequence_shows_the_fill()
    ensures
        init_command(0).0 == 0x01u8 && init_command(0).2 >= 120,
        init_command(1).0 == 0x11u8 && init_command(1).2 >= 120,
        exists|i: int| 1 < i < 16 && init_command(i).0 == 0x3Au8 && init_command(i).1 == seq![0x55u8],
        init_command(16).0 == 0x29u8,
        forall|i: int| 0 <= i < 20 ==> #[trigger] init_command(i).0 != 0x28u8 && init_command(i).0 != 0x10u8,
        init_command(17).0 == 0x2Au8 && init_command(17).1 == seq![0u8, 0u8, 0u8, 239u8],
        init_command(18).0 == 0x2Bu8 && init_command(18).1 == seq![0u8, 0u8, 1u8, 63u8],
        init_command(19).0 == 0x2Cu8,
{
    assert(init_command(2).0 == 0x3Au8 && init_command(2).1 == seq![0x55u8]);
    assert(init_command(17).1 =~= seq![0u8, 0u8, 0u8, 239u8]);
    assert(init_command(18).1 =~= seq![0u8, 0u8, 1u8, 63u8]);
}

} // verus!
