//! Wrapping a flash image in UF2 blocks, the container the RP2350 bootrom
//! accepts over USB mass storage: 512-byte blocks, each carrying 256 bytes of
//! payload, with the RP2350 Arm-Secure family ID.

use vstd::prelude::*;
use crate::elf_image::{flash_image, flash_image_spec, lemma_image_fits_flash, ElfError, FlashImage};

verus! {

pub const UF2_MAGIC_START0: u32 = 0x0A32_4655;
pub const UF2_MAGIC_START1: u32 = 0x9E5D_5157;
pub const UF2_MAGIC_END: u32 = 0x0AB1_6F30;
pub const UF2_FLAG_FAMILY_ID_PRESENT: u32 = 0x0000_2000;
/// UF2 family ID for the RP2350, Arm, Secure.
pub const UF2_FAMILY_RP2350_ARM_S: u32 = 0xE48B_FF59;
/// Payload bytes per block.
pub const UF2_PAYLOAD: usize = 256;
/// Bytes per block.
pub const UF2_BLOCK: usize = 512;
/// The marker of the RP2350 IMAGE_DEF item, which the bootrom looks for in the
/// first 4 KB of an image before it will boot it.
pub const RP2350_IMAGE_DEF_MARKER: u32 = 0xFFFF_DED3;
/// How far into the image the bootrom looks for the IMAGE_DEF marker.
pub const IMAGE_DEF_WINDOW: usize = 4096;

/// The four little-endian bytes of `w`.
pub open spec fn le_bytes(w: u32) -> Seq<u8> {
    seq![(w % 256) as u8, ((w / 256) % 256) as u8, ((w / 65536) % 256) as u8, (w / 16777216) as u8]
}

/// Number of blocks for `len` payload bytes.
pub open spec fn block_count(len: nat) -> nat {
    ((len + 255) / 256) as nat
}

/// Payload of block `n`: the `n`-th 256-byte chunk of `data` (the last may be
/// shorter).
pub open spec fn chunk(data: Seq<u8>, n: nat) -> Seq<u8> {
    let start: int = (n * 256) as int;
    let end: int = if start + 256 <= data.len() { start + 256 } else { data.len() as int };
    data.subrange(start as int, end)
}

/// The 32-byte header of block `n` of `num` for an image at `base`.
pub open spec fn block_header(base: u32, n: nat, num: nat) -> Seq<u8> {
    le_bytes(UF2_MAGIC_START0) + le_bytes(UF2_MAGIC_START1) + le_bytes(UF2_FLAG_FAMILY_ID_PRESENT)
        + le_bytes((base + n * 256) as u32) + le_bytes(UF2_PAYLOAD as u32) + le_bytes(n as u32)
        + le_bytes(num as u32) + le_bytes(UF2_FAMILY_RP2350_ARM_S)
}

/// Block `n`: header, payload, zero padding to 476 data bytes, end magic.
pub open spec fn block(base: u32, data: Seq<u8>, n: nat) -> Seq<u8> {
    let c = chunk(data, n);
    block_header(base, n, block_count(data.len())) + c + Seq::new((476 - c.len()) as nat, |i: int| 0u8)
        + le_bytes(UF2_MAGIC_END)
}

/// The first `k` blocks, in order.
pub open spec fn blocks(base: u32, data: Seq<u8>, k: nat) -> Seq<u8>
    decreases k,
{
    if k == 0 {
        seq![]
    } else {
        blocks(base, data, (k - 1) as nat) + block(base, data, (k - 1) as nat)
    }
}

/// The UF2 file for an image at `base` holding `data`.
pub open spec fn uf2_file(base: u32, data: Seq<u8>) -> Seq<u8> {
    blocks(base, data, block_count(data.len()))
}

/// Appends the little-endian bytes of `w`.
fn push_le32(out: &mut Vec<u8>, w: u32)
    ensures
        final(out)@ == old(out)@ + le_bytes(w),
{
    out.push((w & 0xff) as u8);
    out.push(((w >> 8) & 0xff) as u8);
    out.push(((w >> 16) & 0xff) as u8);
    out.push((w >> 24) as u8);
    proof {
        assert(w & 0xff == w % 256) by (bit_vector);
        assert((w >> 8) & 0xff == (w / 256) % 256) by (bit_vector);
        assert((w >> 16) & 0xff == (w / 65536) % 256) by (bit_vector);
        assert(w >> 24 == w / 16777216) by (bit_vector);
        assert(final(out)@ =~= old(out)@ + le_bytes(w));
    }
}

/// Appends `data[start..end]`.
fn push_range(out: &mut Vec<u8>, data: &Vec<u8>, start: usize, end: usize)
    requires
        start <= end <= data@.len(),
    ensures
        final(out)@ == old(out)@ + data@.subrange(start as int, end as int),
{
    let mut i = start;
    while i < end
        invariant
            start <= i <= end,
            end <= data@.len(),
            out@ == old(out)@ + data@.subrange(start as int, i as int),
        decreases end - i,
    {
        out.push(data[i]);
        proof {
            assert(data@.subrange(start as int, i + 1) =~= data@.subrange(start as int, i as int).push(
                data@[i as int],
            ));
        }
        i = i + 1;
    }
}

/// Appends `count` zero bytes.
fn push_zeros(out: &mut Vec<u8>, count: usize)
    ensures
        final(out)@ == old(out)@ + Seq::new(count as nat, |i: int| 0u8),
{
    let mut i: usize = 0;
    while i < count
        invariant
            i <= count,
            out@ == old(out)@ + Seq::new(i as nat, |k: int| 0u8),
        decreases count - i,
    {
        out.push(0u8);
        proof {
            assert(Seq::new((i + 1) as nat, |k: int| 0u8) =~= Seq::new(i as nat, |k: int| 0u8).push(0u8));
        }
        i = i + 1;
    }
}

/// Appends block `n` of `num` for `image`.
fn push_block(out: &mut Vec<u8>, image: &FlashImage, n: usize, num: usize)
    requires
        num == block_count(image.data@.len()),
        n < num,
        num <= u32::MAX,
        image.base + n * 256 <= u32::MAX,
        n * 256 < image.data@.len(),
    ensures
        final(out)@ == old(out)@ + block(image.base, image.data@, n as nat),
{
    let len = image.data.len();
    let start = n * UF2_PAYLOAD;
    let end = if len - start >= UF2_PAYLOAD { start + UF2_PAYLOAD } else { len };
    let addr = image.base + (n * UF2_PAYLOAD) as u32;
    let ghost before = out@;
    push_le32(out, UF2_MAGIC_START0);
    push_le32(out, UF2_MAGIC_START1);
    push_le32(out, UF2_FLAG_FAMILY_ID_PRESENT);
    push_le32(out, addr);
    push_le32(out, UF2_PAYLOAD as u32);
    push_le32(out, n as u32);
    push_le32(out, num as u32);
    push_le32(out, UF2_FAMILY_RP2350_ARM_S);
    let ghost with_header = out@;
    push_range(out, &image.data, start, end);
    push_zeros(out, 476 - (end - start));
    push_le32(out, UF2_MAGIC_END);
    proof {
        let c = chunk(image.data@, n as nat);
        assert(c =~= image.data@.subrange(start as int, end as int));
        assert(with_header =~= before + block_header(image.base, n as nat, num as nat));
        assert(out@ =~= before + block(image.base, image.data@, n as nat));
    }
}

/// Wraps a flash image in UF2 blocks: 512 bytes each, 256 of payload, the
/// block's target address, number and the block count in every header.
pub fn to_uf2(image: &FlashImage) -> (out: Vec<u8>)
    requires
        image.data@.len() <= u32::MAX,
        image.data@.len() == 0 || image.base + 256 * ((image.data@.len() - 1) as int / 256)
            <= u32::MAX,
    ensures
        out@ == uf2_file(image.base, image.data@),
{
    let len = image.data.len();
    let num_blocks: usize = len / UF2_PAYLOAD + if len % UF2_PAYLOAD == 0 { 0 } else { 1 };
    assert(num_blocks == block_count(len as nat));
    let mut out: Vec<u8> = Vec::new();
    let mut n: usize = 0;
    while n < num_blocks
        invariant
            n <= num_blocks,
            len == image.data@.len(),
            len <= u32::MAX,
            num_blocks == block_count(len as nat),
            len == 0 || image.base + 256 * ((len - 1) as int / 256) <= u32::MAX,
            out@ == blocks(image.base, image.data@, n as nat),
        decreases num_blocks - n,
    {
        proof {
            assert(n <= (len - 1) as int / 256 && n * 256 < len) by (nonlinear_arith)
                requires
                    n < num_blocks,
                    num_blocks == ((len + 255) / 256) as nat,
                    len >= 1,
            ;
            assert(num_blocks <= len);
        }
        push_block(&mut out, image, n, num_blocks);
        n = n + 1;
    }
    out
}

/// The four-byte window at `i` holds the IMAGE_DEF marker.
pub open spec fn marker_at(data: Seq<u8>, i: int) -> bool {
    data.subrange(i, i + 4) == le_bytes(RP2350_IMAGE_DEF_MARKER)
}

/// The IMAGE_DEF marker occurs within the first 4 KB of `data`.
pub open spec fn has_image_def_spec(data: Seq<u8>) -> bool {
    let limit = if data.len() < IMAGE_DEF_WINDOW { data.len() as int } else { IMAGE_DEF_WINDOW as int };
    exists|i: int| 0 <= i && i + 4 <= limit && #[trigger] marker_at(data, i)
}

/// Whether the RP2350 IMAGE_DEF marker lies within the first 4 KB of the
/// image, as the bootrom requires.
pub fn has_image_def(data: &[u8]) -> (r: bool)
    ensures
        r == has_image_def_spec(data@),
{
    let limit = if data.len() < IMAGE_DEF_WINDOW { data.len() } else { IMAGE_DEF_WINDOW };
    let ghost want = le_bytes(RP2350_IMAGE_DEF_MARKER);
    let mut i: usize = 0;
    while i + 4 <= limit
        invariant
            i <= limit,
            limit <= data@.len(),
            limit == (if data@.len() < IMAGE_DEF_WINDOW { data@.len() as int } else { IMAGE_DEF_WINDOW as int }),
            want == le_bytes(RP2350_IMAGE_DEF_MARKER),
            want =~= seq![0xD3u8, 0xDEu8, 0xFFu8, 0xFFu8],
            forall|k: int| 0 <= k < i && k + 4 <= limit ==> !#[trigger] marker_at(data@, k),
        decreases limit - i,
    {
        if data[i] == 0xD3 && data[i + 1] == 0xDE && data[i + 2] == 0xFF && data[i + 3] == 0xFF {
            assert(marker_at(data@, i as int)) by {
                assert(data@.subrange(i as int, i + 4) =~= want);
            }
            return true;
        }
        assert(!marker_at(data@, i as int)) by {
            if data@.subrange(i as int, i + 4) == want {
                assert(data@.subrange(i as int, i + 4)[0] == data@[i as int]);
                assert(data@.subrange(i as int, i + 4)[1] == data@[i + 1]);
                assert(data@.subrange(i as int, i + 4)[2] == data@[i + 2]);
                assert(data@.subrange(i as int, i + 4)[3] == data@[i + 3]);
            }
        }
        i = i + 1;
    }
    false
}

/// Every block is 512 bytes long.
pub proof fn lemma_block_len(base: u32, data: Seq<u8>, n: nat)
    requires
        n < block_count(data.len()),
    ensures
        block(base, data, n).len() == 512,
        chunk(data, n).len() <= 256,
        chunk(data, n).len() > 0,
{
    assert(n * 256 < data.len()) by (nonlinear_arith)
        requires
            n < (data.len() + 255) / 256,
    ;
}

/// A UF2 file of `k` blocks is `512 * k` bytes, and block `n` lies at byte
/// `512 * n`: the bootrom can read each block on its own.
pub proof fn lemma_blocks_layout(base: u32, data: Seq<u8>, k: nat)
    requires
        k <= block_count(data.len()),
    ensures
        blocks(base, data, k).len() == 512 * k,
        forall|n: nat| n < k ==> blocks(base, data, k).subrange(512 * n as int, 512 * n as int + 512)
            == #[trigger] block(base, data, n),
    decreases k,
{
    if k > 0 {
        let k1 = (k - 1) as nat;
        lemma_blocks_layout(base, data, k1);
        lemma_block_len(base, data, k1);
        let prev = blocks(base, data, k1);
        let all = blocks(base, data, k);
        assert forall|n: nat| n < k implies all.subrange(512 * n as int, 512 * n as int + 512)
            == #[trigger] block(base, data, n) by {
            if n < k1 {
                assert(all.subrange(512 * n as int, 512 * n as int + 512) =~= prev.subrange(512 * n as int, 512 * n as int + 512));
            } else {
                assert(all.subrange(512 * n as int, 512 * n as int + 512) =~= block(base, data, n));
            }
        }
    }
}

/// Where the payload and the target address lie within block `n`.
proof fn lemma_block_fields(base: u32, data: Seq<u8>, n: nat, j: int)
    requires
        n < block_count(data.len()),
        0 <= j < chunk(data, n).len(),
    ensures
        block(base, data, n)[32 + j] == chunk(data, n)[j],
        block(base, data, n).subrange(12, 16) == le_bytes((base + n * 256) as u32),
{
    let h = block_header(base, n, block_count(data.len()));
    let c = chunk(data, n);
    let b = block(base, data, n);
    assert(h.len() == 32);
    assert(b[32 + j] == c[j]);
    assert(h.subrange(12, 16) =~= le_bytes((base + n * 256) as u32));
    assert(b.subrange(12, 16) =~= h.subrange(12, 16));
}

/// Block `n` of the file, as a slice of it.
proof fn lemma_file_block(base: u32, data: Seq<u8>, n: nat)
    requires
        n < block_count(data.len()),
    ensures
        uf2_file(base, data).len() == 512 * block_count(data.len()),
        uf2_file(base, data).subrange(512 * n as int, 512 * n as int + 512) == block(base, data, n),
{
    lemma_blocks_layout(base, data, block_count(data.len()));
}

/// Every image byte reaches the flash address it belongs at: byte `off` of
/// the image is payload byte `off % 256` of block `off / 256`, whose header
/// names the target address `base + 256 * (off / 256)`.
#[verifier::rlimit(60)]
pub proof fn lemma_uf2_places_every_byte(base: u32, data: Seq<u8>, off: int)
    requires
        0 <= off < data.len(),
    ensures
        ({
            let file = uf2_file(base, data);
            let n = off / 256;
            &&& file[512 * n + 32 + off % 256] == data[off]
            &&& file.subrange(512 * n + 12, 512 * n + 16) == le_bytes((base + 256 * n) as u32)
        }),
{
    let n = off / 256;
    let j = off % 256;
    let k = block_count(data.len());
    assert(0 <= n < k && n * 256 + j == off && 0 <= j < 256) by (nonlinear_arith)
        requires
            0 <= off < data.len(),
            n == off / 256,
            j == off % 256,
            k == (data.len() + 255) / 256,
    ;
    let c = chunk(data, n as nat);
    assert(j < c.len());
    assert(c[j] == data[off]);
    lemma_block_fields(base, data, n as nat, j);
    lemma_file_block(base, data, n as nat);
    let file = uf2_file(base, data);
    let start = 512 * n;
    assert(start + 512 <= 512 * k) by (nonlinear_arith)
        requires
            start == 512 * n,
            n < k,
    ;
    let b = file.subrange(start, start + 512);
    assert(file[start + 32 + j] == b[32 + j]);
    assert(file.subrange(start + 12, start + 16) =~= b.subrange(12, 16));
}

/// The header fields and payload of block `n` when the image is a whole
/// number of blocks: target address, payload size 256, block number, block
/// count, and the image's `n`-th 256 bytes.
proof fn lemma_full_block_fields(base: u32, data: Seq<u8>, n: nat)
    requires
        data.len() % 256 == 0,
        n < data.len() / 256,
    ensures
        ({
            let b = block(base, data, n);
            &&& b.subrange(12, 16) == le_bytes((base + 256 * n) as u32)
            &&& b.subrange(16, 20) == le_bytes(256)
            &&& b.subrange(20, 24) == le_bytes(n as u32)
            &&& b.subrange(24, 28) == le_bytes((data.len() / 256) as u32)
            &&& b.subrange(32, 288) == data.subrange(256 * n as int, 256 * n as int + 256)
            &&& b.subrange(0, 4) == le_bytes(UF2_MAGIC_START0)
            &&& b.subrange(508, 512) == le_bytes(UF2_MAGIC_END)
            &&& b.len() == 512
        }),
{
    let k = block_count(data.len());
    assert(k == data.len() / 256 && 256 * n + 256 <= data.len()) by (nonlinear_arith)
        requires
            data.len() % 256 == 0,
            n < data.len() / 256,
            k == (data.len() + 255) / 256,
    ;
    let h = block_header(base, n, k);
    let c = chunk(data, n);
    let b = block(base, data, n);
    assert(c == data.subrange(256 * n as int, 256 * n as int + 256));
    assert(h.len() == 32);
    assert(h.subrange(12, 16) =~= le_bytes((base + n * 256) as u32));
    assert(h.subrange(16, 20) =~= le_bytes(256));
    assert(h.subrange(20, 24) =~= le_bytes(n as u32));
    assert(h.subrange(24, 28) =~= le_bytes(k as u32));
    assert(b.subrange(12, 16) =~= h.subrange(12, 16));
    assert(b.subrange(16, 20) =~= h.subrange(16, 20));
    assert(b.subrange(20, 24) =~= h.subrange(20, 24));
    assert(b.subrange(24, 28) =~= h.subrange(24, 28));
    assert(b.subrange(32, 288) =~= c);
    assert(h.subrange(0, 4) =~= le_bytes(UF2_MAGIC_START0));
    assert(b.subrange(0, 4) =~= h.subrange(0, 4));
    assert(b.subrange(508, 512) =~= le_bytes(UF2_MAGIC_END));
}

/// The decoded fields of block `n` of a whole-block image's file.
pub open spec fn decodes_block(file: Seq<u8>, base: u32, data: Seq<u8>, n: nat) -> bool {
    let b = file.subrange(512 * n as int, 512 * n as int + 512);
    &&& b.subrange(0, 4) == le_bytes(UF2_MAGIC_START0)
    &&& b.subrange(12, 16) == le_bytes((base + 256 * n) as u32)
    &&& b.subrange(16, 20) == le_bytes(256)
    &&& b.subrange(20, 24) == le_bytes(n as u32)
    &&& b.subrange(24, 28) == le_bytes((data.len() / 256) as u32)
    &&& b.subrange(32, 288) == data.subrange(256 * n as int, 256 * n as int + 256)
    &&& b.subrange(508, 512) == le_bytes(UF2_MAGIC_END)
}

/// One block of a whole-block image's file decodes as it should.
proof fn lemma_decoded_block(base: u32, data: Seq<u8>, n: nat)
    requires
        data.len() % 256 == 0,
        n < data.len() / 256,
    ensures
        decodes_block(uf2_file(base, data), base, data, n),
{
    let k = block_count(data.len());
    assert(k == data.len() / 256) by (nonlinear_arith)
        requires
            data.len() % 256 == 0,
            k == (data.len() + 255) / 256,
    ;
    lemma_file_block(base, data, n);
    lemma_full_block_fields(base, data, n);
}

/// Decoding the UF2 file of a whole-block image writes exactly the image: the
/// file is `N = len / 256` blocks of 512 bytes; block `n` says it carries 256
/// bytes for address `base + 256 * n`, is number `n` of `N`, and carries the
/// image's bytes `256 * n ..`. The blocks' ranges thus tile
/// `[base, base + len)` with no gap or repeat.
pub proof fn lemma_uf2_decodes_to_image(base: u32, data: Seq<u8>)
    requires
        data.len() % 256 == 0,
    ensures
        uf2_file(base, data).len() == 512 * (data.len() / 256),
        forall|n: nat| n < data.len() / 256 ==> #[trigger] decodes_block(uf2_file(base, data), base, data, n),
{
    let k = block_count(data.len());
    assert(k == data.len() / 256) by (nonlinear_arith)
        requires
            data.len() % 256 == 0,
            k == (data.len() + 255) / 256,
    ;
    if k > 0 {
        lemma_file_block(base, data, 0);
    } else {
        lemma_blocks_layout(base, data, 0);
    }
    assert forall|n: nat| n < data.len() / 256 implies #[trigger] decodes_block(uf2_file(base, data), base, data, n) by {
        lemma_decoded_block(base, data, n);
    }
}

/// Why no UF2 file was built.
#[derive(Debug, PartialEq, Eq, Structural)]
pub enum Uf2BuildError {
    /// The ELF file gives no flash image.
    Elf(ElfError),
    /// The image lacks the RP2350 IMAGE_DEF marker in its first 4 KB, so the
    /// bootrom would not boot it.
    NoImageDef,
}

/// A flash image and the UF2 file that carries it.
pub struct Uf2Build {
    pub image: FlashImage,
    pub uf2: Vec<u8>,
}

/// From an ELF file to a UF2 file: the flash image, refused without the
/// IMAGE_DEF marker, wrapped in UF2 blocks.
pub fn build_uf2(elf: &[u8]) -> (r: Result<Uf2Build, Uf2BuildError>)
    ensures
        match flash_image_spec(elf@) {
            Err(e) => r == Err::<Uf2Build, Uf2BuildError>(Uf2BuildError::Elf(e)),
            Ok((b, d)) => if has_image_def_spec(d) {
                r is Ok && r->Ok_0.image.base == b && r->Ok_0.image.data@ == d && r->Ok_0.uf2@ == uf2_file(
                    b as u32,
                    d,
                )
            } else {
                r == Err::<Uf2Build, Uf2BuildError>(Uf2BuildError::NoImageDef)
            },
        },
{
    let image = match flash_image(elf) {
        Ok(image) => image,
        Err(e) => return Err(Uf2BuildError::Elf(e)),
    };
    if !has_image_def(image.data.as_slice()) {
        return Err(Uf2BuildError::NoImageDef);
    }
    proof {
        lemma_image_fits_flash(elf@);
        let len = image.data@.len();
        assert(256 * ((len - 1) as int / 256) <= len - 1) by (nonlinear_arith)
            requires
                len >= 1,
        ;
    }
    let uf2 = to_uf2(&image);
    Ok(Uf2Build { image, uf2 })
}

/// The header's fields, four bytes each, in order.
proof fn lemma_header_fields(base: u32, n: nat, num: nat)
    ensures
        ({
            let h = block_header(base, n, num);
            &&& h.len() == 32
            &&& h.subrange(0, 4) == le_bytes(UF2_MAGIC_START0)
            &&& h.subrange(4, 8) == le_bytes(UF2_MAGIC_START1)
            &&& h.subrange(8, 12) == le_bytes(UF2_FLAG_FAMILY_ID_PRESENT)
            &&& h.subrange(16, 20) == le_bytes(UF2_PAYLOAD as u32)
            &&& h.subrange(20, 24) == le_bytes(n as u32)
            &&& h.subrange(24, 28) == le_bytes(num as u32)
            &&& h.subrange(28, 32) == le_bytes(UF2_FAMILY_RP2350_ARM_S)
        }),
{
    let h = block_header(base, n, num);
    assert(h.subrange(0, 4) =~= le_bytes(UF2_MAGIC_START0));
    assert(h.subrange(4, 8) =~= le_bytes(UF2_MAGIC_START1));
    assert(h.subrange(8, 12) =~= le_bytes(UF2_FLAG_FAMILY_ID_PRESENT));
    assert(h.subrange(16, 20) =~= le_bytes(UF2_PAYLOAD as u32));
    assert(h.subrange(20, 24) =~= le_bytes(n as u32));
    assert(h.subrange(24, 28) =~= le_bytes(num as u32));
    assert(h.subrange(28, 32) =~= le_bytes(UF2_FAMILY_RP2350_ARM_S));
}

/// The bytes of block `n`, field by field.
proof fn lemma_block_bytes(base: u32, data: Seq<u8>, n: nat)
    requires
        n < block_count(data.len()),
    ensures
        ({
            let b = block(base, data, n);
            let c = chunk(data, n);
            &&& b.len() == 512
            &&& b.subrange(0, 4) == le_bytes(UF2_MAGIC_START0)
            &&& b.subrange(4, 8) == le_bytes(UF2_MAGIC_START1)
            &&& b.subrange(8, 12) == le_bytes(UF2_FLAG_FAMILY_ID_PRESENT)
            &&& b.subrange(16, 20) == le_bytes(UF2_PAYLOAD as u32)
            &&& b.subrange(20, 24) == le_bytes(n as u32)
            &&& b.subrange(24, 28) == le_bytes(block_count(data.len()) as u32)
            &&& b.subrange(28, 32) == le_bytes(UF2_FAMILY_RP2350_ARM_S)
            &&& b.subrange(32, 32 + c.len() as int) == c
            &&& forall|i: int| 32 + c.len() <= i < 508 ==> b[i] == 0
            &&& b.subrange(508, 512) == le_bytes(UF2_MAGIC_END)
        }),
{
    lemma_block_len(base, data, n);
    let num = block_count(data.len());
    lemma_header_fields(base, n, num);
    let b = block(base, data, n);
    let h = block_header(base, n, num);
    let c = chunk(data, n);
    assert forall|i: int| 0 <= i < 32 implies b[i] == h[i] by {}
    assert(b.subrange(0, 4) =~= h.subrange(0, 4));
    assert(b.subrange(4, 8) =~= h.subrange(4, 8));
    assert(b.subrange(8, 12) =~= h.subrange(8, 12));
    assert(b.subrange(16, 20) =~= h.subrange(16, 20));
    assert(b.subrange(20, 24) =~= h.subrange(20, 24));
    assert(b.subrange(24, 28) =~= h.subrange(24, 28));
    assert(b.subrange(28, 32) =~= h.subrange(28, 32));
    assert(b.subrange(32, 32 + c.len() as int) =~= c);
    assert(b.subrange(508, 512) =~= le_bytes(UF2_MAGIC_END));
}

/// Every block of the file is framed as the UF2 format and the RP2350
/// bootrom require, byte for byte: first magic `55 46 32 0A`, second magic
/// `57 51 5D 9E`, flags `00 20 00 00` (family ID present), payload size 256
/// (`00 01 00 00`), block number `n`, block count, family ID `59 FF 8B E4`
/// (RP2350 Arm Secure), the payload from byte 32 on, zeros after it up to
/// byte 508, and final magic `30 6F B1 0A`.
pub proof fn lemma_uf2_block_framing(base: u32, data: Seq<u8>, n: nat)
    requires
        n < block_count(data.len()),
    ensures
        ({
            let b = uf2_file(base, data).subrange(512 * n as int, 512 * n as int + 512);
            let c = chunk(data, n);
            &&& b.subrange(0, 4) == seq![0x55u8, 0x46, 0x32, 0x0A]
            &&& b.subrange(4, 8) == seq![0x57u8, 0x51, 0x5D, 0x9E]
            &&& b.subrange(8, 12) == seq![0x00u8, 0x20, 0x00, 0x00]
            &&& b.subrange(16, 20) == seq![0x00u8, 0x01, 0x00, 0x00]
            &&& b.subrange(20, 24) == le_bytes(n as u32)
            &&& b.subrange(24, 28) == le_bytes(block_count(data.len()) as u32)
            &&& b.subrange(28, 32) == seq![0x59u8, 0xFF, 0x8B, 0xE4]
            &&& b.subrange(32, 32 + c.len() as int) == c
            &&& forall|i: int| 32 + c.len() <= i < 508 ==> b[i] == 0
            &&& b.subrange(508, 512) == seq![0x30u8, 0x6F, 0xB1, 0x0A]
        }),
{
    lemma_file_block(base, data, n);
    lemma_block_bytes(base, data, n);
    lemma_framing_bytes();
}

/// The framing constants' little-endian bytes.
proof fn lemma_framing_bytes()
    ensures
        le_bytes(UF2_MAGIC_START0) == seq![0x55u8, 0x46, 0x32, 0x0A],
        le_bytes(UF2_MAGIC_START1) == seq![0x57u8, 0x51, 0x5D, 0x9E],
        le_bytes(UF2_FLAG_FAMILY_ID_PRESENT) == seq![0x00u8, 0x20, 0x00, 0x00],
        le_bytes(UF2_PAYLOAD as u32) == seq![0x00u8, 0x01, 0x00, 0x00],
        le_bytes(UF2_FAMILY_RP2350_ARM_S) == seq![0x59u8, 0xFF, 0x8B, 0xE4],
        le_bytes(UF2_MAGIC_END) == seq![0x30u8, 0x6F, 0xB1, 0x0A],
{
    assert(le_bytes(UF2_MAGIC_START0) =~= seq![0x55u8, 0x46, 0x32, 0x0A]);
    assert(le_bytes(UF2_MAGIC_START1) =~= seq![0x57u8, 0x51, 0x5D, 0x9E]);
    assert(le_bytes(UF2_FLAG_FAMILY_ID_PRESENT) =~= seq![0x00u8, 0x20, 0x00, 0x00]);
    assert(le_bytes(UF2_PAYLOAD as u32) =~= seq![0x00u8, 0x01, 0x00, 0x00]);
    assert(le_bytes(UF2_FAMILY_RP2350_ARM_S) =~= seq![0x59u8, 0xFF, 0x8B, 0xE4]);
    assert(le_bytes(UF2_MAGIC_END) =~= seq![0x30u8, 0x6F, 0xB1, 0x0A]);
}

/// The IMAGE_DEF check looks for the bytes `D3 DE FF FF` (the marker
/// `0xFFFFDED3`, little-endian) starting anywhere in the first 4096 bytes of
/// the image, the whole four bytes within them.
pub proof fn lemma_image_def_bytes(data: Seq<u8>)
    ensures
        has_image_def_spec(data) <==> exists|i: int|
            0 <= i && i + 4 <= data.len() && i + 4 <= 4096 && #[trigger] data[i] == 0xD3 && data[i + 1] == 0xDE
                && data[i + 2] == 0xFF && data[i + 3] == 0xFF,
{
    let want = le_bytes(RP2350_IMAGE_DEF_MARKER);
    assert(want =~= seq![0xD3u8, 0xDEu8, 0xFFu8, 0xFFu8]);
    if has_image_def_spec(data) {
        let limit = if data.len() < IMAGE_DEF_WINDOW { data.len() as int } else { IMAGE_DEF_WINDOW as int };
        let i = choose|i: int| 0 <= i && i + 4 <= limit && #[trigger] marker_at(data, i);
        assert(data.subrange(i, i + 4)[0] == data[i]);
        assert(data.subrange(i, i + 4)[1] == data[i + 1]);
        assert(data.subrange(i, i + 4)[2] == data[i + 2]);
        assert(data.subrange(i, i + 4)[3] == data[i + 3]);
    }
    if exists|i: int|
        0 <= i && i + 4 <= data.len() && i + 4 <= 4096 && #[trigger] data[i] == 0xD3 && data[i + 1] == 0xDE
            && data[i + 2] == 0xFF && data[i + 3] == 0xFF {
        let i = choose|i: int|
            0 <= i && i + 4 <= data.len() && i + 4 <= 4096 && #[trigger] data[i] == 0xD3 && data[i + 1] == 0xDE
                && data[i + 2] == 0xFF && data[i + 3] == 0xFF;
        assert(data.subrange(i, i + 4) =~= want);
        assert(marker_at(data, i));
    }
}

} // verus!
