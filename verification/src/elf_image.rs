//! Collecting the flash-resident part of an ELF file into one image.
//!
//! Every `PT_LOAD` segment whose *load* (physical) address lies in the
//! RP2350's XIP flash window is placed at that address in one contiguous,
//! 256-byte-aligned image; gaps hold `0xFF`, the erased state. Where segments
//! overlap, the one with the higher load address wins, and among equal load
//! addresses the one listed later in the program header table.

use vstd::prelude::*;
use vstd::string::*;
use crate::numfmt::{hex_padded, push_hex_padded};

verus! {

/// Start of the XIP flash window.
pub const FLASH_BASE: u32 = 0x1000_0000;
/// End of the 2 MB flash on the W6300-EVB-Pico2.
pub const FLASH_END: u32 = 0x1020_0000;
/// Alignment of the image, one UF2 payload.
pub const IMAGE_ALIGN: u32 = 256;

/// Why an ELF file yields no flash image.
#[derive(Debug, PartialEq, Eq, Structural)]
pub enum ElfError {
    /// Shorter than an ELF header, or without the `\x7fELF` magic.
    NotElf,
    /// Not a 32-bit little-endian ELF.
    NotLittleEndian32,
    /// A program header reaches past the end of the file.
    TruncatedHeaders,
    /// A flash segment's file bytes reach past the end of the file.
    SegmentOutsideFile,
    /// No loadable segment lies in flash.
    NoSegments,
    /// The image, rounded up to 256 bytes, ends past flash; carries that end.
    PastFlashEnd(u64),
}

/// One flash-resident `PT_LOAD` segment: its load address and where its bytes
/// lie in the file.
#[derive(Clone, Copy)]
pub struct Segment {
    pub addr: u32,
    pub offset: usize,
    pub len: usize,
}

/// A flash image: `data` is to be written from address `base` on.
pub struct FlashImage {
    pub base: u32,
    pub data: Vec<u8>,
}

/// Little-endian 16-bit value at `o`.
pub open spec fn le16(s: Seq<u8>, o: int) -> int {
    s[o] + 256 * s[o + 1]
}

/// Little-endian 32-bit value at `o`.
pub open spec fn le32(s: Seq<u8>, o: int) -> int {
    s[o] + 256 * s[o + 1] + 65536 * s[o + 2] + 16777216 * s[o + 3]
}

/// File offset of the `n`-th program header.
pub open spec fn ph_offset(elf: Seq<u8>, n: int) -> int {
    le32(elf, 0x1c) + n * le16(elf, 0x2a)
}

/// The header at `ph` describes a non-empty `PT_LOAD` segment loaded into flash.
pub open spec fn is_flash_load(elf: Seq<u8>, ph: int) -> bool {
    &&& le32(elf, ph) == 1
    &&& le32(elf, ph + 16) != 0
    &&& FLASH_BASE <= le32(elf, ph + 12) < FLASH_END
}

/// The segment that the header at `ph` describes.
pub open spec fn segment_at(elf: Seq<u8>, ph: int) -> Segment {
    Segment {
        addr: le32(elf, ph + 12) as u32,
        offset: le32(elf, ph + 4) as usize,
        len: le32(elf, ph + 16) as usize,
    }
}

/// The flash segments of the first `k` program headers, in table order, or the
/// first error among them.
pub open spec fn scan(elf: Seq<u8>, k: nat) -> Result<Seq<Segment>, ElfError>
    decreases k,
{
    if k == 0 {
        Ok(seq![])
    } else {
        match scan(elf, (k - 1) as nat) {
            Err(e) => Err(e),
            Ok(segs) => {
                let ph = ph_offset(elf, k - 1);
                if ph + 32 > elf.len() {
                    Err(ElfError::TruncatedHeaders)
                } else if !is_flash_load(elf, ph) {
                    Ok(segs)
                } else if le32(elf, ph + 4) + le32(elf, ph + 16) > elf.len() {
                    Err(ElfError::SegmentOutsideFile)
                } else {
                    Ok(segs.push(segment_at(elf, ph)))
                }
            },
        }
    }
}

/// Segment `s` covers address `p`.
pub open spec fn covers(s: Segment, p: int) -> bool {
    s.addr <= p < s.addr + s.len
}

/// Among the first `k` segments, the one whose byte lands at address `p`: the
/// covering segment with the highest load address, the later one on a tie.
pub open spec fn winner(segs: Seq<Segment>, k: nat, p: int) -> Option<int>
    decreases k,
{
    if k == 0 {
        None
    } else {
        let w = winner(segs, (k - 1) as nat, p);
        let s = segs[k - 1];
        if covers(s, p) && (w is None || segs[w->0].addr <= s.addr) {
            Some(k - 1)
        } else {
            w
        }
    }
}

/// The image byte at address `p`.
pub open spec fn image_byte(elf: Seq<u8>, segs: Seq<Segment>, p: int) -> u8 {
    match winner(segs, segs.len(), p) {
        None => 0xFF,
        Some(j) => elf[segs[j].offset + (p - segs[j].addr)],
    }
}

/// Lowest load address among the first `k` segments.
pub open spec fn min_addr(segs: Seq<Segment>, k: nat) -> int
    decreases k,
{
    if k <= 1 {
        segs[0].addr as int
    } else {
        let m = min_addr(segs, (k - 1) as nat);
        if segs[k - 1].addr < m { segs[k - 1].addr as int } else { m }
    }
}

/// Highest end address among the first `k` segments.
pub open spec fn max_end(segs: Seq<Segment>, k: nat) -> int
    decreases k,
{
    if k <= 1 {
        segs[0].addr + segs[0].len
    } else {
        let m = max_end(segs, (k - 1) as nat);
        let e = segs[k - 1].addr + segs[k - 1].len;
        if e > m { e } else { m }
    }
}

/// `x` rounded up to a multiple of 256.
pub open spec fn round_up_256(x: int) -> int {
    if x % 256 == 0 { x } else { x - x % 256 + 256 }
}

/// What [`flash_image`] makes of `elf`: the base address and bytes of the
/// image, or why there is none.
pub open spec fn flash_image_spec(elf: Seq<u8>) -> Result<(int, Seq<u8>), ElfError> {
    if elf.len() < 0x34 || elf[0] != 0x7f || elf[1] != 0x45 || elf[2] != 0x4c || elf[3] != 0x46 {
        Err(ElfError::NotElf)
    } else if elf[4] != 1 || elf[5] != 1 {
        Err(ElfError::NotLittleEndian32)
    } else {
        match scan(elf, le16(elf, 0x2c) as nat) {
            Err(e) => Err(e),
            Ok(segs) => if segs.len() == 0 {
                Err(ElfError::NoSegments)
            } else {
                let lo = min_addr(segs, segs.len());
                let base = lo - lo % 256;
                let end = round_up_256(max_end(segs, segs.len()));
                if end > FLASH_END {
                    Err(ElfError::PastFlashEnd(end as u64))
                } else {
                    Ok((base, Seq::new((end - base) as nat, |i: int| image_byte(elf, segs, base + i))))
                }
            },
        }
    }
}

/// The 16-bit little-endian value at `o`.
fn u16_at(elf: &[u8], o: usize) -> (r: u16)
    requires
        o + 2 <= elf@.len(),
    ensures
        r == le16(elf@, o as int),
{
    elf[o] as u16 + (elf[o + 1] as u16) * 256
}

/// The 32-bit little-endian value at `o`.
fn u32_at(elf: &[u8], o: usize) -> (r: u32)
    requires
        o + 4 <= elf@.len(),
    ensures
        r == le32(elf@, o as int),
{
    elf[o] as u32 + (elf[o + 1] as u32) * 256 + (elf[o + 2] as u32) * 65536 + (elf[o + 3] as u32)
        * 16777216
}

/// Once the scan has failed it stays failed with the same error.
proof fn lemma_scan_error_sticks(elf: Seq<u8>, k: nat, m: nat)
    requires
        k <= m,
        scan(elf, k) is Err,
    ensures
        scan(elf, m) == scan(elf, k),
    decreases m - k,
{
    if k < m {
        lemma_scan_error_sticks(elf, k, (m - 1) as nat);
    }
}

/// Every scanned segment is non-empty, in flash, and within the file.
proof fn lemma_scan_segments_valid(elf: Seq<u8>, k: nat)
    requires
        scan(elf, k) is Ok,
    ensures
        forall|j: int| 0 <= j < scan(elf, k)->Ok_0.len() ==> {
            let s = #[trigger] scan(elf, k)->Ok_0[j];
            &&& s.len > 0
            &&& s.len <= u32::MAX
            &&& FLASH_BASE <= s.addr < FLASH_END
            &&& s.offset + s.len <= elf.len()
        },
    decreases k,
{
    if k > 0 {
        lemma_scan_segments_valid(elf, (k - 1) as nat);
    }
}

/// The flash segments named by the program header table.
fn collect_segments(elf: &[u8]) -> (r: Result<Vec<Segment>, ElfError>)
    requires
        elf@.len() >= 0x34,
    ensures
        match r {
            Ok(v) => scan(elf@, le16(elf@, 0x2c) as nat) == Ok::<Seq<Segment>, ElfError>(v@),
            Err(e) => scan(elf@, le16(elf@, 0x2c) as nat) == Err::<Seq<Segment>, ElfError>(e),
        },
{
    let phoff = u32_at(elf, 0x1c) as u64;
    let phentsize = u16_at(elf, 0x2a) as u64;
    let phnum = u16_at(elf, 0x2c);
    let len = elf.len() as u64;
    let mut segments: Vec<Segment> = Vec::new();
    let mut n: u16 = 0;
    while n < phnum
        invariant
            n <= phnum,
            phnum == le16(elf@, 0x2c),
            phoff == le32(elf@, 0x1c),
            phentsize == le16(elf@, 0x2a),
            len == elf@.len(),
            elf@.len() <= usize::MAX,
            scan(elf@, n as nat) == Ok::<Seq<Segment>, ElfError>(segments@),
        decreases phnum - n,
    {
        assert(n as u64 * phentsize <= 0xffff * 0xffff) by (nonlinear_arith)
            requires
                n <= 0xffff,
                phentsize <= 0xffff,
        ;
        let ph = phoff + n as u64 * phentsize;
        assert(ph == ph_offset(elf@, n as int));
        if ph + 32 > len {
            proof {
                lemma_scan_error_sticks(elf@, (n + 1) as nat, phnum as nat);
            }
            return Err(ElfError::TruncatedHeaders);
        }
        assert(ph + 32 <= elf@.len());
        let ph: usize = ph as usize;
        assert(ph + 32 <= elf@.len());
        let p_type = u32_at(elf, ph);
        let p_offset = u32_at(elf, ph + 4);
        let p_paddr = u32_at(elf, ph + 12);
        let p_filesz = u32_at(elf, ph + 16);
        if p_type == 1 && p_filesz != 0 && FLASH_BASE <= p_paddr && p_paddr < FLASH_END {
            if p_offset as u64 + p_filesz as u64 > len {
                proof {
                    lemma_scan_error_sticks(elf@, (n + 1) as nat, phnum as nat);
                }
                return Err(ElfError::SegmentOutsideFile);
            }
            segments.push(Segment { addr: p_paddr, offset: p_offset as usize, len: p_filesz as usize });
        }
        n = n + 1;
    }
    Ok(segments)
}

/// Lowest load address and highest end address of the segments.
fn address_bounds(segs: &Vec<Segment>) -> (r: (u32, u64))
    requires
        segs@.len() > 0,
        forall|j: int| 0 <= j < segs@.len() ==> (#[trigger] segs@[j]).len <= u32::MAX,
    ensures
        r.0 == min_addr(segs@, segs@.len()),
        r.1 == max_end(segs@, segs@.len()),
        r.1 <= 2 * (u32::MAX as int),
{
    let mut lo = segs[0].addr;
    let mut hi = segs[0].addr as u64 + segs[0].len as u64;
    let mut i: usize = 1;
    while i < segs.len()
        invariant
            1 <= i <= segs@.len(),
            forall|j: int| 0 <= j < segs@.len() ==> (#[trigger] segs@[j]).len <= u32::MAX,
            lo == min_addr(segs@, i as nat),
            hi == max_end(segs@, i as nat),
            hi <= 2 * (u32::MAX as int),
        decreases segs@.len() - i,
    {
        let s = segs[i];
        if s.addr < lo {
            lo = s.addr;
        }
        let e = s.addr as u64 + s.len as u64;
        if e > hi {
            hi = e;
        }
        i = i + 1;
    }
    (lo, hi)
}

/// Index of the segment whose byte lands at address `p`, if any.
fn winning_segment(segs: &Vec<Segment>, p: u64) -> (r: Option<usize>)
    requires
        forall|j: int| 0 <= j < segs@.len() ==> (#[trigger] segs@[j]).len <= u32::MAX,
    ensures
        match r {
            None => winner(segs@, segs@.len(), p as int) is None,
            Some(j) => winner(segs@, segs@.len(), p as int) == Some(j as int),
        },
{
    let mut w: Option<usize> = None;
    let mut k: usize = 0;
    while k < segs.len()
        invariant
            k <= segs@.len(),
            forall|j: int| 0 <= j < segs@.len() ==> (#[trigger] segs@[j]).len <= u32::MAX,
            match w {
                None => winner(segs@, k as nat, p as int) is None,
                Some(j) => winner(segs@, k as nat, p as int) == Some(j as int) && j < k,
            },
        decreases segs@.len() - k,
    {
        let s = segs[k];
        let covered = s.addr as u64 <= p && p < s.addr as u64 + s.len as u64;
        let better = match w {
            None => true,
            Some(j) => segs[j].addr <= s.addr,
        };
        if covered && better {
            w = Some(k);
        }
        k = k + 1;
    }
    w
}

/// Collects every `PT_LOAD` segment whose load address is in flash into one
/// contiguous, 256-byte-aligned image, gaps filled with `0xFF`.
pub fn flash_image(elf: &[u8]) -> (r: Result<FlashImage, ElfError>)
    ensures
        match flash_image_spec(elf@) {
            Ok((b, d)) => r is Ok && r->Ok_0.base == b && r->Ok_0.data@ == d,
            Err(e) => r is Err && r->Err_0 == e,
        },
{
    if elf.len() < 0x34 || elf[0] != 0x7f || elf[1] != 0x45 || elf[2] != 0x4c || elf[3] != 0x46 {
        return Err(ElfError::NotElf);
    }
    if elf[4] != 1 || elf[5] != 1 {
        return Err(ElfError::NotLittleEndian32);
    }
    let segs = match collect_segments(elf) {
        Ok(v) => v,
        Err(e) => return Err(e),
    };
    if segs.len() == 0 {
        return Err(ElfError::NoSegments);
    }
    proof {
        lemma_scan_segments_valid(elf@, le16(elf@, 0x2c) as nat);
    }
    let (lo, hi) = address_bounds(&segs);
    let base = lo - lo % 256;
    let end = if hi % 256 == 0 { hi } else { hi - hi % 256 + 256 };
    if end > FLASH_END as u64 {
        return Err(ElfError::PastFlashEnd(end));
    }
    let size = (end - base as u64) as usize;
    let ghost segs_v = segs@;
    let ghost want = Seq::new(size as nat, |i: int| image_byte(elf@, segs_v, base + i));
    let mut data: Vec<u8> = Vec::with_capacity(size);
    let mut i: usize = 0;
    while i < size
        invariant
            i <= size,
            size == end - base,
            end <= FLASH_END,
            segs@ == segs_v,
            elf@.len() <= usize::MAX,
            forall|j: int| 0 <= j < segs_v.len() ==> {
                let s = #[trigger] segs_v[j];
                &&& s.len > 0
                &&& s.len <= u32::MAX
                &&& FLASH_BASE <= s.addr < FLASH_END
                &&& s.offset + s.len <= elf@.len()
            },
            want == Seq::new(size as nat, |k: int| image_byte(elf@, segs_v, base + k)),
            data@ == want.take(i as int),
        decreases size - i,
    {
        let p = base as u64 + i as u64;
        let b = match winning_segment(&segs, p) {
            None => 0xFFu8,
            Some(j) => {
                proof {
                    lemma_winner_covers(segs_v, segs_v.len(), p as int);
                }
                let s = segs[j];
                assert(covers(s, p as int));
                assert(s.offset + s.len <= elf@.len());
                let within: usize = (p - s.addr as u64) as usize;
                assert(within < s.len);
                elf[s.offset + within]
            },
        };
        data.push(b);
        proof {
            assert(want[i as int] == b);
            assert(data@ =~= want.take(i + 1));
        }
        i = i + 1;
    }
    proof {
        assert(data@ =~= want);
    }
    Ok(FlashImage { base, data })
}

/// The winning segment covers the address and is one of the segments.
pub proof fn lemma_winner_covers(segs: Seq<Segment>, k: nat, p: int)
    requires
        k <= segs.len(),
    ensures
        winner(segs, k, p) matches Some(j) ==> 0 <= j < k && covers(segs[j], p),
    decreases k,
{
    if k > 0 {
        lemma_winner_covers(segs, (k - 1) as nat, p);
    }
}

/// The message a build helper prints for `e`.
pub open spec fn elf_error_message(e: ElfError) -> Seq<char> {
    match e {
        ElfError::NotElf => "not an ELF file"@,
        ElfError::NotLittleEndian32 => "expected a 32-bit little-endian ELF"@,
        ElfError::TruncatedHeaders => "truncated program header table"@,
        ElfError::SegmentOutsideFile => "program header points outside the file"@,
        ElfError::NoSegments => "no loadable flash segments found"@,
        ElfError::PastFlashEnd(end) => "image runs past the end of flash (0x"@ + hex_padded(end as nat, 8)
            + ")"@,
    }
}

impl ElfError {
    /// The human-readable message for this error.
    pub fn message(&self) -> (s: String)
        ensures
            s@ == elf_error_message(*self),
    {
        let mut s = String::new();
        match self {
            ElfError::NotElf => s.append("not an ELF file"),
            ElfError::NotLittleEndian32 => s.append("expected a 32-bit little-endian ELF"),
            ElfError::TruncatedHeaders => s.append("truncated program header table"),
            ElfError::SegmentOutsideFile => s.append("program header points outside the file"),
            ElfError::NoSegments => s.append("no loadable flash segments found"),
            ElfError::PastFlashEnd(end) => {
                s.append("image runs past the end of flash (0x");
                push_hex_padded(&mut s, *end, 8);
                s.append(")");
            },
        }
        s
    }
}

/// The lowest address is one of the segments' and no segment starts below it.
proof fn lemma_min_addr(segs: Seq<Segment>, k: nat)
    requires
        1 <= k <= segs.len(),
    ensures
        exists|j: int| 0 <= j < k && min_addr(segs, k) == #[trigger] segs[j].addr,
        forall|j: int| 0 <= j < k ==> min_addr(segs, k) <= #[trigger] segs[j].addr,
    decreases k,
{
    if k > 1 {
        lemma_min_addr(segs, (k - 1) as nat);
        if segs[k - 1].addr < min_addr(segs, (k - 1) as nat) {
            assert(min_addr(segs, k) == segs[k - 1].addr);
        } else {
            let j = choose|j: int| 0 <= j < k - 1 && min_addr(segs, (k - 1) as nat) == #[trigger] segs[j].addr;
            assert(min_addr(segs, k) == segs[j].addr);
        }
    } else {
        assert(min_addr(segs, k) == segs[0].addr);
    }
}

/// The highest end address is one of the segments' and no segment ends past
/// it.
proof fn lemma_max_end(segs: Seq<Segment>, k: nat)
    requires
        1 <= k <= segs.len(),
    ensures
        exists|j: int| 0 <= j < k && max_end(segs, k) == #[trigger] segs[j].addr + segs[j].len,
        forall|j: int| 0 <= j < k ==> #[trigger] segs[j].addr + segs[j].len <= max_end(segs, k),
    decreases k,
{
    if k > 1 {
        lemma_max_end(segs, (k - 1) as nat);
        let e = segs[k - 1].addr + segs[k - 1].len;
        if e > max_end(segs, (k - 1) as nat) {
            assert(max_end(segs, k) == segs[k - 1].addr + segs[k - 1].len);
        } else {
            let j = choose|j: int| 0 <= j < k - 1 && max_end(segs, (k - 1) as nat) == #[trigger] segs[j].addr
                + segs[j].len;
            assert(max_end(segs, k) == segs[j].addr + segs[j].len);
        }
    } else {
        assert(max_end(segs, k) == segs[0].addr + segs[0].len);
    }
}

/// A successful image starts on a 256-byte boundary in flash, is a non-empty
/// whole number of 256-byte blocks, and ends within flash; so it can always be
/// wrapped by `to_uf2`.
pub proof fn lemma_image_fits_flash(elf: Seq<u8>)
    requires
        flash_image_spec(elf) is Ok,
    ensures
        ({
            let (b, d) = flash_image_spec(elf)->Ok_0;
            &&& b % 256 == 0
            &&& d.len() % 256 == 0
            &&& d.len() > 0
            &&& FLASH_BASE <= b
            &&& b + d.len() <= FLASH_END
        }),
{
    let k = le16(elf, 0x2c) as nat;
    let segs = scan(elf, k)->Ok_0;
    lemma_scan_segments_valid(elf, k);
    lemma_min_addr(segs, segs.len());
    lemma_max_end(segs, segs.len());
    let lo = min_addr(segs, segs.len());
    let j = choose|j: int| 0 <= j < segs.len() && lo == #[trigger] segs[j].addr;
    assert(segs[j].addr + segs[j].len <= max_end(segs, segs.len()));
    let hi = max_end(segs, segs.len());
    assert(lo < hi);
    assert(FLASH_BASE <= lo);
    assert(FLASH_BASE % 256 == 0);
    assert(FLASH_BASE <= lo - lo % 256);
}

/// Where segments overlap, the byte comes from the covering segment with the
/// highest load address, the one later in the table on a tie; an address no
/// segment covers holds `0xFF`.
pub proof fn lemma_winner_is_greatest(segs: Seq<Segment>, k: nat, p: int)
    requires
        k <= segs.len(),
    ensures
        winner(segs, k, p) is None <==> (forall|i: int| 0 <= i < k ==> !covers(#[trigger] segs[i], p)),
        winner(segs, k, p) matches Some(j) ==> {
            &&& 0 <= j < k
            &&& covers(segs[j], p)
            &&& forall|i: int| 0 <= i < k && covers(#[trigger] segs[i], p) ==>
                segs[i].addr < segs[j].addr || (segs[i].addr == segs[j].addr && i <= j)
        },
    decreases k,
{
    if k > 0 {
        lemma_winner_is_greatest(segs, (k - 1) as nat, p);
    }
}

/// No address is covered by two different segments: of any two, one ends
/// before the other starts.
pub open spec fn pairwise_disjoint(segs: Seq<Segment>) -> bool {
    forall|i: int, k: int| 0 <= i < segs.len() && 0 <= k < segs.len() && i != k ==> #[trigger] segs[i].addr
        + segs[i].len <= #[trigger] segs[k].addr || segs[k].addr + segs[k].len <= segs[i].addr
}

/// With disjoint segments, the byte at an address is that of the one segment
/// covering it, wherever that segment stands in the table.
pub proof fn lemma_disjoint_image_byte(elf: Seq<u8>, segs: Seq<Segment>, j: int, p: int)
    requires
        pairwise_disjoint(segs),
        0 <= j < segs.len(),
        covers(segs[j], p),
    ensures
        image_byte(elf, segs, p) == elf[segs[j].offset + (p - segs[j].addr)],
{
    lemma_winner_is_greatest(segs, segs.len(), p);
    let w = winner(segs, segs.len(), p);
    assert(w is Some);
    assert(w->0 == j);
}

/// The image depends only on which segments are selected, not on their order
/// in the program header table nor on entries that select nothing: two
/// disjoint lists of the same segments give the same extent and the same byte
/// at every address.
pub proof fn lemma_image_order_free(elf: Seq<u8>, segs1: Seq<Segment>, segs2: Seq<Segment>, p: int)
    requires
        segs1.len() > 0,
        segs1.to_set() == segs2.to_set(),
        pairwise_disjoint(segs1),
        pairwise_disjoint(segs2),
    ensures
        segs2.len() > 0,
        min_addr(segs1, segs1.len()) == min_addr(segs2, segs2.len()),
        max_end(segs1, segs1.len()) == max_end(segs2, segs2.len()),
        image_byte(elf, segs1, p) == image_byte(elf, segs2, p),
{
    assert(segs1.to_set().contains(segs1[0]));
    assert(segs2.to_set().contains(segs1[0]));
    lemma_min_addr(segs1, segs1.len());
    lemma_min_addr(segs2, segs2.len());
    lemma_max_end(segs1, segs1.len());
    lemma_max_end(segs2, segs2.len());
    let a1 = choose|j: int| 0 <= j < segs1.len() && min_addr(segs1, segs1.len()) == #[trigger] segs1[j].addr;
    let a2 = choose|j: int| 0 <= j < segs2.len() && min_addr(segs2, segs2.len()) == #[trigger] segs2[j].addr;
    assert(segs1.to_set().contains(segs1[a1]));
    assert(segs2.to_set().contains(segs2[a2]));
    let b1 = choose|j: int| 0 <= j < segs2.len() && segs2[j] == segs1[a1];
    let b2 = choose|j: int| 0 <= j < segs1.len() && segs1[j] == segs2[a2];
    assert(min_addr(segs2, segs2.len()) <= segs2[b1].addr);
    assert(min_addr(segs1, segs1.len()) <= segs1[b2].addr);
    let e1 = choose|j: int| 0 <= j < segs1.len() && max_end(segs1, segs1.len()) == #[trigger] segs1[j].addr
        + segs1[j].len;
    let e2 = choose|j: int| 0 <= j < segs2.len() && max_end(segs2, segs2.len()) == #[trigger] segs2[j].addr
        + segs2[j].len;
    assert(segs1.to_set().contains(segs1[e1]));
    assert(segs2.to_set().contains(segs2[e2]));
    let f1 = choose|j: int| 0 <= j < segs2.len() && segs2[j] == segs1[e1];
    let f2 = choose|j: int| 0 <= j < segs1.len() && segs1[j] == segs2[e2];
    assert(segs2[f1].addr + segs2[f1].len <= max_end(segs2, segs2.len()));
    assert(segs1[f2].addr + segs1[f2].len <= max_end(segs1, segs1.len()));
    lemma_winner_is_greatest(segs1, segs1.len(), p);
    lemma_winner_is_greatest(segs2, segs2.len(), p);
    match winner(segs1, segs1.len(), p) {
        Some(j) => {
            assert(segs1.to_set().contains(segs1[j]));
            let k = choose|k: int| 0 <= k < segs2.len() && segs2[k] == segs1[j];
            lemma_disjoint_image_byte(elf, segs1, j, p);
            lemma_disjoint_image_byte(elf, segs2, k, p);
        },
        None => {
            if let Some(k) = winner(segs2, segs2.len(), p) {
                assert(segs2.to_set().contains(segs2[k]));
                let j = choose|j: int| 0 <= j < segs1.len() && segs1[j] == segs2[k];
                assert(covers(segs1[j], p));
            }
        },
    }
}

/// The flash segments the program header table of `elf` selects, in table
/// order, or why the table cannot be read.
pub open spec fn table_segments(elf: Seq<u8>) -> Result<Seq<Segment>, ElfError> {
    scan(elf, le16(elf, 0x2c) as nat)
}

/// `elf2` holds the same bytes as `elf` wherever the file bytes of one of
/// `segs` lie.
pub open spec fn agrees_on_segments(elf: Seq<u8>, elf2: Seq<u8>, segs: Seq<Segment>) -> bool {
    forall|j: int|
        #![trigger segs[j]]
        0 <= j < segs.len() ==> forall|o: int|
            #![trigger elf2[o]]
            segs[j].offset <= o < segs[j].offset + segs[j].len ==> elf2[o] == elf[o]
}

/// Two files that agree on the bytes of `segs` give the same image byte at
/// every address.
proof fn lemma_image_byte_reads_segments(elf: Seq<u8>, elf2: Seq<u8>, segs: Seq<Segment>, p: int)
    requires
        agrees_on_segments(elf, elf2, segs),
    ensures
        image_byte(elf2, segs, p) == image_byte(elf, segs, p),
{
    lemma_winner_is_greatest(segs, segs.len(), p);
    if let Some(j) = winner(segs, segs.len(), p) {
        let o = segs[j].offset + (p - segs[j].addr);
        assert(elf2[o] == elf[o]);
    }
}

/// The image of an ELF file depends only on which segments its program header
/// table selects and on their bytes: `elf2`, whose identification bytes agree
/// with those of `elf`, whose table selects the same segments each listed
/// once in any order (amid any entries that select nothing), and whose bytes
/// agree with those of `elf` wherever a selected segment's bytes lie, gives
/// the same image, when the selected segments do not overlap.
pub proof fn lemma_flash_image_order_free(elf: Seq<u8>, elf2: Seq<u8>, segs1: Seq<Segment>, segs2: Seq<Segment>)
    requires
        flash_image_spec(elf) is Ok,
        elf2.len() >= 0x34,
        forall|i: int| 0 <= i < 6 ==> elf2[i] == elf[i],
        table_segments(elf) == Ok::<Seq<Segment>, ElfError>(segs1),
        table_segments(elf2) == Ok::<Seq<Segment>, ElfError>(segs2),
        segs1.to_set() == segs2.to_set(),
        pairwise_disjoint(segs1),
        pairwise_disjoint(segs2),
        agrees_on_segments(elf, elf2, segs1),
    ensures
        flash_image_spec(elf2) == flash_image_spec(elf),
{
    assert(elf2[0] == elf[0] && elf2[1] == elf[1] && elf2[2] == elf[2] && elf2[3] == elf[3]);
    assert(elf2[4] == elf[4] && elf2[5] == elf[5]);
    lemma_image_order_free(elf2, segs1, segs2, 0);
    let lo = min_addr(segs1, segs1.len());
    let base = lo - lo % 256;
    let end = round_up_256(max_end(segs1, segs1.len()));
    if end <= FLASH_END {
        let d1 = Seq::new((end - base) as nat, |i: int| image_byte(elf, segs1, base + i));
        let d2 = Seq::new((end - base) as nat, |i: int| image_byte(elf2, segs2, base + i));
        assert forall|i: int| 0 <= i < d1.len() implies d2[i] == d1[i] by {
            lemma_image_order_free(elf2, segs1, segs2, base + i);
            lemma_image_byte_reads_segments(elf, elf2, segs1, base + i);
        }
        assert(d2 =~= d1);
    }
}

/// The little-endian 32-bit word of `elf` at `o`, as the ELF32 layout reads
/// a header field.
pub open spec fn word_at(elf: Seq<u8>, o: int) -> int {
    elf[o] + elf[o + 1] * 0x100 + elf[o + 2] * 0x1_0000 + elf[o + 3] * 0x100_0000
}

/// Program header `n` of `elf`, read field by field from the file (type at
/// byte 0, `p_offset` at 4, `p_paddr` at 12, `p_filesz` at 16 of the entry),
/// is a non-empty `PT_LOAD` whose load address lies in flash and whose loaded
/// bytes cover address `p`. Its virtual address, at byte 8, plays no part.
pub open spec fn header_loads_at(elf: Seq<u8>, n: int, p: int) -> bool {
    let ph = word_at(elf, 0x1c) + n * (elf[0x2a] + elf[0x2b] * 0x100);
    let paddr = word_at(elf, ph + 12);
    &&& word_at(elf, ph) == 1
    &&& word_at(elf, ph + 16) != 0
    &&& FLASH_BASE <= paddr < FLASH_END
    &&& paddr <= p < paddr + word_at(elf, ph + 16)
}

/// Number of program headers, read from the ELF header.
pub open spec fn header_count(elf: Seq<u8>) -> int {
    elf[0x2c] + elf[0x2d] * 0x100
}

/// Segment `s` is the one that some flash `PT_LOAD` header among the first
/// `k` describes.
spec fn from_header(elf: Seq<u8>, k: nat, s: Segment) -> bool {
    exists|n: int| 0 <= n < k && is_flash_load(elf, ph_offset(elf, n)) && s == #[trigger] segment_at(
        elf,
        ph_offset(elf, n),
    )
}

/// The scanned segments are exactly those of the flash `PT_LOAD` headers
/// among the first `k`.
proof fn lemma_scan_members(elf: Seq<u8>, k: nat)
    requires
        scan(elf, k) is Ok,
    ensures
        forall|n: int|
            0 <= n < k && is_flash_load(elf, ph_offset(elf, n)) ==> scan(elf, k)->Ok_0.contains(
                #[trigger] segment_at(elf, ph_offset(elf, n)),
            ),
        forall|j: int| 0 <= j < scan(elf, k)->Ok_0.len() ==> from_header(elf, k, #[trigger] scan(elf, k)->Ok_0[j]),
    decreases k,
{
    if k > 0 {
        let k1 = (k - 1) as nat;
        lemma_scan_members(elf, k1);
        let before = scan(elf, k1)->Ok_0;
        let segs = scan(elf, k)->Ok_0;
        let ph = ph_offset(elf, k - 1);
        assert forall|n: int| 0 <= n < k && is_flash_load(elf, ph_offset(elf, n)) implies segs.contains(
            #[trigger] segment_at(elf, ph_offset(elf, n)),
        ) by {
            if n < k - 1 {
                assert(before.contains(segment_at(elf, ph_offset(elf, n))));
                let j = choose|j: int| 0 <= j < before.len() && before[j] == segment_at(elf, ph_offset(elf, n));
                assert(segs[j] == before[j]);
            } else {
                assert(segs[segs.len() - 1] == segment_at(elf, ph));
            }
        }
        assert forall|j: int| 0 <= j < segs.len() implies from_header(elf, k, #[trigger] segs[j]) by {
            if j < before.len() {
                assert(segs[j] == before[j]);
                assert(from_header(elf, k1, before[j]));
                let n = choose|n: int| 0 <= n < k1 && is_flash_load(elf, ph_offset(elf, n)) && before[j]
                    == #[trigger] segment_at(elf, ph_offset(elf, n));
                assert(segs[j] == segment_at(elf, ph_offset(elf, n)));
            } else {
                assert(segs[j] == segment_at(elf, ph_offset(elf, k - 1)));
            }
        }
    }
}

/// A header's fields as the scan reads them are the ones [`header_loads_at`]
/// reads.
proof fn lemma_header_fields(elf: Seq<u8>, n: int, p: int)
    requires
        0 <= n,
        ph_offset(elf, n) + 32 <= elf.len(),
    ensures
        ph_offset(elf, n) == word_at(elf, 0x1c) + n * (elf[0x2a] + elf[0x2b] * 0x100),
        header_loads_at(elf, n, p) <==> (is_flash_load(elf, ph_offset(elf, n)) && covers(
            segment_at(elf, ph_offset(elf, n)),
            p,
        )),
        segment_at(elf, ph_offset(elf, n)).offset == word_at(elf, ph_offset(elf, n) + 4),
        segment_at(elf, ph_offset(elf, n)).addr == word_at(elf, ph_offset(elf, n) + 12),
{
    let ph = ph_offset(elf, n);
    assert(le16(elf, 0x2a) == elf[0x2a] + elf[0x2b] * 0x100);
    assert(0 <= word_at(elf, ph + 4) <= u32::MAX);
    assert(0 <= word_at(elf, ph + 12) <= u32::MAX);
    assert(0 <= word_at(elf, ph + 16) <= u32::MAX);
}

/// Every header the table reads lies within the file once the scan has
/// succeeded.
proof fn lemma_scan_headers_in_file(elf: Seq<u8>, k: nat, n: int)
    requires
        scan(elf, k) is Ok,
        0 <= n < k,
    ensures
        ph_offset(elf, n) + 32 <= elf.len(),
    decreases k,
{
    if n < k - 1 {
        lemma_scan_headers_in_file(elf, (k - 1) as nat, n);
    }
}

/// Segments are placed by their load (physical) address, never their virtual
/// one: in a successful image, the byte at an address that exactly one
/// program header loads is the file byte that header puts there, `p_offset +
/// (p - p_paddr)`.
pub proof fn lemma_image_placed_by_load_address(elf: Seq<u8>, n: int, p: int)
    requires
        flash_image_spec(elf) is Ok,
        0 <= n < header_count(elf),
        header_loads_at(elf, n, p),
        forall|m: int| 0 <= m < header_count(elf) && m != n ==> !#[trigger] header_loads_at(elf, m, p),
    ensures
        ({
            let (base, data) = flash_image_spec(elf)->Ok_0;
            let ph = word_at(elf, 0x1c) + n * (elf[0x2a] + elf[0x2b] * 0x100);
            &&& base <= p < base + data.len()
            &&& data[p - base] == elf[word_at(elf, ph + 4) + (p - word_at(elf, ph + 12))]
        }),
{
    let k = le16(elf, 0x2c) as nat;
    let segs = scan(elf, k)->Ok_0;
    lemma_scan_members(elf, k);
    lemma_scan_headers_in_file(elf, k, n);
    lemma_header_fields(elf, n, p);
    assert(k == header_count(elf));
    let seg = segment_at(elf, ph_offset(elf, n));
    assert(segs.contains(seg));
    let j0 = choose|j: int| 0 <= j < segs.len() && segs[j] == seg;
    lemma_winner_is_greatest(segs, segs.len(), p);
    assert(covers(segs[j0], p));
    let j = winner(segs, segs.len(), p)->0;
    assert(from_header(elf, k, segs[j]));
    let m = choose|m: int| 0 <= m < k && is_flash_load(elf, ph_offset(elf, m)) && segs[j]
        == #[trigger] segment_at(elf, ph_offset(elf, m));
    lemma_scan_headers_in_file(elf, k, m);
    lemma_header_fields(elf, m, p);
    assert(m == n);
    lemma_min_addr(segs, segs.len());
    lemma_max_end(segs, segs.len());
    assert(min_addr(segs, segs.len()) <= segs[j0].addr);
    assert(segs[j0].addr + segs[j0].len <= max_end(segs, segs.len()));
}

/// Addresses that no program header loads, read from the file as in
/// [`header_loads_at`], hold the erased value `0xFF` in a successful image:
/// a header whose load address is outside flash contributes nothing,
/// whatever its virtual address.
pub proof fn lemma_image_erased_where_nothing_loads(elf: Seq<u8>, p: int)
    requires
        flash_image_spec(elf) is Ok,
        forall|m: int| 0 <= m < header_count(elf) ==> !#[trigger] header_loads_at(elf, m, p),
    ensures
        ({
            let (base, data) = flash_image_spec(elf)->Ok_0;
            base <= p < base + data.len() ==> data[p - base] == 0xFF
        }),
{
    let k = le16(elf, 0x2c) as nat;
    let segs = scan(elf, k)->Ok_0;
    lemma_scan_members(elf, k);
    lemma_winner_is_greatest(segs, segs.len(), p);
    assert(k == header_count(elf));
    if let Some(j) = winner(segs, segs.len(), p) {
        assert(from_header(elf, k, segs[j]));
        let m = choose|m: int| 0 <= m < k && is_flash_load(elf, ph_offset(elf, m)) && segs[j]
            == #[trigger] segment_at(elf, ph_offset(elf, m));
        lemma_scan_headers_in_file(elf, k, m);
        lemma_header_fields(elf, m, p);
        assert(header_loads_at(elf, m, p));
    }
}

} // verus!
