use lib::elf_image::{flash_image, ElfError, FLASH_BASE, FLASH_END};
use lib::uf2::{build_uf2, has_image_def, to_uf2, Uf2BuildError, UF2_FAMILY_RP2350_ARM_S, UF2_MAGIC_END, UF2_MAGIC_START0, UF2_MAGIC_START1};
use lib::elf_image::FlashImage;

/// A 32-bit little-endian ELF with the given program headers:
/// (p_type, p_offset, p_paddr, p_filesz), followed by `payload`.
fn elf_with(headers: &[(u32, u32, u32, u32)], payload: &[u8]) -> Vec<u8> {
    let mut e = vec![0u8; 0x34];
    e[0..4].copy_from_slice(b"\x7fELF");
    e[4] = 1;
    e[5] = 1;
    e[0x1c..0x20].copy_from_slice(&0x34u32.to_le_bytes());
    e[0x2a..0x2c].copy_from_slice(&32u16.to_le_bytes());
    e[0x2c..0x2e].copy_from_slice(&(headers.len() as u16).to_le_bytes());
    for &(t, off, paddr, filesz) in headers {
        let mut ph = [0u8; 32];
        ph[0..4].copy_from_slice(&t.to_le_bytes());
        ph[4..8].copy_from_slice(&off.to_le_bytes());
        ph[8..12].copy_from_slice(&paddr.to_le_bytes());
        ph[12..16].copy_from_slice(&paddr.to_le_bytes());
        ph[16..20].copy_from_slice(&filesz.to_le_bytes());
        e.extend_from_slice(&ph);
    }
    e.extend_from_slice(payload);
    e
}

fn payload_offset(n_headers: usize) -> u32 {
    (0x34 + 32 * n_headers) as u32
}

#[test]
fn short_or_unmarked_file_is_not_elf() {
    assert_eq!(flash_image(&[0u8; 10]).err(), Some(ElfError::NotElf));
    let mut e = elf_with(&[], &[]);
    e[1] = b'X';
    assert_eq!(flash_image(&e).err(), Some(ElfError::NotElf));
}

#[test]
fn sixty_four_bit_elf_is_refused() {
    let mut e = elf_with(&[], &[]);
    e[4] = 2;
    assert_eq!(flash_image(&e).err(), Some(ElfError::NotLittleEndian32));
}

#[test]
fn truncated_header_table_is_refused() {
    let mut e = elf_with(&[(1, 0, FLASH_BASE, 4)], &[]);
    e.truncate(0x34 + 20);
    assert_eq!(flash_image(&e).err(), Some(ElfError::TruncatedHeaders));
}

#[test]
fn segment_past_end_of_file_is_refused() {
    let off = payload_offset(1);
    let e = elf_with(&[(1, off, FLASH_BASE, 8)], &[1, 2, 3]);
    assert_eq!(flash_image(&e).err(), Some(ElfError::SegmentOutsideFile));
}

#[test]
fn no_flash_segment_is_refused() {
    let off = payload_offset(3);
    // A RAM segment, a non-LOAD one, and an empty one.
    let e = elf_with(&[(1, off, 0x2000_0000, 4), (4, off, FLASH_BASE, 4), (1, off, FLASH_BASE, 0)], &[9; 4]);
    assert_eq!(flash_image(&e).err(), Some(ElfError::NoSegments));
}

#[test]
fn image_past_flash_end_is_refused_with_its_end() {
    let off = payload_offset(1);
    let e = elf_with(&[(1, off, FLASH_END - 2, 4)], &[1, 2, 3, 4]);
    assert_eq!(flash_image(&e).err(), Some(ElfError::PastFlashEnd(FLASH_END as u64 + 256)));
    assert_eq!(ElfError::PastFlashEnd(0x1020_0100).message(), "image runs past the end of flash (0x10200100)");
}

#[test]
fn error_messages() {
    assert_eq!(ElfError::NotElf.message(), "not an ELF file");
    assert_eq!(ElfError::NotLittleEndian32.message(), "expected a 32-bit little-endian ELF");
    assert_eq!(ElfError::TruncatedHeaders.message(), "truncated program header table");
    assert_eq!(ElfError::SegmentOutsideFile.message(), "program header points outside the file");
    assert_eq!(ElfError::NoSegments.message(), "no loadable flash segments found");
    assert_eq!(ElfError::PastFlashEnd(0x1234).message(), "image runs past the end of flash (0x00001234)");
}

#[test]
fn segments_are_placed_by_physical_address_with_erased_gaps() {
    let off = payload_offset(2);
    let payload = [0xA1, 0xA2, 0xA3, 0xB1, 0xB2];
    // Listed out of order: the later-addressed one first.
    let e = elf_with(&[(1, off + 3, FLASH_BASE + 0x104, 2), (1, off, FLASH_BASE + 0x10, 3)], &payload);
    let img = flash_image(&e).unwrap();
    assert_eq!(img.base, FLASH_BASE);
    assert_eq!(img.data.len(), 512);
    assert_eq!(&img.data[0x10..0x13], &[0xA1, 0xA2, 0xA3]);
    assert_eq!(&img.data[0x104..0x106], &[0xB1, 0xB2]);
    assert!(img.data[..0x10].iter().all(|&b| b == 0xFF));
    assert!(img.data[0x13..0x104].iter().all(|&b| b == 0xFF));
    assert!(img.data[0x106..].iter().all(|&b| b == 0xFF));
}

#[test]
fn base_is_rounded_down_and_end_up() {
    let off = payload_offset(1);
    let e = elf_with(&[(1, off, FLASH_BASE + 0x1F0, 0x20)], &[7u8; 0x20]);
    let img = flash_image(&e).unwrap();
    assert_eq!(img.base, FLASH_BASE + 0x100);
    assert_eq!(img.data.len(), 0x200);
    assert_eq!(img.data[0xF0], 7);
    assert_eq!(img.data[0x10F], 7);
    assert_eq!(img.data[0x110], 0xFF);
}

#[test]
fn overlap_goes_to_the_higher_address_then_the_later_header() {
    let off = payload_offset(3);
    let payload = [1u8, 1, 1, 1, 2, 2, 3, 3];
    let e = elf_with(
        &[
            (1, off, FLASH_BASE, 4),     // 1 1 1 1 at 0..4
            (1, off + 4, FLASH_BASE + 2, 2), // 2 2 at 2..4, higher address: wins
            (1, off + 6, FLASH_BASE + 2, 2), // 3 3 at 2..4, same address, later: wins
        ],
        &payload,
    );
    let img = flash_image(&e).unwrap();
    assert_eq!(&img.data[0..5], &[1, 1, 3, 3, 0xFF]);
}

#[test]
fn uf2_blocks_carry_address_number_and_padding() {
    let data: Vec<u8> = (0..300u32).map(|i| (i & 0xFF) as u8).collect();
    let img = FlashImage { base: FLASH_BASE, data };
    let out = to_uf2(&img);
    assert_eq!(out.len(), 1024);
    let word = |o: usize| u32::from_le_bytes([out[o], out[o + 1], out[o + 2], out[o + 3]]);
    for n in 0..2usize {
        let b = n * 512;
        assert_eq!(word(b), UF2_MAGIC_START0);
        assert_eq!(word(b + 4), UF2_MAGIC_START1);
        assert_eq!(word(b + 8), 0x2000);
        assert_eq!(word(b + 12), FLASH_BASE + 256 * n as u32);
        assert_eq!(word(b + 16), 256);
        assert_eq!(word(b + 20), n as u32);
        assert_eq!(word(b + 24), 2);
        assert_eq!(word(b + 28), UF2_FAMILY_RP2350_ARM_S);
        assert_eq!(word(b + 508), UF2_MAGIC_END);
    }
    assert_eq!(out[32], 0);
    assert_eq!(out[32 + 255], 255);
    assert_eq!(out[512 + 32], 0); // byte 256 of the image
    assert_eq!(out[512 + 32 + 43], 43);
    assert!(out[512 + 32 + 44..512 + 508].iter().all(|&b| b == 0));
}

#[test]
fn empty_image_gives_empty_uf2() {
    let img = FlashImage { base: FLASH_BASE, data: vec![] };
    assert!(to_uf2(&img).is_empty());
}

#[test]
fn flash_image_then_uf2_round_trips_the_payload() {
    let off = payload_offset(1);
    let payload: Vec<u8> = (0..600u32).map(|i| (i * 7 & 0xFF) as u8).collect();
    let e = elf_with(&[(1, off, FLASH_BASE, 600)], &payload);
    let img = flash_image(&e).unwrap();
    let out = to_uf2(&img);
    assert_eq!(out.len(), 3 * 512);
    let mut back = Vec::new();
    for n in 0..3 {
        back.extend_from_slice(&out[n * 512 + 32..n * 512 + 32 + 256]);
    }
    assert_eq!(&back[..600], &payload[..]);
    assert!(back[600..].iter().all(|&b| b == 0xFF));
}

#[test]
fn image_def_marker_must_be_in_first_4k() {
    let marker = 0xFFFF_DED3u32.to_le_bytes();
    let mut data = vec![0u8; 8192];
    assert!(!has_image_def(&data));
    data[4092..4096].copy_from_slice(&marker);
    assert!(has_image_def(&data));
    let mut late = vec![0u8; 8192];
    late[4093..4097].copy_from_slice(&marker);
    assert!(!has_image_def(&late));
    assert!(has_image_def(&marker));
    assert!(!has_image_def(&marker[..3]));
}

#[test]
fn build_uf2_needs_the_image_def_marker() {
    let off = payload_offset(1);
    let mut payload = vec![0u8; 300];
    let plain = elf_with(&[(1, off, FLASH_BASE, 300)], &payload);
    assert_eq!(build_uf2(&plain).err(), Some(Uf2BuildError::NoImageDef));
    payload[100..104].copy_from_slice(&0xFFFF_DED3u32.to_le_bytes());
    let marked = elf_with(&[(1, off, FLASH_BASE, 300)], &payload);
    let built = build_uf2(&marked).unwrap();
    assert_eq!(built.image.base, FLASH_BASE);
    assert_eq!(built.image.data.len(), 512);
    assert_eq!(built.uf2.len(), 1024);
    assert_eq!(built.uf2[32 + 100], 0xD3);
    assert_eq!(build_uf2(&[1, 2, 3]).err(), Some(Uf2BuildError::Elf(ElfError::NotElf)));
}

#[test]
fn header_order_and_unselected_entries_do_not_change_the_image() {
    let off = payload_offset(3);
    let payload = [1u8, 2, 3, 4, 5, 6];
    let a = elf_with(&[(1, off, FLASH_BASE + 8, 3), (1, off + 3, FLASH_BASE, 3), (4, 0, FLASH_BASE, 9)], &payload);
    let b = elf_with(&[(6, 0, 0, 0), (1, off + 3, FLASH_BASE, 3), (1, off, FLASH_BASE + 8, 3)], &payload);
    let ia = flash_image(&a).unwrap();
    let ib = flash_image(&b).unwrap();
    assert_eq!(ia.base, ib.base);
    assert_eq!(ia.data, ib.data);
    assert_eq!(&ia.data[..11], &[4, 5, 6, 0xFF, 0xFF, 0xFF, 0xFF, 0xFF, 1, 2, 3]);
}
