use amia::elf::ElfHeader;
use amia::error::Error;
use amia::mem::{alloc_pages, PhysMem};

fn put16(v: &mut Vec<u8>, o: usize, x: u16) {
    v[o..o + 2].copy_from_slice(&x.to_le_bytes());
}
fn put32(v: &mut Vec<u8>, o: usize, x: u32) {
    v[o..o + 4].copy_from_slice(&x.to_le_bytes());
}
fn put64(v: &mut Vec<u8>, o: usize, x: u64) {
    v[o..o + 8].copy_from_slice(&x.to_le_bytes());
}

/// An image with two loadable segments: "ABCD" wanting 0x1800 bytes at
/// 0x1000000, and "xyz" wanting 0x10 bytes at 0x1002000.
fn sample_image() -> Vec<u8> {
    let mut v = vec![0u8; 183];
    v[0..4].copy_from_slice(b"\x7fELF");
    put16(&mut v, 16, 2);
    put16(&mut v, 18, 0xf3);
    put32(&mut v, 20, 1);
    put64(&mut v, 24, 0x1000000);
    put64(&mut v, 32, 64);
    put16(&mut v, 52, 64);
    put16(&mut v, 54, 56);
    put16(&mut v, 56, 2);
    // program header 0
    put32(&mut v, 64, 1);
    put32(&mut v, 68, 7);
    put64(&mut v, 72, 176);
    put64(&mut v, 80, 0x1000000);
    put64(&mut v, 88, 0x1000000);
    put64(&mut v, 96, 4);
    put64(&mut v, 104, 0x1800);
    put64(&mut v, 112, 0x1000);
    // program header 1
    put32(&mut v, 120, 1);
    put64(&mut v, 128, 180);
    put64(&mut v, 136, 0x1002000);
    put64(&mut v, 152, 3);
    put64(&mut v, 160, 0x10);
    v[176..183].copy_from_slice(b"ABCDxyz");
    v
}

#[test]
fn elf_header_fields() {
    let img = sample_image();
    let h = ElfHeader::new(&img).unwrap();
    assert_eq!(&h.e_ident[0..4], b"\x7fELF");
    assert_eq!(h.e_type, 2);
    assert_eq!(h.e_machine, 0xf3);
    assert_eq!(h.e_version, 1);
    assert_eq!(h.e_entry, 0x1000000);
    assert_eq!(h.e_phoff, 64);
    assert_eq!(h.e_ehsize, 64);
    assert_eq!(h.e_phentsize, 56);
    assert_eq!(h.e_phnum, 2);
}

#[test]
fn elf_short_image_is_invalid() {
    let img = sample_image();
    assert!(matches!(ElfHeader::new(&img[..63]), Err(Error::InvalidElf)));
    assert!(ElfHeader::new(&img[..64]).is_ok());
}

#[test]
fn elf_count_page_spans_segments() {
    let img = sample_image();
    let h = ElfHeader::new(&img).unwrap();
    // From 0x1000000 to 0x1002010, rounded up to pages.
    assert_eq!(h.count_page(&img).unwrap(), 3);
    assert_eq!(h.packed_size(&img), Some(7));
}

#[test]
fn elf_count_page_checks_headers() {
    let mut img = sample_image();
    put64(&mut img, 32, 170);
    let h = ElfHeader::new(&img).unwrap();
    assert!(matches!(h.count_page(&img), Err(Error::InvalidElf)));
    assert_eq!(h.packed_size(&img), None);
}

#[test]
fn elf_segment_outside_image_is_invalid() {
    let mut img = sample_image();
    put64(&mut img, 152, 4);
    let h = ElfHeader::new(&img).unwrap();
    assert_eq!(h.packed_size(&img), None);
    let mut mem = PhysMem::new(0x8000_0000, 4096);
    assert!(matches!(h.load(&img, &mut mem, 0x8000_0000), Err(Error::InvalidElf)));
}

#[test]
fn elf_load_packs_segments() {
    let img = sample_image();
    let h = ElfHeader::new(&img).unwrap();
    let mut mem = PhysMem::new(0x8000_0000, 4 * 4096);
    let page = alloc_pages(&mut mem, 1);
    h.load(&img, &mut mem, page).unwrap();
    let got: Vec<u8> = (0..8).map(|k| mem.read_u8(page + k)).collect();
    assert_eq!(&got, b"ABCDxyz\0");
    // No room left in memory for the segments.
    assert!(h.load(&img, &mut mem, 0x8000_0000 + 4 * 4096 - 3).is_err());
}

#[test]
fn count_page_refuses_span_near_the_top() {
    // One segment from 0 to u64::MAX - 4094: its rounded end fits in 64 bits,
    // but adding a whole page to the span does not.
    let mut img = sample_image();
    put16(&mut img, 56, 1);
    put64(&mut img, 80, 0);
    put64(&mut img, 104, u64::MAX - 4094);
    let h = ElfHeader::new(&img).unwrap();
    assert!(matches!(h.count_page(&img), Err(Error::InvalidElf)));
    put64(&mut img, 104, u64::MAX - 4095);
    assert_eq!(h.count_page(&img).unwrap(), ((u64::MAX - 4095) / 4096) as usize);
}
