use amia::constants::{PAGE_R, PAGE_V, PAGE_W};
use amia::mem::{alloc_pages, PhysMem};
use amia::paging::{map_page, tables_needed_for};

const RAM: u64 = 0x8000_0000;

/// Follows the three levels of the table at `root` for `va`.
fn walk(mem: &PhysMem, root: u64, va: u64) -> Option<u64> {
    let e2 = mem.read_u64(root + 8 * ((va >> 30) & 0x1ff));
    if e2 & PAGE_V == 0 {
        return None;
    }
    let t1 = (e2 << 2) & !0xfff;
    let e1 = mem.read_u64(t1 + 8 * ((va >> 21) & 0x1ff));
    if e1 & PAGE_V == 0 {
        return None;
    }
    let t0 = (e1 << 2) & !0xfff;
    let e0 = mem.read_u64(t0 + 8 * ((va >> 12) & 0x1ff));
    if e0 & PAGE_V == 0 {
        None
    } else {
        Some(e0)
    }
}

#[test]
fn alloc_pages_bumps_and_zeroes() {
    let mut mem = PhysMem::new(RAM, 8 * 4096);
    mem.write_u64(RAM + 4096 + 16, 0xdead_beef);
    assert_eq!(mem.next_paddr(), RAM);
    let a = alloc_pages(&mut mem, 1);
    assert_eq!(a, RAM);
    let b = alloc_pages(&mut mem, 2);
    assert_eq!(b, RAM + 4096);
    assert_eq!(mem.next_paddr(), RAM + 3 * 4096);
    assert_eq!(mem.read_u64(RAM + 4096 + 16), 0);
    assert_eq!(mem.end(), RAM + 8 * 4096);
    assert_eq!(mem.base(), RAM);
}

#[test]
fn word_roundtrip_little_endian() {
    let mut mem = PhysMem::new(RAM, 4096);
    mem.write_u64(RAM + 8, 0x0102_0304_0506_0708);
    assert_eq!(mem.read_u64(RAM + 8), 0x0102_0304_0506_0708);
    assert_eq!(mem.read_u8(RAM + 8), 0x08);
    assert_eq!(mem.read_u8(RAM + 15), 0x01);
    assert_eq!(mem.read_u64(RAM), 0);
    mem.write_bytes(RAM + 100, &[1, 2, 3]);
    assert_eq!(mem.read_u8(RAM + 101), 2);
}

#[test]
fn map_page_builds_missing_tables() {
    let mut mem = PhysMem::new(RAM, 16 * 4096);
    let root = alloc_pages(&mut mem, 1);
    assert_eq!(tables_needed_for(&mem, root, 0x1000), 2);
    map_page(&mut mem, root, 0x1000, 0x8020_0000, PAGE_R | PAGE_W);
    assert_eq!(mem.next_paddr(), RAM + 3 * 4096);
    let leaf = ((0x8020_0000u64 / 4096) << 10) | PAGE_R | PAGE_W | PAGE_V;
    assert_eq!(walk(&mem, root, 0x1000), Some(leaf));
    assert_eq!(walk(&mem, root, 0x2000), None);
    assert_eq!(walk(&mem, root, 0x0), None);

    // Same level-0 table: nothing to allocate.
    assert_eq!(tables_needed_for(&mem, root, 0x2000), 0);
    map_page(&mut mem, root, 0x2000, 0x8030_0000, PAGE_R);
    assert_eq!(mem.next_paddr(), RAM + 3 * 4096);
    assert_eq!(walk(&mem, root, 0x1000), Some(leaf));
    assert_eq!(walk(&mem, root, 0x2000), Some(((0x8030_0000u64 / 4096) << 10) | PAGE_R | PAGE_V));

    // Another 2 MiB region under the same root slot: one new table.
    assert_eq!(tables_needed_for(&mem, root, 0x20_0000), 1);
    map_page(&mut mem, root, 0x20_0000, 0x8040_0000, PAGE_W);
    assert_eq!(mem.next_paddr(), RAM + 4 * 4096);

    // Another gigabyte: two new tables.
    assert_eq!(tables_needed_for(&mem, root, 0x4000_0000), 2);
    map_page(&mut mem, root, 0x4000_0000, 0x8050_0000, PAGE_W);
    assert_eq!(mem.next_paddr(), RAM + 6 * 4096);
    assert_eq!(walk(&mem, root, 0x1000), Some(leaf));

    // Remapping replaces the entry.
    map_page(&mut mem, root, 0x1000, 0x8060_0000, PAGE_R);
    assert_eq!(walk(&mem, root, 0x1000), Some(((0x8060_0000u64 / 4096) << 10) | PAGE_R | PAGE_V));
    assert_eq!(walk(&mem, root, 0x2000), Some(((0x8030_0000u64 / 4096) << 10) | PAGE_R | PAGE_V));
}

#[test]
fn map_page_raw_entries() {
    let mut mem = PhysMem::new(RAM, 16 * 4096);
    let root = alloc_pages(&mut mem, 1);
    // Stale bytes where the next tables will come from are cleared.
    mem.write_u64(RAM + 4096 + 8 * 7, 0x1234);
    mem.write_u64(RAM + 2 * 4096 + 8 * 9, 0x5678);
    mem.write_u64(root + 8 * 300, 0xabc0);
    let va: u64 = (5 << 30) | (7 << 21) | (9 << 12);
    map_page(&mut mem, root, va, 0x8040_0000, PAGE_R);
    // Root slot 5 links the level-1 table taken first, its slot 7 the level-0 table.
    assert_eq!(mem.read_u64(root + 8 * 5), ((RAM + 4096) >> 12 << 10) | PAGE_V);
    assert_eq!(mem.read_u64(RAM + 4096 + 8 * 7), ((RAM + 2 * 4096) >> 12 << 10) | PAGE_V);
    assert_eq!(mem.read_u64(RAM + 2 * 4096 + 8 * 9), (0x8040_0000 >> 12 << 10) | PAGE_R | PAGE_V);
    // Other entries of the new tables are zero; other root entries are untouched.
    assert_eq!(mem.read_u64(RAM + 4096 + 8 * 6), 0);
    assert_eq!(mem.read_u64(RAM + 2 * 4096 + 8 * 8), 0);
    assert_eq!(mem.read_u64(root + 8 * 300), 0xabc0);
    // A second page in the same level-0 table keeps both links as they were.
    map_page(&mut mem, root, va + 4096, 0x8040_1000, PAGE_R);
    assert_eq!(mem.next_paddr(), RAM + 3 * 4096);
    assert_eq!(mem.read_u64(root + 8 * 5), ((RAM + 4096) >> 12 << 10) | PAGE_V);
    assert_eq!(mem.read_u64(RAM + 2 * 4096 + 8 * 9), (0x8040_0000 >> 12 << 10) | PAGE_R | PAGE_V);
    assert_eq!(mem.read_u64(RAM + 2 * 4096 + 8 * 10), (0x8040_1000 >> 12 << 10) | PAGE_R | PAGE_V);
}
