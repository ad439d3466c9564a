use amia::constants::{PAGE_V, PROC_EXITED, PROC_READY, PROC_UNUSED, SATP_SV39, USER_BASE};
use amia::elf::ElfHeader;
use amia::error::Error;
use amia::mem::PhysMem;
use amia::process::{ProcTable, Process, INITIAL_SP, KERNEL_PAGE_FLAGS, USER_PAGE_FLAGS};

const KERNEL_BASE: u64 = 0x8020_0000;
const FREE_RAM_END: u64 = 0x8020_4000;
const FREE_RAM: u64 = 0x8100_0000;

fn walk(mem: &PhysMem, root: u64, va: u64) -> Option<u64> {
    let e2 = mem.read_u64(root + 8 * ((va >> 30) & 0x1ff));
    if e2 & PAGE_V == 0 {
        return None;
    }
    let t1 = (e2 << 2) & !0xfff;
    let e1 = mem.read_u64(t1 + 8 * ((va >> 21) & 0x1ff));
    if e1 & PAGE_V == 0 {
        return None;
    }
    let t0 = (e1 << 2) & !0xfff;
    let e0 = mem.read_u64(t0 + 8 * ((va >> 12) & 0x1ff));
    if e0 & PAGE_V == 0 {
        None
    } else {
        Some(e0)
    }
}

fn image() -> Vec<u8> {
    let mut v = vec![0u8; 64 + 56 + 5];
    v[32..40].copy_from_slice(&64u64.to_le_bytes());
    v[56..58].copy_from_slice(&1u16.to_le_bytes());
    v[64 + 8..64 + 16].copy_from_slice(&120u64.to_le_bytes());
    v[64 + 16..64 + 24].copy_from_slice(&USER_BASE.to_le_bytes());
    v[64 + 32..64 + 40].copy_from_slice(&5u64.to_le_bytes());
    v[64 + 40..64 + 48].copy_from_slice(&0x1100u64.to_le_bytes());
    v[120..125].copy_from_slice(b"shell");
    v
}

#[test]
fn new_process_slot_is_unused() {
    let p = Process::new();
    assert_eq!(p.pid, 0);
    assert_eq!(p.state, PROC_UNUSED);
    assert_eq!(p.sp, 0);
    assert_eq!(p.page_table, 0);
    assert!(p.stack.iter().all(|b| *b == 0));
}

#[test]
fn new_table_has_only_fresh_slots() {
    let table = ProcTable::new();
    assert_eq!(table.procs.len(), 8);
    for p in table.procs.iter() {
        assert_eq!((p.pid, p.state, p.sp, p.page_table), (0, PROC_UNUSED, 0, 0));
        assert!(p.stack.iter().all(|b| *b == 0));
    }
}

#[test]
fn create_idle_process_maps_kernel() {
    let mut table = ProcTable::new();
    assert!(table.has_unused_slot());
    let mut mem = PhysMem::new(FREE_RAM, 64 * 4096);
    let slot = table.create_process(&mut mem, KERNEL_BASE, FREE_RAM_END, None, 0x8020_0abc).unwrap();
    assert_eq!(slot, 0);
    let p = table.procs[0];
    assert_eq!(p.pid, 1);
    assert_eq!(p.state, PROC_READY);
    assert_eq!(p.sp, INITIAL_SP);
    assert_eq!(p.page_table, FREE_RAM);
    assert_eq!(&p.stack[8088..8096], &0x8020_0abcu64.to_le_bytes());
    assert!(p.stack[8096..].iter().all(|b| *b == 0));
    for k in 0..4u64 {
        let pa = KERNEL_BASE + 4096 * k;
        assert_eq!(walk(&mem, p.page_table, pa), Some(((pa / 4096) << 10) | KERNEL_PAGE_FLAGS | PAGE_V));
    }
    assert_eq!(walk(&mem, p.page_table, FREE_RAM_END), None);
    // Root, one level-1 and one level-0 table.
    assert_eq!(mem.next_paddr(), FREE_RAM + 3 * 4096);
}

#[test]
fn create_user_process_loads_image() {
    let mut table = ProcTable::new();
    let mut mem = PhysMem::new(FREE_RAM, 64 * 4096);
    table.create_process(&mut mem, KERNEL_BASE, FREE_RAM_END, None, 1).unwrap();
    let img = image();
    let h = ElfHeader::new(&img).unwrap();
    assert_eq!(h.count_page(&img).unwrap(), 2);
    let slot = table.create_process(&mut mem, KERNEL_BASE, FREE_RAM_END, Some(&img), 2).unwrap();
    assert_eq!(slot, 1);
    let p = table.procs[1];
    assert_eq!(p.pid, 2);
    assert_eq!(p.state, PROC_READY);
    let e = walk(&mem, p.page_table, USER_BASE).unwrap();
    let page = (e >> 10) << 12;
    // Root table and two kernel tables first, then the image pages.
    assert_eq!(p.page_table, FREE_RAM + 3 * 4096);
    assert_eq!(page, FREE_RAM + 6 * 4096);
    assert_eq!(mem.next_paddr(), FREE_RAM + 10 * 4096);
    assert_eq!(e & 0x3ff, USER_PAGE_FLAGS | PAGE_V);
    let e2 = walk(&mem, p.page_table, USER_BASE + 4096).unwrap();
    assert_eq!((e2 >> 10) << 12, page + 4096);
    let got: Vec<u8> = (0..5).map(|k| mem.read_u8(page + k)).collect();
    assert_eq!(&got, b"shell");
    assert_eq!(walk(&mem, p.page_table, USER_BASE + 2 * 4096), None);
    // The first process keeps its own table.
    let p0 = table.procs[0];
    assert!(walk(&mem, p0.page_table, USER_BASE).is_none());
    assert!(walk(&mem, p0.page_table, KERNEL_BASE).is_some());
}

#[test]
fn create_process_reports_bad_image_and_memory() {
    let mut table = ProcTable::new();
    let mut mem = PhysMem::new(FREE_RAM, 64 * 4096);
    let short = [0u8; 10];
    assert!(matches!(
        table.create_process(&mut mem, KERNEL_BASE, FREE_RAM_END, Some(&short), 0),
        Err(Error::InvalidElf)
    ));
    assert_eq!(table.procs[0].state, PROC_UNUSED);
    let mut small = PhysMem::new(FREE_RAM, 2 * 4096);
    assert!(matches!(
        table.create_process(&mut small, KERNEL_BASE, FREE_RAM_END, None, 0),
        Err(Error::OutOfMemory)
    ));
    assert_eq!(table.procs[0].state, PROC_UNUSED);
}

#[test]
fn create_process_needs_exactly_its_pages() {
    // Root, level-1 and level-0 table for the kernel's four pages.
    let mut table = ProcTable::new();
    let mut mem = PhysMem::new(FREE_RAM, 3 * 4096);
    assert_eq!(table.create_process(&mut mem, KERNEL_BASE, FREE_RAM_END, None, 0).unwrap(), 0);
    assert_eq!(mem.next_paddr(), mem.end());

    // Plus two image pages and two tables in the low gigabyte.
    let img = image();
    let mut table = ProcTable::new();
    let mut mem = PhysMem::new(FREE_RAM, 7 * 4096);
    assert_eq!(table.create_process(&mut mem, KERNEL_BASE, FREE_RAM_END, Some(&img), 0).unwrap(), 0);
    let mut table = ProcTable::new();
    let mut mem = PhysMem::new(FREE_RAM, 6 * 4096);
    assert!(matches!(
        table.create_process(&mut mem, KERNEL_BASE, FREE_RAM_END, Some(&img), 0),
        Err(Error::OutOfMemory)
    ));
}

#[test]
fn yield_runs_ready_processes_round_robin() {
    let mut table = ProcTable::new();
    let mut mem = PhysMem::new(FREE_RAM, 64 * 4096);
    let idle = table.create_process(&mut mem, KERNEL_BASE, FREE_RAM_END, None, 0).unwrap();
    table.set_idle(idle);
    assert_eq!(table.procs[idle].pid, -1);
    assert_eq!((table.idle, table.current), (idle, idle));
    let a = table.create_process(&mut mem, KERNEL_BASE, FREE_RAM_END, None, 0).unwrap();
    let b = table.create_process(&mut mem, KERNEL_BASE, FREE_RAM_END, None, 0).unwrap();
    assert_eq!((a, b), (1, 2));

    let s = table.yield_proc().unwrap();
    assert_eq!((s.prev, s.next), (idle, a));
    assert_eq!(s.satp, (table.procs[a].page_table / 4096) | SATP_SV39);
    assert_eq!(s.sscratch, 8192);
    assert_eq!(table.current, a);

    let s = table.yield_proc().unwrap();
    assert_eq!((s.prev, s.next), (a, b));

    let s = table.yield_proc().unwrap();
    assert_eq!((s.prev, s.next), (b, a));

    table.exit_current();
    assert_eq!(table.procs[a].state, PROC_EXITED);
    let s = table.yield_proc().unwrap();
    assert_eq!((s.prev, s.next), (a, b));

    // Only b is runnable: it keeps running.
    assert!(table.yield_proc().is_none());
    assert_eq!(table.current, b);

    table.exit_current();
    let s = table.yield_proc().unwrap();
    assert_eq!((s.prev, s.next), (b, idle));
    for _ in 3..8 {
        table.create_process(&mut mem, KERNEL_BASE, FREE_RAM_END, None, 0).unwrap();
    }
    assert!(!table.has_unused_slot());
}
