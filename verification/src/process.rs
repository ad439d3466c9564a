use vstd::prelude::*;
use crate::constants::{PROCS_MAX, PROC_EXITED, PROC_READY, PROC_UNUSED, SATP_SV39, USER_BASE};
use crate::elf::{image_bytes, image_ok, image_pages, ElfHeader};
use crate::error::Error;
use crate::mem::{alloc_pages, MemView, PhysMem};
use crate::paging::{
    l0_set,
    l1_set,
    lemma_fresh_table,
    leaf_pte,
    map_page,
    page_need,
    page_zero,
    pt_avoids,
    pt_view,
    pt_wf,
    tables_needed_for,
    vpn,
    vpn1,
    vpn2,
};

verus! {

/// Size in bytes of a process's kernel stack.
pub const KERNEL_STACK_SIZE: usize = 8192;

/// Saved stack pointer of a new process, as an offset into its kernel stack:
/// thirteen words (`ra` and `s0`..`s11`) below the top.
pub const INITIAL_SP: u64 = 8088;

/// Entry flags of the kernel's identity mapping.
pub const KERNEL_PAGE_FLAGS: u64 = 14;

/// Entry flags of a user image page.
pub const USER_PAGE_FLAGS: u64 = 30;

/// A process slot: its id, its state, its saved kernel stack pointer (an offset
/// into `stack`), the physical address of its root page table, and its kernel stack.
#[derive(Clone, Copy, Debug)]
pub struct Process {
    pub pid: i64,
    pub state: i64,
    pub sp: u64,
    pub page_table: u64,
    pub stack: [u8; 8192],
}

impl Process {
    /// An unused slot.
    pub fn new() -> (p: Process)
        ensures
            p.pid == 0,
            p.state == PROC_UNUSED,
            p.sp == 0,
            p.page_table == 0,
            p.stack@ == Seq::new(8192, |k: int| 0u8),
    {
        let p = Process { pid: 0, state: PROC_UNUSED, sp: 0, page_table: 0, stack: [0u8; 8192] };
        assert(p.stack@ =~= Seq::new(8192, |k: int| 0u8));
        p
    }
}

/// `p` is a slot as `Process::new` makes it: unused, with id 0, no stack
/// pointer, no page table and a zeroed kernel stack.
pub open spec fn fresh_slot(p: Process) -> bool {
    &&& p.pid == 0
    &&& p.state == PROC_UNUSED
    &&& p.sp == 0
    &&& p.page_table == 0
    &&& p.stack@ == Seq::new(8192, |k: int| 0u8)
}

/// Byte `n` of the little-endian encoding of `w`.
pub open spec fn word_byte(w: u64, n: int) -> u8 {
    ((w >> (8 * n) as u64) & 0xff) as u8
}

/// The kernel stack of a new process: the first context switch into it pops
/// `ra = entry` and twelve zero callee-saved registers from its top.
pub open spec fn initial_stack(s: Seq<u8>, entry: u64) -> Seq<u8> {
    Seq::new(
        8192,
        |k: int|
            if k < 8088 {
                s[k]
            } else if k < 8096 {
                word_byte(entry, k - 8088)
            } else {
                0u8
            },
    )
}

/// `n` consecutive pages from virtual `va` mapped to physical `pa` with
/// `flags`, added to `m` one after another.
pub open spec fn mapped_range(m: Map<u64, u64>, va: int, pa: int, n: nat, flags: u64) -> Map<
    u64,
    u64,
>
    decreases n,
{
    if n == 0 {
        m
    } else {
        mapped_range(m, va, pa, (n - 1) as nat, flags).insert(
            vpn((va + 4096 * (n - 1)) as u64),
            leaf_pte((pa + 4096 * (n - 1)) as u64, flags),
        )
    }
}

/// Pages from `kernel_base` up to `free_ram_end` (rounded up) that every
/// address space maps one to one.
pub open spec fn kernel_page_count(kernel_base: int, free_ram_end: int) -> nat {
    if free_ram_end <= kernel_base {
        0
    } else {
        ((free_ram_end - kernel_base + 4095) / 4096) as nat
    }
}

/// The address space of a new process: the kernel identity mapping, then
/// `user_pages` image pages at `USER_BASE` backed by physical pages from `page`.
pub open spec fn process_space(
    kernel_base: int,
    free_ram_end: int,
    page: int,
    user_pages: nat,
) -> Map<u64, u64> {
    mapped_range(
        mapped_range(
            Map::empty(),
            kernel_base,
            kernel_base,
            kernel_page_count(kernel_base, free_ram_end),
            KERNEL_PAGE_FLAGS,
        ),
        USER_BASE as int,
        page,
        user_pages,
        USER_PAGE_FLAGS,
    )
}

/// Virtual address of page `k` of a run of pages from `va`.
pub open spec fn page_at(va: int, k: int) -> u64 {
    (va + 4096 * k) as u64
}

/// Root slots that hold tables after mapping the first `n` pages from `va`,
/// starting from the slots in `l1`.
pub open spec fn l1_after(l1: Set<int>, va: int, n: nat) -> Set<int>
    decreases n,
{
    if n == 0 {
        l1
    } else {
        l1_after(l1, va, (n - 1) as nat).insert(vpn2(page_at(va, n - 1)) as int)
    }
}

/// Level-1 slots that hold tables after mapping the first `n` pages from `va`,
/// starting from the slots in `l0`.
pub open spec fn l0_after(l0: Set<(int, int)>, va: int, n: nat) -> Set<(int, int)>
    decreases n,
{
    if n == 0 {
        l0
    } else {
        l0_after(l0, va, (n - 1) as nat).insert(
            (vpn2(page_at(va, n - 1)) as int, vpn1(page_at(va, n - 1)) as int),
        )
    }
}

/// Table pages that mapping the first `n` pages from `va`, one after another,
/// allocates when the slots in `l1` and `l0` already hold tables.
pub open spec fn map_cost(l1: Set<int>, l0: Set<(int, int)>, va: int, n: nat) -> int
    decreases n,
{
    if n == 0 {
        0
    } else {
        map_cost(l1, l0, va, (n - 1) as nat) + page_need(
            l1_after(l1, va, (n - 1) as nat),
            l0_after(l0, va, (n - 1) as nat),
            page_at(va, n - 1),
        )
    }
}

/// Mapping more pages never costs less.
proof fn lemma_map_cost_grows(l1: Set<int>, l0: Set<(int, int)>, va: int, k: nat, n: nat)
    requires
        k <= n,
    ensures
        0 <= map_cost(l1, l0, va, k) <= map_cost(l1, l0, va, n),
    decreases n,
{
    if n > k {
        lemma_map_cost_grows(l1, l0, va, k, (n - 1) as nat);
    } else if n > 0 {
        lemma_map_cost_grows(l1, l0, va, (n - 1) as nat, (n - 1) as nat);
    }
}

/// Maps `n` consecutive pages, `va + 4096 k` to `pa + 4096 k`, failing with
/// `OutOfMemory` when the allocator cannot supply a table.
fn map_range(mem: &mut PhysMem, t2: u64, va: u64, pa: u64, n: u64, flags: u64) -> (r: Result<
    (),
    Error,
>)
    requires
        old(mem)@.wf(),
        pt_wf(old(mem)@, t2 as int),
        va % 4096 == 0,
        pa % 4096 == 0,
        va + 4096 * n <= u64::MAX,
        pa + 4096 * n <= u64::MAX,
    ensures
        final(mem)@.wf(),
        pt_wf(final(mem)@, t2 as int),
        final(mem)@.base == old(mem)@.base,
        final(mem)@.bytes.len() == old(mem)@.bytes.len(),
        old(mem)@.next <= final(mem)@.next,
        r is Ok <==> old(mem)@.next + 4096 * map_cost(
            l1_set(old(mem)@, t2 as int),
            l0_set(old(mem)@, t2 as int),
            va as int,
            n as nat,
        ) <= old(mem)@.end(),
        match r {
            Ok(_) => {
                &&& pt_view(final(mem)@, t2 as int) == mapped_range(
                    pt_view(old(mem)@, t2 as int),
                    va as int,
                    pa as int,
                    n as nat,
                    flags,
                )
                &&& final(mem)@.next == old(mem)@.next + 4096 * map_cost(
                    l1_set(old(mem)@, t2 as int),
                    l0_set(old(mem)@, t2 as int),
                    va as int,
                    n as nat,
                )
                &&& l1_set(final(mem)@, t2 as int) == l1_after(
                    l1_set(old(mem)@, t2 as int),
                    va as int,
                    n as nat,
                )
                &&& l0_set(final(mem)@, t2 as int) == l0_after(
                    l0_set(old(mem)@, t2 as int),
                    va as int,
                    n as nat,
                )
            },
            Err(e) => e is OutOfMemory,
        },
        forall|lo: int, hi: int|
            #[trigger] pt_avoids(old(mem)@, t2 as int, lo, hi) && hi <= old(mem)@.next ==> pt_avoids(
                final(mem)@,
                t2 as int,
                lo,
                hi,
            ) && MemView::agree_on(old(mem)@, final(mem)@, lo, hi),
{
    let ghost m0 = mem@;
    let ghost l1 = l1_set(m0, t2 as int);
    let ghost l0 = l0_set(m0, t2 as int);
    let mut k: u64 = 0;
    while k < n
        invariant
            k <= n,
            m0 == old(mem)@,
            l1 == l1_set(m0, t2 as int),
            l0 == l0_set(m0, t2 as int),
            m0.wf(),
            mem@.wf(),
            pt_wf(mem@, t2 as int),
            mem@.base == m0.base,
            mem@.bytes.len() == m0.bytes.len(),
            mem@.next == m0.next + 4096 * map_cost(l1, l0, va as int, k as nat),
            l1_set(mem@, t2 as int) == l1_after(l1, va as int, k as nat),
            l0_set(mem@, t2 as int) == l0_after(l0, va as int, k as nat),
            va % 4096 == 0,
            pa % 4096 == 0,
            va + 4096 * n <= u64::MAX,
            pa + 4096 * n <= u64::MAX,
            pt_view(mem@, t2 as int) == mapped_range(
                pt_view(m0, t2 as int),
                va as int,
                pa as int,
                k as nat,
                flags,
            ),
            forall|lo: int, hi: int|
                #[trigger] pt_avoids(m0, t2 as int, lo, hi) && hi <= m0.next ==> pt_avoids(
                    mem@,
                    t2 as int,
                    lo,
                    hi,
                ) && MemView::agree_on(m0, mem@, lo, hi),
        decreases n - k,
    {
        proof {
            lemma_map_cost_grows(l1, l0, va as int, k as nat, n as nat);
            lemma_map_cost_grows(l1, l0, va as int, (k + 1) as nat, n as nat);
        }
        let v: u64 = va + 4096 * k;
        let p: u64 = pa + 4096 * k;
        let need: u64 = tables_needed_for(mem, t2, v);
        let next: u64 = mem.next_paddr();
        let end: u64 = mem.end();
        assert(need <= 2);
        if end - next < 4096 * need {
            proof {
                assert(v == page_at(va as int, k as int));
                assert(map_cost(l1, l0, va as int, (k + 1) as nat) == map_cost(
                    l1,
                    l0,
                    va as int,
                    k as nat,
                ) + need);
            }
            return Err(Error::OutOfMemory);
        }
        let ghost before = mem@;
        proof {
            assert((va + 4096 * k) % 4096 == 0) by {
                vstd::arithmetic::div_mod::lemma_mod_multiples_vanish(k as int, va as int, 4096);
            }
            assert((pa + 4096 * k) % 4096 == 0) by {
                vstd::arithmetic::div_mod::lemma_mod_multiples_vanish(k as int, pa as int, 4096);
            }
        }
        map_page(mem, t2, v, p, flags);
        proof {
            assert(v == page_at(va as int, k as int));
            assert(map_cost(l1, l0, va as int, (k + 1) as nat) == map_cost(
                l1,
                l0,
                va as int,
                k as nat,
            ) + need);
            assert forall|lo: int, hi: int|
                #[trigger] pt_avoids(m0, t2 as int, lo, hi) && hi <= m0.next implies pt_avoids(
                mem@,
                t2 as int,
                lo,
                hi,
            ) && MemView::agree_on(m0, mem@, lo, hi) by {
                assert(pt_avoids(before, t2 as int, lo, hi));
            }
        }
        k = k + 1;
    }
    proof {
        lemma_map_cost_grows(l1, l0, va as int, 0, n as nat);
    }
    Ok(())
}

/// Writes the initial context of a new process at the top of its kernel stack.
fn init_stack(stack: &mut [u8; 8192], entry: u64)
    ensures
        final(stack)@ == initial_stack(old(stack)@, entry),
{
    let mut k: usize = 8088;
    while k < 8192
        invariant
            8088 <= k <= 8192,
            stack@.len() == 8192,
            forall|j: int|
                0 <= j < 8192 ==> #[trigger] stack@[j] == if j < 8088 || j >= k {
                    old(stack)@[j]
                } else if j < 8096 {
                    word_byte(entry, j - 8088)
                } else {
                    0u8
                },
        decreases 8192 - k,
    {
        if k < 8096 {
            stack[k] = ((entry >> ((8 * (k - 8088)) as u64)) & 0xff) as u8;
        } else {
            stack[k] = 0u8;
        }
        k = k + 1;
    }
    assert(stack@ =~= initial_stack(old(stack)@, entry));
}

/// A table that is well formed lies below the bump pointer.
proof fn lemma_wf_avoids_above(m: MemView, t2: int, hi: int)
    requires
        pt_wf(m, t2),
    ensures
        pt_avoids(m, t2, m.next, hi),
{
}

/// Allocates the image's pages, copies its segments there and maps them at
/// `USER_BASE` in the table at `pt`; returns the physical address of the pages.
fn load_image(mem: &mut PhysMem, pt: u64, h: &ElfHeader, img: &[u8], count: u64, size: u64) -> (r:
    Result<u64, Error>)
    requires
        old(mem)@.wf(),
        pt_wf(old(mem)@, pt as int),
        old(mem)@.end() + USER_BASE <= u64::MAX,
        h.parsed_from(img@),
        h.segments_in(img@),
        size == h.segments(img@, h.e_phnum as nat).len(),
    ensures
        final(mem)@.wf(),
        pt_wf(final(mem)@, pt as int),
        final(mem)@.base == old(mem)@.base,
        final(mem)@.bytes.len() == old(mem)@.bytes.len(),
        old(mem)@.next <= final(mem)@.next,
        r is Ok <==> old(mem)@.next + 4096 * count + 4096 * map_cost(
            l1_set(old(mem)@, pt as int),
            l0_set(old(mem)@, pt as int),
            USER_BASE as int,
            count as nat,
        ) <= old(mem)@.end() && old(mem)@.next + size <= old(mem)@.end(),
        match r {
            Ok(page) => {
                &&& page == old(mem)@.next
                &&& final(mem)@.next == old(mem)@.next + 4096 * count + 4096 * map_cost(
                    l1_set(old(mem)@, pt as int),
                    l0_set(old(mem)@, pt as int),
                    USER_BASE as int,
                    count as nat,
                )
                &&& l1_set(final(mem)@, pt as int) == l1_after(
                    l1_set(old(mem)@, pt as int),
                    USER_BASE as int,
                    count as nat,
                )
                &&& l0_set(final(mem)@, pt as int) == l0_after(
                    l0_set(old(mem)@, pt as int),
                    USER_BASE as int,
                    count as nat,
                )
                &&& pt_view(final(mem)@, pt as int) == mapped_range(
                    pt_view(old(mem)@, pt as int),
                    USER_BASE as int,
                    page as int,
                    count as nat,
                    USER_PAGE_FLAGS,
                )
                &&& forall|k: int|
                    0 <= k < size && k < 4096 * count ==> #[trigger] final(mem)@.byte(page + k) == h.segments(
                        img@,
                        h.e_phnum as nat,
                    )[k]
            },
            Err(e) => e is OutOfMemory,
        },
        forall|lo: int, hi: int|
            #[trigger] pt_avoids(old(mem)@, pt as int, lo, hi) && hi <= old(mem)@.next ==> pt_avoids(
                final(mem)@,
                pt as int,
                lo,
                hi,
            ) && MemView::agree_on(old(mem)@, final(mem)@, lo, hi),
{
    let ghost m0 = mem@;
    proof {
        lemma_map_cost_grows(l1_set(m0, pt as int), l0_set(m0, pt as int), USER_BASE as int, 0, count as nat);
    }
    let next: u64 = mem.next_paddr();
    let end: u64 = mem.end();
    let bytes: u64 = match count.checked_mul(4096) {
        Some(b) => b,
        None => {
            assert(count * 4096 > u64::MAX);
            return Err(Error::OutOfMemory);
        },
    };
    assert(bytes == 4096 * count);
    if end - next < bytes {
        return Err(Error::OutOfMemory);
    }
    let page: u64 = alloc_pages(mem, count);
    let ghost m1 = mem@;
    proof {
        assert(MemView::agree_below(m0, m1, m0.next));
        crate::paging::lemma_pt_frame(m0, m1, pt as int, m0.next);
        assert forall|lo: int, hi: int|
            #[trigger] pt_avoids(m0, pt as int, lo, hi) && hi <= m0.next implies pt_avoids(
            m1,
            pt as int,
            lo,
            hi,
        ) && MemView::agree_on(m0, m1, lo, hi) by {}
        lemma_wf_avoids_above(m0, pt as int, page + 4096 * count);
    }
    match h.load(img, mem, page) {
        Ok(_) => {},
        Err(_) => {
            return Err(Error::OutOfMemory);
        },
    }
    let ghost m2 = mem@;
    proof {
        let segs = h.segments(img@, h.e_phnum as nat);
        let o = page - m1.base;
        assert forall|k: int| 0 <= k < o && k < m1.bytes.len() implies #[trigger] m2.bytes[k]
            == m1.bytes[k] by {
            assert(m2.bytes[k] == m1.bytes.subrange(0, o)[k]);
        }
        assert forall|k: int| 0 <= k < size implies #[trigger] m2.byte(page + k) == segs[k] by {
            assert(m2.bytes[o + k] == (m1.bytes.subrange(0, o) + segs)[o + k]);
        }
        assert(MemView::agree_below(m1, m2, page as int));
        crate::paging::lemma_pt_frame(m1, m2, pt as int, page as int);
        assert forall|lo: int, hi: int|
            #[trigger] pt_avoids(m0, pt as int, lo, hi) && hi <= m0.next implies pt_avoids(
            m2,
            pt as int,
            lo,
            hi,
        ) && MemView::agree_on(m0, m2, lo, hi) by {
            assert(pt_avoids(m1, pt as int, lo, hi));
        }
    }
    let res: Result<(), Error> = map_range(mem, pt, USER_BASE, page, count, USER_PAGE_FLAGS);
    proof {
        assert(pt_avoids(m2, pt as int, page as int, page + 4096 * count));
        assert forall|lo: int, hi: int|
            #[trigger] pt_avoids(m0, pt as int, lo, hi) && hi <= m0.next implies pt_avoids(
            mem@,
            pt as int,
            lo,
            hi,
        ) && MemView::agree_on(m0, mem@, lo, hi) by {
            assert(pt_avoids(m2, pt as int, lo, hi));
        }
    }
    match res {
        Ok(_) => Ok(page),
        Err(e) => Err(e),
    }
}

/// Pages that a process image occupies; none without an image.
pub open spec fn image_page_count(image: Option<&[u8]>) -> nat {
    match image {
        Some(img) => image_pages(img@) as nat,
        None => 0,
    }
}

/// Bytes that loading a process image copies; none without an image.
pub open spec fn image_load_size(image: Option<&[u8]>) -> int {
    match image {
        Some(img) => image_bytes(img@).len() as int,
        None => 0,
    }
}

/// The table at `pt` maps the process address space with the image pages at
/// physical `page`, and those pages hold the image's segments (as far as
/// both the segments and the pages reach).
pub open spec fn space_loaded(
    m: MemView,
    pt: int,
    kernel_base: int,
    free_ram_end: int,
    page: int,
    image: Option<&[u8]>,
) -> bool {
    &&& pt_view(m, pt) == process_space(kernel_base, free_ram_end, page, image_page_count(image))
    &&& match image {
        Some(img) => forall|k: int|
            0 <= k < image_bytes(img@).len() && k < 4096 * image_page_count(image) ==> #[trigger] m.byte(
                page + k,
            ) == image_bytes(img@)[k],
        None => true,
    }
}

/// Table pages that the kernel's identity mapping takes in a fresh table.
pub open spec fn kernel_tables(kernel_base: int, free_ram_end: int) -> int {
    map_cost(
        Set::empty(),
        Set::empty(),
        kernel_base,
        kernel_page_count(kernel_base, free_ram_end),
    )
}

/// Table pages that mapping the image pages takes after the kernel's mapping.
pub open spec fn user_tables(kernel_base: int, free_ram_end: int, image: Option<&[u8]>) -> int {
    let n = kernel_page_count(kernel_base, free_ram_end);
    map_cost(
        l1_after(Set::empty(), kernel_base, n),
        l0_after(Set::empty(), kernel_base, n),
        USER_BASE as int,
        image_page_count(image),
    )
}

/// Memory from the bump pointer of `m` suffices for a new process: its root
/// table, the kernel's tables, the image pages and their tables, and room for
/// the image's bytes where its pages start.
pub open spec fn process_fits(
    m: MemView,
    kernel_base: int,
    free_ram_end: int,
    image: Option<&[u8]>,
) -> bool {
    &&& m.next + 4096 + 4096 * kernel_tables(kernel_base, free_ram_end) + 4096 * image_page_count(
        image,
    ) + 4096 * user_tables(kernel_base, free_ram_end, image) <= m.end()
    &&& m.next + 4096 + 4096 * kernel_tables(kernel_base, free_ram_end) + image_load_size(image)
        <= m.end()
}

/// Pages that building a process takes from the bump pointer: its root table,
/// the kernel's tables, the image pages and the tables that map them.
pub open spec fn process_pages(kernel_base: int, free_ram_end: int, image: Option<&[u8]>) -> int {
    1 + kernel_tables(kernel_base, free_ram_end) + image_page_count(image) + user_tables(
        kernel_base,
        free_ram_end,
        image,
    )
}

/// Where a new process's image pages start: right after its root table and
/// the kernel's tables, taken from the bump pointer of `m`.
pub open spec fn image_page_at(m: MemView, kernel_base: int, free_ram_end: int) -> int {
    m.next + 4096 * (1 + kernel_tables(kernel_base, free_ram_end))
}

/// The parsed image, its page count and its packed size: the checks that
/// `create_process` makes before it takes any memory.
fn check_image<'a>(image: Option<&'a [u8]>) -> (r: Result<Option<(&'a [u8], ElfHeader, u64, u64)>, Error>)
    ensures
        r is Err <==> (image matches Some(img) && !image_ok(img@)),
        match r {
            Ok(loaded) => loaded_matches(image, loaded),
            Err(e) => e is InvalidElf,
        },
{
    match image {
        None => Ok(None),
        Some(img) => {
            let h: ElfHeader = match ElfHeader::new(img) {
                Ok(h) => h,
                Err(e) => {
                    return Err(e);
                },
            };
            let count: usize = match h.count_page(img) {
                Ok(c) => c,
                Err(e) => {
                    assert(h.parsed_from(img@));
                    return Err(e);
                },
            };
            let size: u64 = match h.packed_size(img) {
                Some(t) => t,
                None => {
                    assert(h.parsed_from(img@));
                    return Err(Error::InvalidElf);
                },
            };
            proof {
                assert forall|h2: ElfHeader| #[trigger] h2.parsed_from(img@) implies {
                    &&& h2.count_page_ok(img@)
                    &&& h2.segments_in(img@)
                    &&& h2.segments(img@, h2.e_phnum as nat).len() <= u64::MAX
                } by {
                    assert(h2.e_phoff == h.e_phoff);
                    assert(h2.e_phnum == h.e_phnum);
                    assert forall|i: int| 0 <= i < h2.e_phnum implies #[trigger] h2.seg_end(img@, i)
                        <= u64::MAX by {
                        assert(h.seg_end(img@, i) <= u64::MAX);
                    }
                    assert forall|i: int| 0 <= i < h2.e_phnum implies #[trigger] h2.phdr(img@, i).p_offset
                        + h2.phdr(img@, i).p_filesz <= img@.len() by {
                        assert(h.phdr(img@, i).p_offset + h.phdr(img@, i).p_filesz <= img@.len());
                    }
                }
            }
            Ok(Some((img, h, count as u64, size)))
        },
    }
}

/// `loaded` is what `check_image` makes of `image`.
pub open spec fn loaded_matches(image: Option<&[u8]>, loaded: Option<(&[u8], ElfHeader, u64, u64)>) -> bool {
    match loaded {
        Some((img, h, count, size)) => {
            &&& image == Some(img)
            &&& image_ok(img@)
            &&& h.parsed_from(img@)
            &&& h.segments_in(img@)
            &&& size == h.segments(img@, h.e_phnum as nat).len()
            &&& count == image_page_count(image)
            &&& size == image_load_size(image)
        },
        None => image is None,
    }
}

/// Allocates a root table, maps the kernel one to one and loads the image;
/// returns the root table's physical address.
fn build_space(
    mem: &mut PhysMem,
    kernel_base: u64,
    free_ram_end: u64,
    image: Option<&[u8]>,
    loaded: Option<(&[u8], ElfHeader, u64, u64)>,
) -> (r: Result<(u64, u64), Error>)
    requires
        old(mem)@.wf(),
        kernel_base % 4096 == 0,
        free_ram_end + 4096 <= u64::MAX,
        old(mem)@.end() + USER_BASE <= u64::MAX,
        loaded_matches(image, loaded),
    ensures
        final(mem)@.wf(),
        final(mem)@.base == old(mem)@.base,
        final(mem)@.bytes.len() == old(mem)@.bytes.len(),
        MemView::agree_on(old(mem)@, final(mem)@, old(mem)@.base, old(mem)@.next),
        r is Ok <==> process_fits(old(mem)@, kernel_base as int, free_ram_end as int, image),
        match r {
            Ok((pt, page)) => {
                &&& pt == old(mem)@.next
                &&& page == image_page_at(old(mem)@, kernel_base as int, free_ram_end as int)
                &&& final(mem)@.next == old(mem)@.next + 4096 * process_pages(
                    kernel_base as int,
                    free_ram_end as int,
                    image,
                )
                &&& pt_wf(final(mem)@, pt as int)
                &&& space_loaded(
                    final(mem)@,
                    pt as int,
                    kernel_base as int,
                    free_ram_end as int,
                    page as int,
                    image,
                )
            },
            Err(e) => e is OutOfMemory,
        },
{
    let ghost m0 = mem@;
    proof {
        let n = kernel_page_count(kernel_base as int, free_ram_end as int);
        lemma_map_cost_grows(Set::empty(), Set::empty(), kernel_base as int, 0, n);
        lemma_map_cost_grows(
            l1_after(Set::empty(), kernel_base as int, n),
            l0_after(Set::empty(), kernel_base as int, n),
            USER_BASE as int,
            0,
            image_page_count(image),
        );
    }
    // The root table.
    let next: u64 = mem.next_paddr();
    let end: u64 = mem.end();
    if end - next < 4096 {
        return Err(Error::OutOfMemory);
    }
    let page_table: u64 = alloc_pages(mem, 1);
    let ghost m1 = mem@;
    proof {
        assert(page_zero(m1, page_table as int));
        lemma_fresh_table(m1, page_table as int);
        assert(pt_avoids(m1, page_table as int, m0.base, m0.next));
        assert(MemView::agree_on(m0, m1, m0.base, m0.next));
    }
    // The kernel's identity mapping.
    let nk: u64 = if free_ram_end <= kernel_base {
        0
    } else {
        (free_ram_end - kernel_base + 4095) / 4096
    };
    proof {
        if free_ram_end > kernel_base {
            let x: int = free_ram_end - kernel_base + 4095;
            vstd::arithmetic::div_mod::lemma_fundamental_div_mod(x, 4096);
            assert(4096 * (x / 4096) <= x) by (nonlinear_arith)
                requires
                    x == 4096 * (x / 4096) + x % 4096,
                    0 <= x % 4096,
            ;
            assert(kernel_base + 4096 * nk <= u64::MAX);
        }
        assert(nk == kernel_page_count(kernel_base as int, free_ram_end as int));
    }
    match map_range(mem, page_table, kernel_base, kernel_base, nk, KERNEL_PAGE_FLAGS) {
        Ok(_) => {},
        Err(e) => {
            proof {
                assert(pt_avoids(m1, page_table as int, m0.base, m0.next));
            }
            return Err(e);
        },
    }
    let ghost m2 = mem@;
    proof {
        assert(pt_avoids(m1, page_table as int, m0.base, m0.next));
        assert(MemView::agree_on(m0, m2, m0.base, m0.next));
    }
    // The image.
    let next_page: u64 = mem.next_paddr();
    match loaded {
        None => {
            proof {
                assert(space_loaded(
                    m2,
                    page_table as int,
                    kernel_base as int,
                    free_ram_end as int,
                    next_page as int,
                    image,
                ));
            }
            Ok((page_table, next_page))
        },
        Some((img, h, count, size)) => {
            match load_image(mem, page_table, &h, img, count, size) {
                Ok(pg) => {
                    proof {
                        assert(pt_avoids(m2, page_table as int, m0.base, m0.next));
                        assert(space_loaded(
                            mem@,
                            page_table as int,
                            kernel_base as int,
                            free_ram_end as int,
                            pg as int,
                            image,
                        ));
                    }
                    Ok((page_table, pg))
                },
                Err(e) => {
                    proof {
                        assert(pt_avoids(m2, page_table as int, m0.base, m0.next));
                    }
                    Err(e)
                },
            }
        },
    }
}

/// The process in this slot may be scheduled.
pub open spec fn runnable(p: Process) -> bool {
    p.state == PROC_READY && p.pid > 0
}

/// The slot that the scheduler looks at in step `i` of a round that starts
/// after the process with id `pid`.
pub open spec fn candidate(pid: i64, i: int) -> int {
    (pid + i) % (PROCS_MAX as int)
}

/// The first runnable slot among the first `n` steps of the round.
pub open spec fn first_runnable(procs: Seq<Process>, pid: i64, n: nat) -> Option<int>
    decreases n,
{
    if n == 0 {
        None
    } else {
        match first_runnable(procs, pid, (n - 1) as nat) {
            Some(k) => Some(k),
            None => if runnable(procs[candidate(pid, n - 1)]) {
                Some(candidate(pid, n - 1))
            } else {
                None
            },
        }
    }
}

/// The slot that runs after the current one yields: the first runnable slot in
/// round-robin order, or the idle process when none is.
pub open spec fn scheduled_next(t: ProcTable) -> int {
    match first_runnable(t.procs@, t.procs@[t.current as int].pid, PROCS_MAX as nat) {
        Some(k) => k,
        None => t.idle as int,
    }
}

/// The `satp` value that selects the Sv39 table rooted at `page_table`.
pub open spec fn satp_of(page_table: u64) -> u64 {
    (page_table / 4096u64) | SATP_SV39
}

/// A context switch for the caller to carry out: from slot `prev` to slot
/// `next`, whose address space `satp` selects and whose kernel stack top
/// `sscratch` receives.
#[derive(Clone, Copy, Debug)]
pub struct Switch {
    pub prev: usize,
    pub next: usize,
    pub satp: u64,
    /// Value for `sscratch`: the top of the next process's kernel stack, as an
    /// offset into that stack (where `sp` offsets point too).
    pub sscratch: u64,
}

/// The scheduler's round: what it picks is runnable and comes first among the
/// runnable slots in round-robin order, and it picks nothing only when no
/// slot is runnable.
pub proof fn lemma_round_robin(procs: Seq<Process>, pid: i64)
    requires
        procs.len() == PROCS_MAX,
    ensures
        match first_runnable(procs, pid, PROCS_MAX as nat) {
            Some(k) => {
                &&& 0 <= k < PROCS_MAX
                &&& runnable(procs[k])
                &&& exists|i: int|
                    0 <= i < PROCS_MAX && k == candidate(pid, i) && forall|j: int|
                        0 <= j < i ==> !runnable(#[trigger] procs[candidate(pid, j)])
            },
            None => forall|k: int| 0 <= k < PROCS_MAX ==> !runnable(#[trigger] procs[k]),
        },
{
    lemma_first_runnable(procs, pid, PROCS_MAX as nat);
    if first_runnable(procs, pid, PROCS_MAX as nat) is None {
        assert forall|k: int| 0 <= k < PROCS_MAX implies !runnable(#[trigger] procs[k]) by {
            let i = (k - pid) % (PROCS_MAX as int);
            assert(candidate(pid, i) == k);
        }
    }
}

proof fn lemma_first_runnable(procs: Seq<Process>, pid: i64, n: nat)
    requires
        procs.len() == PROCS_MAX,
    ensures
        match first_runnable(procs, pid, n) {
            Some(k) => {
                &&& 0 <= k < PROCS_MAX
                &&& runnable(procs[k])
                &&& exists|i: int|
                    0 <= i < n && k == candidate(pid, i) && forall|j: int|
                        0 <= j < i ==> !runnable(#[trigger] procs[candidate(pid, j)])
            },
            None => forall|j: int| 0 <= j < n ==> !runnable(#[trigger] procs[candidate(pid, j)]),
        },
    decreases n,
{
    if n > 0 {
        lemma_first_runnable(procs, pid, (n - 1) as nat);
        if first_runnable(procs, pid, (n - 1) as nat) is None {
            let i = n - 1;
            if runnable(procs[candidate(pid, i)]) {
                assert(0 <= i < n && candidate(pid, i) == candidate(pid, i) && forall|j: int|
                    0 <= j < i ==> !runnable(#[trigger] procs[candidate(pid, j)]));
            }
        }
    }
}

/// Stepping from the round's first slot by `i` gives step `i`'s slot.
proof fn lemma_candidate_step(pid: i64, start: int, i: int)
    requires
        start == candidate(pid, 0),
        0 <= i < PROCS_MAX,
    ensures
        (start + i) % (PROCS_MAX as int) == candidate(pid, i),
        0 <= candidate(pid, i) < PROCS_MAX,
{
    vstd::arithmetic::div_mod::lemma_add_mod_noop(pid as int, i, 8);
    vstd::arithmetic::div_mod::lemma_small_mod(i as nat, 8);
}

/// Once the round finds a runnable slot, later steps keep it.
proof fn lemma_first_runnable_stays(procs: Seq<Process>, pid: i64, n: nat, m: nat)
    requires
        n <= m,
        first_runnable(procs, pid, n) is Some,
    ensures
        first_runnable(procs, pid, m) == first_runnable(procs, pid, n),
    decreases m - n,
{
    if n < m {
        lemma_first_runnable_stays(procs, pid, n, (m - 1) as nat);
    }
}

/// A process that yields runs on only when no other slot is runnable.
pub proof fn lemma_yield_prefers_others(procs: Seq<Process>, c: int)
    requires
        procs.len() == PROCS_MAX,
        0 <= c < PROCS_MAX,
        procs[c].pid == c + 1,
        first_runnable(procs, procs[c].pid, PROCS_MAX as nat) == Some(c),
    ensures
        forall|k: int| 0 <= k < PROCS_MAX && k != c ==> !runnable(#[trigger] procs[k]),
{
    let pid = procs[c].pid;
    lemma_first_runnable(procs, pid, PROCS_MAX as nat);
    let i = choose|i: int|
        0 <= i < PROCS_MAX && c == candidate(pid, i) && forall|j: int|
            0 <= j < i ==> !runnable(#[trigger] procs[candidate(pid, j)]);
    assert(i == 7);
    assert forall|k: int| 0 <= k < PROCS_MAX && k != c implies !runnable(#[trigger] procs[k]) by {
        let j = (k - pid) % (PROCS_MAX as int);
        assert(candidate(pid, j) == k);
    }
}

/// Slot `(pid + i) % 8` sits at position `i` in the cyclic order from `pid`,
/// and slot `s` is the one at position `(s - pid) % 8`.
proof fn lemma_cyclic_position(pid: int, i: int, s: int)
    requires
        0 <= i < 8,
        0 <= s < 8,
    ensures
        ((pid + i) % 8 - pid) % 8 == i,
        0 <= (s - pid) % 8 < 8,
        (pid + (s - pid) % 8) % 8 == s,
{
    let q = (pid + i) / 8;
    vstd::arithmetic::div_mod::lemma_fundamental_div_mod(pid + i, 8);
    assert((pid + i) % 8 - pid == 8 * (-q) + i);
    vstd::arithmetic::div_mod::lemma_mod_multiples_vanish(-q, i, 8);
    vstd::arithmetic::div_mod::lemma_small_mod(i as nat, 8);
    let r = (s - pid) % 8;
    let q2 = (s - pid) / 8;
    vstd::arithmetic::div_mod::lemma_fundamental_div_mod(s - pid, 8);
    assert(pid + r == 8 * (-q2) + s);
    vstd::arithmetic::div_mod::lemma_mod_multiples_vanish(-q2, s, 8);
    vstd::arithmetic::div_mod::lemma_small_mod(s as nat, 8);
}

/// The slot that a yield switches to comes first in cyclic order from the
/// yielding process's id `pid`, where slot `s` comes at position
/// `(s - pid) % 8` (for a process in slot `c` with id `c + 1`, the slot after
/// it first and its own slot last): it holds a ready process with a positive
/// id, and every other such slot comes later. When no slot holds one, the
/// yield switches to the idle process's slot.
pub proof fn lemma_yield_round_robin(t: ProcTable)
    requires
        t.wf(),
    ensures
        ({
            let pid = t.procs@[t.current as int].pid;
            let k = scheduled_next(t);
            &&& (exists|s: int|
                0 <= s < PROCS_MAX && (#[trigger] t.procs@[s]).state == PROC_READY && t.procs@[s].pid
                    > 0) ==> {
                &&& 0 <= k < PROCS_MAX
                &&& t.procs@[k].state == PROC_READY
                &&& t.procs@[k].pid > 0
                &&& forall|s: int|
                    0 <= s < PROCS_MAX && s != k && (#[trigger] t.procs@[s]).state == PROC_READY
                        && t.procs@[s].pid > 0 ==> (s - pid) % (PROCS_MAX as int) > (k - pid) % (
                    PROCS_MAX as int)
            }
            &&& (forall|s: int|
                0 <= s < PROCS_MAX ==> !((#[trigger] t.procs@[s]).state == PROC_READY
                    && t.procs@[s].pid > 0)) ==> k == t.idle
        }),
{
    let procs = t.procs@;
    let pid = procs[t.current as int].pid;
    lemma_round_robin(procs, pid);
    match first_runnable(procs, pid, PROCS_MAX as nat) {
        Some(k) => {
            let i = choose|i: int|
                0 <= i < PROCS_MAX && k == candidate(pid, i) && forall|j: int|
                    0 <= j < i ==> !runnable(#[trigger] procs[candidate(pid, j)]);
            lemma_cyclic_position(pid as int, i, 0);
            assert forall|s: int|
                0 <= s < PROCS_MAX && s != k && (#[trigger] procs[s]).state == PROC_READY && procs[s].pid
                    > 0 implies (s - pid) % (PROCS_MAX as int) > (k - pid) % (PROCS_MAX as int) by {
                lemma_cyclic_position(pid as int, i, s);
                let js = (s - pid) % 8;
                assert(candidate(pid, js) == s);
                if js < i {
                    assert(!runnable(procs[candidate(pid, js)]));
                }
            }
        },
        None => {},
    }
}

/// The process table: `PROCS_MAX` slots, the slot of the idle process, and the
/// slot of the running process.
pub struct ProcTable {
    pub procs: Vec<Process>,
    pub idle: usize,
    pub current: usize,
}

/// Slot `k` is the first unused slot.
pub open spec fn is_first_unused(procs: Seq<Process>, k: int) -> bool {
    &&& 0 <= k < procs.len()
    &&& procs[k].state == PROC_UNUSED
    &&& forall|j: int| 0 <= j < k ==> #[trigger] procs[j].state != PROC_UNUSED
}

/// Some slot is unused.
pub open spec fn has_unused(procs: Seq<Process>) -> bool {
    exists|k: int| 0 <= k < procs.len() && #[trigger] procs[k].state == PROC_UNUSED
}

impl ProcTable {
    pub open spec fn wf(&self) -> bool {
        &&& self.procs@.len() == PROCS_MAX
        &&& self.idle < PROCS_MAX
        &&& self.current < PROCS_MAX
    }

    /// A table of unused slots.
    pub fn new() -> (t: ProcTable)
        ensures
            t.wf(),
            t.idle == 0,
            t.current == 0,
            forall|k: int| 0 <= k < PROCS_MAX ==> fresh_slot(#[trigger] t.procs@[k]),
    {
        let mut procs: Vec<Process> = Vec::new();
        let mut k: usize = 0;
        while k < PROCS_MAX
            invariant
                k <= PROCS_MAX,
                procs@.len() == k,
                forall|j: int| 0 <= j < k ==> fresh_slot(#[trigger] procs@[j]),
            decreases PROCS_MAX - k,
        {
            procs.push(Process::new());
            k = k + 1;
        }
        ProcTable { procs, idle: 0, current: 0 }
    }

    /// Builds a process in the first unused slot: a kernel stack that enters at
    /// `entry`, a fresh page table that maps the kernel one to one from
    /// `kernel_base` to `free_ram_end`, and, with an image, its segments loaded
    /// into fresh pages mapped at `USER_BASE`. Returns the slot.
    pub fn create_process(
        &mut self,
        mem: &mut PhysMem,
        kernel_base: u64,
        free_ram_end: u64,
        image: Option<&[u8]>,
        entry: u64,
    ) -> (r: Result<usize, Error>)
        requires
            old(self).wf(),
            has_unused(old(self).procs@),
            old(mem)@.wf(),
            kernel_base % 4096 == 0,
            free_ram_end + 4096 <= u64::MAX,
            old(mem)@.end() + USER_BASE <= u64::MAX,
        ensures
            final(mem)@.wf(),
            final(mem)@.base == old(mem)@.base,
            final(mem)@.bytes.len() == old(mem)@.bytes.len(),
            MemView::agree_on(old(mem)@, final(mem)@, old(mem)@.base, old(mem)@.next),
            (r matches Err(Error::InvalidElf)) <==> (image matches Some(img) && !image_ok(img@)),
            (r matches Err(Error::OutOfMemory)) <==> (image matches Some(img) ==> image_ok(img@))
                && !process_fits(old(mem)@, kernel_base as int, free_ram_end as int, image),
            match r {
                Ok(slot) => {
                    let p = final(self).procs@[slot as int];
                    &&& final(self).wf()
                    &&& is_first_unused(old(self).procs@, slot as int)
                    &&& final(self).idle == old(self).idle
                    &&& final(self).current == old(self).current
                    &&& final(self).procs@ == old(self).procs@.update(slot as int, p)
                    &&& p.pid == slot + 1
                    &&& p.state == PROC_READY
                    &&& p.sp == INITIAL_SP
                    &&& p.stack@ == initial_stack(old(self).procs@[slot as int].stack@, entry)
                    &&& p.page_table == old(mem)@.next
                    &&& pt_wf(final(mem)@, p.page_table as int)
                    &&& final(mem)@.next == old(mem)@.next + 4096 * process_pages(
                        kernel_base as int,
                        free_ram_end as int,
                        image,
                    )
                    &&& space_loaded(
                        final(mem)@,
                        p.page_table as int,
                        kernel_base as int,
                        free_ram_end as int,
                        image_page_at(old(mem)@, kernel_base as int, free_ram_end as int),
                        image,
                    )
                },
                Err(e) => (e is InvalidElf || e is OutOfMemory) && *final(self) == *old(self),
            },
    {
        let slot: usize = self.find_unused();
        let loaded: Option<(&[u8], ElfHeader, u64, u64)> = match check_image(image) {
            Ok(l) => l,
            Err(e) => {
                return Err(e);
            },
        };
        let (page_table, _image_page): (u64, u64) = match build_space(
            mem,
            kernel_base,
            free_ram_end,
            image,
            loaded,
        ) {
            Ok(r) => r,
            Err(e) => {
                return Err(e);
            },
        };
        let mut p: Process = self.procs[slot];
        init_stack(&mut p.stack, entry);
        p.pid = slot as i64 + 1;
        p.state = PROC_READY;
        p.sp = INITIAL_SP;
        p.page_table = page_table;
        self.procs.set(slot, p);
        Ok(slot)
    }

    /// Slot of the next process to run: the first runnable slot after the
    /// current process in round-robin order, or the idle process.
    fn pick_next(&self) -> (k: usize)
        requires
            self.wf(),
        ensures
            k == scheduled_next(*self),
            k < PROCS_MAX,
    {
        let pid: i64 = self.procs[self.current].pid;
        let start: usize = if pid >= 0 {
            (pid % 8) as usize
        } else {
            (7 - (-(pid + 1)) % 8) as usize
        };
        assert(start == candidate(pid, 0));
        let mut i: usize = 0;
        while i < PROCS_MAX
            invariant
                i <= PROCS_MAX,
                self.wf(),
                pid == self.procs@[self.current as int].pid,
                start == candidate(pid, 0),
                first_runnable(self.procs@, pid, i as nat) is None,
            decreases PROCS_MAX - i,
        {
            let k: usize = (start + i) % PROCS_MAX;
            proof {
                lemma_candidate_step(pid, start as int, i as int);
                assert(first_runnable(self.procs@, pid, (i + 1) as nat) == match first_runnable(
                    self.procs@,
                    pid,
                    i as nat,
                ) {
                    Some(x) => Some(x),
                    None => if runnable(self.procs@[candidate(pid, i as int)]) {
                        Some(candidate(pid, i as int))
                    } else {
                        None
                    },
                });
            }
            if self.procs[k].state == PROC_READY && self.procs[k].pid > 0 {
                proof {
                    lemma_first_runnable_stays(self.procs@, pid, (i + 1) as nat, PROCS_MAX as nat);
                }
                return k;
            }
            i = i + 1;
        }
        self.idle
    }

    /// Gives up the processor: picks the next process in round-robin order (the
    /// idle process when none is runnable) and makes it current. Returns the
    /// switch to carry out, or nothing when the current process runs on.
    pub fn yield_proc(&mut self) -> (r: Option<Switch>)
        requires
            old(self).wf(),
        ensures
            final(self).wf(),
            final(self).procs@ == old(self).procs@,
            final(self).idle == old(self).idle,
            final(self).current == scheduled_next(*old(self)),
            scheduled_next(*old(self)) == old(self).current ==> r is None,
            scheduled_next(*old(self)) != old(self).current ==> r == Some(
                Switch {
                    prev: old(self).current,
                    next: scheduled_next(*old(self)) as usize,
                    satp: satp_of(old(self).procs@[scheduled_next(*old(self))].page_table),
                    sscratch: KERNEL_STACK_SIZE as u64,
                },
            ),
    {
        let next: usize = self.pick_next();
        if next == self.current {
            return None;
        }
        let prev: usize = self.current;
        self.current = next;
        let satp: u64 = (self.procs[next].page_table / 4096) | SATP_SV39;
        Some(Switch { prev, next, satp, sscratch: KERNEL_STACK_SIZE as u64 })
    }

    /// Marks the current process as exited.
    pub fn exit_current(&mut self)
        requires
            old(self).wf(),
        ensures
            final(self).wf(),
            final(self).idle == old(self).idle,
            final(self).current == old(self).current,
            final(self).procs@ == old(self).procs@.update(
                old(self).current as int,
                Process { state: PROC_EXITED, ..old(self).procs@[old(self).current as int] },
            ),
    {
        let mut p: Process = self.procs[self.current];
        p.state = PROC_EXITED;
        self.procs.set(self.current, p);
    }

    /// Makes the process in `slot` the idle process and the running one: it
    /// gets the id -1, so that the scheduler never picks it for a round.
    pub fn set_idle(&mut self, slot: usize)
        requires
            old(self).wf(),
            slot < PROCS_MAX,
        ensures
            final(self).wf(),
            final(self).idle == slot,
            final(self).current == slot,
            final(self).procs@ == old(self).procs@.update(
                slot as int,
                Process { pid: -1i64, ..old(self).procs@[slot as int] },
            ),
    {
        let mut p: Process = self.procs[slot];
        p.pid = -1;
        self.procs.set(slot, p);
        self.idle = slot;
        self.current = slot;
    }

    /// Some slot is unused, so `create_process` has room.
    pub fn has_unused_slot(&self) -> (r: bool)
        requires
            self.wf(),
        ensures
            r == has_unused(self.procs@),
    {
        let mut k: usize = 0;
        while k < PROCS_MAX
            invariant
                k <= PROCS_MAX,
                self.wf(),
                forall|j: int| 0 <= j < k ==> #[trigger] self.procs@[j].state != PROC_UNUSED,
            decreases PROCS_MAX - k,
        {
            if self.procs[k].state == PROC_UNUSED {
                return true;
            }
            k = k + 1;
        }
        false
    }

    /// Index of the first unused slot.
    fn find_unused(&self) -> (k: usize)
        requires
            self.wf(),
            has_unused(self.procs@),
        ensures
            is_first_unused(self.procs@, k as int),
    {
        let mut k: usize = 0;
        while k < PROCS_MAX
            invariant
                k <= PROCS_MAX,
                self.wf(),
                has_unused(self.procs@),
                forall|j: int| 0 <= j < k ==> #[trigger] self.procs@[j].state != PROC_UNUSED,
            decreases PROCS_MAX - k,
        {
            if self.procs[k].state == PROC_UNUSED {
                return k;
            }
            k = k + 1;
        }
        proof {
            let w = choose|w: int| 0 <= w < self.procs@.len() && #[trigger] self.procs@[w].state
                == PROC_UNUSED;
            assert(self.procs@[w].state != PROC_UNUSED);
        }
        0
    }
}

} // verus!
