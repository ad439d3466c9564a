use vstd::prelude::*;

verus! {

/// The 64-bit little-endian word stored at offset `o` of `s`.
pub open spec fn le_u64(s: Seq<u8>, o: int) -> u64 {
    (s[o] as u64) | (s[o + 1] as u64) << 8u64 | (s[o + 2] as u64) << 16u64 | (s[o + 3] as u64)
        << 24u64 | (s[o + 4] as u64) << 32u64 | (s[o + 5] as u64) << 40u64 | (s[o + 6] as u64)
        << 48u64 | (s[o + 7] as u64) << 56u64
}

/// `s` with the little-endian bytes of `v` stored at offsets `o .. o + 8`.
pub open spec fn store_u64(s: Seq<u8>, o: int, v: u64) -> Seq<u8> {
    s.update(o, (v & 0xff) as u8).update(o + 1, ((v >> 8u64) & 0xff) as u8).update(
        o + 2,
        ((v >> 16u64) & 0xff) as u8,
    ).update(o + 3, ((v >> 24u64) & 0xff) as u8).update(o + 4, ((v >> 32u64) & 0xff) as u8).update(
        o + 5,
        ((v >> 40u64) & 0xff) as u8,
    ).update(o + 6, ((v >> 48u64) & 0xff) as u8).update(o + 7, ((v >> 56u64) & 0xff) as u8)
}

/// Mathematical picture of a region of physical RAM: the physical address of its
/// first byte, its contents, and the bump pointer below which pages have been handed out.
pub struct MemView {
    pub base: int,
    pub bytes: Seq<u8>,
    pub next: int,
}

impl MemView {
    /// One past the last physical address of the region.
    pub open spec fn end(self) -> int {
        self.base + self.bytes.len()
    }

    /// The byte at physical address `a`.
    pub open spec fn byte(self, a: int) -> u8 {
        self.bytes[a - self.base]
    }

    /// The little-endian word at physical address `a`.
    pub open spec fn word(self, a: int) -> u64 {
        le_u64(self.bytes, a - self.base)
    }

    /// `[a, a + n)` lies inside the region.
    pub open spec fn contains_range(self, a: int, n: int) -> bool {
        self.base <= a && a + n <= self.end()
    }

    pub open spec fn wf(self) -> bool {
        &&& 0 <= self.base
        &&& self.base % 4096 == 0
        &&& self.next % 4096 == 0
        &&& self.base <= self.next <= self.end()
        &&& self.end() <= u64::MAX
    }

    /// The word at `a` is `v` and no other byte differs from `old`.
    pub open spec fn is_word_write(old: MemView, new: MemView, a: int, v: u64) -> bool {
        &&& new.base == old.base
        &&& new.next == old.next
        &&& new.bytes == store_u64(old.bytes, a - old.base, v)
    }

    /// Both views hold the same bytes at every address in `[lo, hi)`.
    pub open spec fn agree_on(m1: MemView, m2: MemView, lo: int, hi: int) -> bool {
        &&& m1.base == m2.base
        &&& m1.bytes.len() == m2.bytes.len()
        &&& forall|o: int|
            lo - m1.base <= o < hi - m1.base && 0 <= o < m1.bytes.len() ==> #[trigger] m2.bytes[o]
                == m1.bytes[o]
    }

    /// Both views hold the same bytes at every address below `b`.
    pub open spec fn agree_below(m1: MemView, m2: MemView, b: int) -> bool {
        &&& m1.base == m2.base
        &&& m1.bytes.len() == m2.bytes.len()
        &&& forall|o: int| 0 <= o < b - m1.base && o < m1.bytes.len() ==> #[trigger] m2.bytes[o] == m1.bytes[o]
    }
}

/// Reading back a stored word gives the word; words eight or more bytes away are untouched.
pub proof fn lemma_store_u64(s: Seq<u8>, o: int, v: u64, o2: int)
    requires
        0 <= o,
        o + 8 <= s.len(),
        0 <= o2,
        o2 + 8 <= s.len(),
    ensures
        store_u64(s, o, v).len() == s.len(),
        le_u64(store_u64(s, o, v), o) == v,
        (o2 + 8 <= o || o + 8 <= o2) ==> le_u64(store_u64(s, o, v), o2) == le_u64(s, o2),
        forall|k: int| 0 <= k < s.len() && (k < o || o + 8 <= k) ==> #[trigger] store_u64(s, o, v)[k] == s[k],
{
    let t = store_u64(s, o, v);
    assert(t[o] == (v & 0xff) as u8);
    assert(t[o + 1] == ((v >> 8u64) & 0xff) as u8);
    assert(t[o + 2] == ((v >> 16u64) & 0xff) as u8);
    assert(t[o + 3] == ((v >> 24u64) & 0xff) as u8);
    assert(t[o + 4] == ((v >> 32u64) & 0xff) as u8);
    assert(t[o + 5] == ((v >> 40u64) & 0xff) as u8);
    assert(t[o + 6] == ((v >> 48u64) & 0xff) as u8);
    assert(t[o + 7] == ((v >> 56u64) & 0xff) as u8);
    assert((((v & 0xff) as u8) as u64) | (((v >> 8u64) & 0xff) as u8 as u64) << 8u64 | ((
    (v >> 16u64) & 0xff) as u8 as u64) << 16u64 | (((v >> 24u64) & 0xff) as u8 as u64) << 24u64
        | (((v >> 32u64) & 0xff) as u8 as u64) << 32u64 | (((v >> 40u64) & 0xff) as u8 as u64)
        << 40u64 | (((v >> 48u64) & 0xff) as u8 as u64) << 48u64 | (((v >> 56u64) & 0xff) as u8
        as u64) << 56u64 == v) by (bit_vector);
}

/// A word read back after a word write gives the written word; words that do
/// not overlap the written one read as before.
pub proof fn lemma_word_write_read(m1: MemView, m2: MemView, a: int, v: u64, b: int)
    requires
        MemView::is_word_write(m1, m2, a, v),
        m1.contains_range(a, 8),
        m1.contains_range(b, 8),
    ensures
        m2.word(a) == v,
        (b + 8 <= a || a + 8 <= b) ==> m2.word(b) == m1.word(b),
{
    lemma_store_u64(m1.bytes, a - m1.base, v, b - m1.base);
}

/// Two views that agree on eight bytes read the same word there.
pub proof fn lemma_word_agree(m1: MemView, m2: MemView, a: int)
    requires
        m1.base == m2.base,
        m1.base <= a,
        a + 8 <= m1.end(),
        m1.bytes.len() == m2.bytes.len(),
        forall|k: int| a - m1.base <= k < a - m1.base + 8 ==> #[trigger] m2.bytes[k] == m1.bytes[k],
    ensures
        m2.word(a) == m1.word(a),
{
    let o = a - m1.base;
    assert(m2.bytes[o] == m1.bytes[o]);
    assert(m2.bytes[o + 1] == m1.bytes[o + 1]);
    assert(m2.bytes[o + 2] == m1.bytes[o + 2]);
    assert(m2.bytes[o + 3] == m1.bytes[o + 3]);
    assert(m2.bytes[o + 4] == m1.bytes[o + 4]);
    assert(m2.bytes[o + 5] == m1.bytes[o + 5]);
    assert(m2.bytes[o + 6] == m1.bytes[o + 6]);
    assert(m2.bytes[o + 7] == m1.bytes[o + 7]);
}

/// Eight zero bytes read as the word zero.
pub proof fn lemma_zero_word(m: MemView, a: int)
    requires
        m.base <= a,
        a + 8 <= m.end(),
        forall|k: int| a - m.base <= k < a - m.base + 8 ==> #[trigger] m.bytes[k] == 0,
    ensures
        m.word(a) == 0,
{
    let o = a - m.base;
    assert(m.bytes[o] == 0);
    assert(m.bytes[o + 1] == 0);
    assert(m.bytes[o + 2] == 0);
    assert(m.bytes[o + 3] == 0);
    assert(m.bytes[o + 4] == 0);
    assert(m.bytes[o + 5] == 0);
    assert(m.bytes[o + 6] == 0);
    assert(m.bytes[o + 7] == 0);
    assert((0u8 as u64) | (0u8 as u64) << 8u64 | (0u8 as u64) << 16u64 | (0u8 as u64) << 24u64 | (
    0u8 as u64) << 32u64 | (0u8 as u64) << 40u64 | (0u8 as u64) << 48u64 | (0u8 as u64) << 56u64
        == 0) by (bit_vector);
}

/// Free physical RAM: the region `[base, base + len)` and the bump pointer of the page allocator.
pub struct PhysMem {
    base: u64,
    bytes: Vec<u8>,
    next_paddr: u64,
}

impl View for PhysMem {
    type V = MemView;

    closed spec fn view(&self) -> MemView {
        MemView { base: self.base as int, bytes: self.bytes@, next: self.next_paddr as int }
    }
}

impl PhysMem {
    /// A zero-filled region of `size` bytes at physical address `base`, with nothing handed out yet.
    pub fn new(base: u64, size: usize) -> (m: PhysMem)
        requires
            base % 4096 == 0,
            base + size <= u64::MAX,
        ensures
            m@.wf(),
            m@.base == base,
            m@.next == base,
            m@.bytes == Seq::new(size as nat, |i: int| 0u8),
    {
        let mut bytes: Vec<u8> = Vec::new();
        let mut i: usize = 0;
        while i < size
            invariant
                i <= size,
                bytes@ == Seq::new(i as nat, |k: int| 0u8),
            decreases size - i,
        {
            bytes.push(0u8);
            i = i + 1;
        }
        PhysMem { base, bytes, next_paddr: base }
    }

    /// Physical address of the first byte of the region.
    pub fn base(&self) -> (r: u64)
        ensures
            r == self@.base,
    {
        self.base
    }

    /// One past the last physical address of the region.
    pub fn end(&self) -> (r: u64)
        requires
            self@.wf(),
        ensures
            r == self@.end(),
    {
        self.base + self.bytes.len() as u64
    }

    /// The bump pointer: the physical address the next allocation hands out.
    pub fn next_paddr(&self) -> (r: u64)
        ensures
            r == self@.next,
    {
        self.next_paddr
    }

    /// Reads the byte at physical address `paddr`.
    pub fn read_u8(&self, paddr: u64) -> (r: u8)
        requires
            self@.contains_range(paddr as int, 1),
        ensures
            r == self@.byte(paddr as int),
    {
        assert(self.bytes@.len() == self.bytes.len());
        let o: usize = (paddr - self.base) as usize;
        self.bytes[o]
    }

    /// Reads the little-endian word at physical address `paddr`.
    pub fn read_u64(&self, paddr: u64) -> (r: u64)
        requires
            self@.contains_range(paddr as int, 8),
        ensures
            r == self@.word(paddr as int),
    {
        assert(self.bytes@.len() == self.bytes.len());
        let o: usize = (paddr - self.base) as usize;
        (self.bytes[o] as u64) | (self.bytes[o + 1] as u64) << 8u64 | (self.bytes[o + 2] as u64)
            << 16u64 | (self.bytes[o + 3] as u64) << 24u64 | (self.bytes[o + 4] as u64) << 32u64 | (
        self.bytes[o + 5] as u64) << 40u64 | (self.bytes[o + 6] as u64) << 48u64 | (self.bytes[o
            + 7] as u64) << 56u64
    }

    /// Writes `v` as a little-endian word at physical address `paddr`.
    pub fn write_u64(&mut self, paddr: u64, v: u64)
        requires
            old(self)@.contains_range(paddr as int, 8),
        ensures
            MemView::is_word_write(old(self)@, final(self)@, paddr as int, v),
    {
        assert(self.bytes@.len() == self.bytes.len());
        let o: usize = (paddr - self.base) as usize;
        self.bytes[o] = (v & 0xff) as u8;
        self.bytes[o + 1] = ((v >> 8u64) & 0xff) as u8;
        self.bytes[o + 2] = ((v >> 16u64) & 0xff) as u8;
        self.bytes[o + 3] = ((v >> 24u64) & 0xff) as u8;
        self.bytes[o + 4] = ((v >> 32u64) & 0xff) as u8;
        self.bytes[o + 5] = ((v >> 40u64) & 0xff) as u8;
        self.bytes[o + 6] = ((v >> 48u64) & 0xff) as u8;
        self.bytes[o + 7] = ((v >> 56u64) & 0xff) as u8;
    }

    /// Copies `data` to physical address `paddr`.
    pub fn write_bytes(&mut self, paddr: u64, data: &[u8])
        requires
            old(self)@.contains_range(paddr as int, data@.len() as int),
        ensures
            final(self)@.base == old(self)@.base,
            final(self)@.next == old(self)@.next,
            final(self)@.bytes == old(self)@.bytes.subrange(0, paddr - old(self)@.base) + data@
                + old(self)@.bytes.subrange(
                paddr - old(self)@.base + data@.len(),
                old(self)@.bytes.len() as int,
            ),
    {
        assert(self.bytes@.len() == self.bytes.len());
        let o: usize = (paddr - self.base) as usize;
        let mut i: usize = 0;
        while i < data.len()
            invariant
                i <= data@.len(),
                o == paddr - old(self)@.base,
                o + data@.len() <= old(self)@.bytes.len(),
                old(self)@.bytes.len() <= usize::MAX,
                self.base == old(self).base,
                self.next_paddr == old(self).next_paddr,
                self.bytes@.len() == old(self)@.bytes.len(),
                forall|k: int|
                    0 <= k < self.bytes@.len() ==> #[trigger] self.bytes@[k] == if o <= k < o + i {
                        data@[k - o]
                    } else {
                        old(self)@.bytes[k]
                    },
            decreases data@.len() - i,
        {
            self.bytes[o + i] = data[i];
            i = i + 1;
        }
        let ghost expect = old(self)@.bytes.subrange(0, o as int) + data@ + old(self)@.bytes.subrange(
            o + data@.len(),
            old(self)@.bytes.len() as int,
        );
        assert(self.bytes@ =~= expect);
    }
}

/// Hands out `n` pages at the bump pointer, zeroes them, and advances the pointer.
pub fn alloc_pages(mem: &mut PhysMem, n: u64) -> (paddr: u64)
    requires
        old(mem)@.wf(),
        old(mem)@.next + n * 4096 <= old(mem)@.end(),
    ensures
        final(mem)@.wf(),
        paddr == old(mem)@.next,
        final(mem)@.base == old(mem)@.base,
        final(mem)@.next == old(mem)@.next + n * 4096,
        final(mem)@.bytes.len() == old(mem)@.bytes.len(),
        forall|k: int|
            0 <= k < final(mem)@.bytes.len() ==> #[trigger] final(mem)@.bytes[k] == if old(mem)@.next - old(mem)@.base <= k < final(mem)@.next - old(mem)@.base {
                0u8
            } else {
                old(mem)@.bytes[k]
            },
{
    let paddr: u64 = mem.next_paddr;
    let size: u64 = n * 4096;
    mem.next_paddr = paddr + size;
    assert(mem.bytes@.len() == mem.bytes.len());
    let start: usize = (paddr - mem.base) as usize;
    let stop: usize = (mem.next_paddr - mem.base) as usize;
    let mut k: usize = start;
    while k < stop
        invariant
            start <= k <= stop,
            start == old(mem)@.next - old(mem)@.base,
            stop == mem@.next - mem@.base,
            stop <= mem.bytes@.len(),
            mem.base == old(mem).base,
            mem.next_paddr == paddr + size,
            paddr == old(mem)@.next,
            mem.bytes@.len() == old(mem)@.bytes.len(),
            forall|j: int|
                0 <= j < mem.bytes@.len() ==> #[trigger] mem.bytes@[j] == if start <= j < k {
                    0u8
                } else {
                    old(mem)@.bytes[j]
                },
        decreases stop - k,
    {
        mem.bytes[k] = 0u8;
        k = k + 1;
    }
    paddr
}

} // verus!
