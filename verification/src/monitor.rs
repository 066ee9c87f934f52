//! The memory monitor: a paged memory image with speculative writes,
//! fault tracking, and per-page read and write cycle accounting.
//!
//! All mutations between successive commits are speculative: `undo`
//! discards them, `commit` merges them into the image. Each distinct page
//! read in a segment is charged `PAGE_CYCLES` exactly once, and
//! separately for writes. Registers are memory-mapped and route through
//! the same accounting.

use vstd::prelude::*;
use crate::bytes::{byte_of_word, set_byte_of_word, set_word_byte, word_byte};
use crate::image::{pairs_map, MemoryImage};
use crate::platform::{ADDR_END, NUM_PAGES, PAGE_CYCLES, PAGE_SIZE, REG_BASE, REG_MAX};
use crate::types::TraceEvent;

verus! {

/// The word a memory map holds at an aligned address, zero if absent.
pub open spec fn word_of(m: Map<u32, u32>, a: u32) -> u32 {
    if m.contains_key(a) {
        m[a]
    } else {
        0
    }
}

/// The byte a memory map holds at an address.
pub open spec fn byte_of(m: Map<u32, u32>, a: u32) -> u8 {
    word_byte(word_of(m, ((a / 4) * 4) as u32), (a % 4) as u32)
}

/// The map after storing one byte.
pub open spec fn write_byte(m: Map<u32, u32>, a: u32, b: u8) -> Map<u32, u32> {
    let w = ((a / 4) * 4) as u32;
    m.insert(w, set_word_byte(word_of(m, w), (a % 4) as u32, b))
}

/// The bytes a memory map holds at `a .. a + n`.
pub open spec fn bytes_of(m: Map<u32, u32>, a: u32, n: nat) -> Seq<u8>
    decreases n,
{
    if n == 0 {
        Seq::empty()
    } else {
        seq![byte_of(m, a)] + bytes_of(m, (a + 1) as u32, (n - 1) as nat)
    }
}

/// The map after storing a byte string at `a`.
pub open spec fn write_bytes(m: Map<u32, u32>, a: u32, s: Seq<u8>) -> Map<u32, u32>
    decreases s.len(),
{
    if s.len() == 0 {
        m
    } else {
        write_bytes(write_byte(m, a, s[0]), (a + 1) as u32, s.skip(1))
    }
}

/// Reading one byte more extends the byte string by the next byte.
pub proof fn lemma_bytes_of_snoc(m: Map<u32, u32>, a: u32, n: nat)
    requires
        a + n + 1 <= u32::MAX,
    ensures
        bytes_of(m, a, n + 1) == bytes_of(m, a, n).push(byte_of(m, (a + n) as u32)),
    decreases n,
{
    if n == 0 {
        assert(bytes_of(m, (a + 1) as u32, 0) =~= Seq::<u8>::empty());
        assert(bytes_of(m, a, 1) == seq![byte_of(m, a)] + bytes_of(m, (a + 1) as u32, 0));
        assert(bytes_of(m, a, 1) =~= bytes_of(m, a, 0).push(byte_of(m, a)));
    } else {
        lemma_bytes_of_snoc(m, (a + 1) as u32, (n - 1) as nat);
        assert(bytes_of(m, a, n + 1) == seq![byte_of(m, a)] + bytes_of(
            m,
            (a + 1) as u32,
            n,
        ));
        assert(bytes_of(m, a, n) == seq![byte_of(m, a)] + bytes_of(
            m,
            (a + 1) as u32,
            (n - 1) as nat,
        ));
        assert(bytes_of(m, a, n + 1) =~= bytes_of(m, a, n).push(byte_of(m, (a + n) as u32)));
    }
}

/// Writing one byte more is writing it after the rest.
pub proof fn lemma_write_bytes_snoc(m: Map<u32, u32>, a: u32, s: Seq<u8>, b: u8)
    requires
        a + s.len() + 1 <= u32::MAX,
    ensures
        write_bytes(m, a, s.push(b)) == write_byte(
            write_bytes(m, a, s),
            (a + s.len()) as u32,
            b,
        ),
    decreases s.len(),
{
    let t = s.push(b);
    if s.len() == 0 {
        assert(t[0] == b);
        assert(t.skip(1) =~= Seq::<u8>::empty());
        assert(write_bytes(m, a, t) == write_bytes(write_byte(m, a, b), (a + 1) as u32, t.skip(1)));
        assert(write_bytes(m, a, s) == m);
    } else {
        assert(t[0] == s[0]);
        assert(t.skip(1) =~= s.skip(1).push(b));
        assert(write_bytes(m, a, t) == write_bytes(
            write_byte(m, a, s[0]),
            (a + 1) as u32,
            s.skip(1).push(b),
        ));
        assert(write_bytes(m, a, s) == write_bytes(
            write_byte(m, a, s[0]),
            (a + 1) as u32,
            s.skip(1),
        ));
        lemma_write_bytes_snoc(write_byte(m, a, s[0]), (a + 1) as u32, s.skip(1), b);
    }
}

/// The pair at index `j` is the map's value for its address when no later
/// pair has the same address.
pub proof fn lemma_pairs_map_at(s: Seq<(u32, u32)>, j: int)
    requires
        0 <= j < s.len(),
        forall|k: int| j < k < s.len() ==> s[k].0 != s[j].0,
    ensures
        pairs_map(s).contains_key(s[j].0),
        pairs_map(s)[s[j].0] == s[j].1,
    decreases s.len(),
{
    if j < s.len() - 1 {
        lemma_pairs_map_at(s.drop_last(), j);
    }
}

/// An address listed by no pair is absent from the map.
pub proof fn lemma_pairs_map_absent(s: Seq<(u32, u32)>, a: u32)
    requires
        forall|i: int| 0 <= i < s.len() ==> s[i].0 != a,
    ensures
        !pairs_map(s).contains_key(a),
    decreases s.len(),
{
    if s.len() > 0 {
        lemma_pairs_map_absent(s.drop_last(), a);
    }
}

/// Inserting on the right of a right-preferring union inserts into the
/// union.
pub proof fn lemma_union_insert(m: Map<u32, u32>, w: Map<u32, u32>, k: u32, v: u32)
    ensures
        m.union_prefer_right(w.insert(k, v)) == m.union_prefer_right(w).insert(k, v),
{
    assert(m.union_prefer_right(w.insert(k, v)) =~= m.union_prefer_right(w).insert(k, v));
}

/// The right-preferring union is associative.
pub proof fn lemma_union_assoc(a: Map<u32, u32>, b: Map<u32, u32>, c: Map<u32, u32>)
    ensures
        a.union_prefer_right(b).union_prefer_right(c) == a.union_prefer_right(
            b.union_prefer_right(c),
        ),
{
    assert(a.union_prefer_right(b).union_prefer_right(c) =~= a.union_prefer_right(
        b.union_prefer_right(c),
    ));
}

/// Strictly ascending page indices.
pub open spec fn sorted_pages(s: Seq<u32>) -> bool {
    forall|i: int, j: int| 0 <= i < j < s.len() ==> s[i] < s[j]
}

/// Fault records strictly ascending by page index.
pub open spec fn sorted_recs(s: Seq<(u32, u64)>) -> bool {
    forall|i: int, j: int| 0 <= i < j < s.len() ==> s[i].0 < s[j].0
}

/// Whether a fault record for the page is present.
pub open spec fn page_in(s: Seq<(u32, u64)>, p: u32) -> bool {
    exists|i: int| 0 <= i < s.len() && s[i].0 == p
}

/// In a strictly ascending sequence the element at `i` is at least `i`.
proof fn lemma_strict_idx(s: Seq<u32>, i: int)
    requires
        sorted_pages(s),
        0 <= i < s.len(),
    ensures
        s[i] >= i,
    decreases i,
{
    if i > 0 {
        lemma_strict_idx(s, i - 1);
    }
}

/// A strictly ascending sequence of indices below `n` has at most `n`
/// elements.
pub proof fn lemma_strict_bound(s: Seq<u32>, n: u32)
    requires
        sorted_pages(s),
        forall|i: int| 0 <= i < s.len() ==> s[i] < n,
    ensures
        s.len() <= n,
{
    if s.len() > 0 {
        lemma_strict_idx(s, s.len() - 1);
    }
}

/// The pages of a fault record sequence.
pub open spec fn rec_pages(s: Seq<(u32, u64)>) -> Seq<u32> {
    s.map_values(|p: (u32, u64)| p.0)
}

/// Page index of an address.
pub open spec fn page_of(a: u32) -> u32 {
    a / PAGE_SIZE
}

/// Address of a memory-mapped register.
pub open spec fn reg_addr(idx: u32) -> u32 {
    (REG_BASE + idx * 4) as u32
}

/// The trace event describing a speculative word write.
pub open spec fn event_of(p: (u32, u32)) -> TraceEvent {
    if p.0 >= REG_BASE {
        TraceEvent::RegisterSet { reg: ((p.0 - REG_BASE) / 4) as usize, value: p.1 }
    } else {
        TraceEvent::MemorySet { addr: p.0, value: p.1 }
    }
}

/// Pages whose first access in the current segment must be proven,
/// tagged with the session cycle at which the access committed.
pub struct PageFaults {
    /// Pages first read, in ascending page order.
    pub reads: Vec<(u32, u64)>,
    /// Pages first written, in ascending page order.
    pub writes: Vec<(u32, u64)>,
}

/// The memory monitor.
pub struct MemoryMonitor {
    image: MemoryImage,
    spec_writes: Vec<(u32, u32)>,
    creads: Vec<(u32, u64)>,
    cwrites: Vec<(u32, u64)>,
    pend_reads: Vec<u32>,
    pend_writes: Vec<u32>,
    seg_start: Ghost<Map<u32, u32>>,
    seg_writes: Ghost<Map<u32, u32>>,
}

impl MemoryMonitor {
    /// The committed contents: word address to word.
    pub closed spec fn committed(self) -> Map<u32, u32> {
        self.image@
    }

    /// The current contents: the committed contents overlaid with the
    /// speculative writes, latest winning.
    pub closed spec fn cur(self) -> Map<u32, u32> {
        self.image@.union_prefer_right(pairs_map(self.spec_writes@))
    }

    /// The speculative word writes since the last commit, in order.
    pub closed spec fn swrites_s(self) -> Seq<(u32, u32)> {
        self.spec_writes@
    }

    /// Committed first-read page records of the current segment.
    pub closed spec fn reads_rec(self) -> Seq<(u32, u64)> {
        self.creads@
    }

    /// Committed first-write page records of the current segment.
    pub closed spec fn writes_rec(self) -> Seq<(u32, u64)> {
        self.cwrites@
    }

    /// Pages read speculatively since the last commit.
    pub closed spec fn pends_r(self) -> Seq<u32> {
        self.pend_reads@
    }

    /// Pages written speculatively since the last commit.
    pub closed spec fn pends_w(self) -> Seq<u32> {
        self.pend_writes@
    }

    /// The committed contents at the start of the current segment.
    pub closed spec fn seg_start_mem(self) -> Map<u32, u32> {
        self.seg_start@
    }

    /// The writes committed since the start of the current segment.
    pub closed spec fn seg_writes_mem(self) -> Map<u32, u32> {
        self.seg_writes@
    }

    /// Page read cycles charged in this segment, speculative accesses
    /// included.
    pub open spec fn read_cycles(self) -> nat {
        (PAGE_CYCLES * (self.reads_rec().len() + self.pends_r().len())) as nat
    }

    /// Page write cycles charged in this segment, speculative accesses
    /// included.
    pub open spec fn write_cycles(self) -> nat {
        (PAGE_CYCLES * (self.writes_rec().len() + self.pends_w().len())) as nat
    }

    /// Page read cycles of committed accesses alone.
    pub open spec fn committed_read_cycles(self) -> nat {
        (PAGE_CYCLES * self.reads_rec().len()) as nat
    }

    /// Page write cycles of committed accesses alone.
    pub open spec fn committed_write_cycles(self) -> nat {
        (PAGE_CYCLES * self.writes_rec().len()) as nat
    }

    /// No speculative state is outstanding.
    pub open spec fn spec_empty(self) -> bool {
        self.swrites_s().len() == 0 && self.pends_r().len() == 0 && self.pends_w().len() == 0
    }

    /// The committed state of `b` is that of `a`: contents, page records
    /// and the segment's start and write tracking all unchanged.
    pub open spec fn same_committed(a: MemoryMonitor, b: MemoryMonitor) -> bool {
        b.committed() == a.committed() && b.reads_rec() == a.reads_rec() && b.writes_rec()
            == a.writes_rec() && b.seg_start_mem() == a.seg_start_mem() && b.seg_writes_mem()
            == a.seg_writes_mem()
    }

    /// Well-formedness: the image is sound, page records are strictly
    /// sorted and bounded, speculative pages are fresh, speculative
    /// writes are aligned and in range, and the committed contents are
    /// exactly the segment's start contents overlaid with the segment's
    /// committed writes.
    pub closed spec fn wf(self) -> bool {
        &&& self.image.wf()
        &&& sorted_recs(self.creads@)
        &&& sorted_recs(self.cwrites@)
        &&& sorted_pages(self.pend_reads@)
        &&& sorted_pages(self.pend_writes@)
        &&& forall|i: int| 0 <= i < self.creads@.len() ==> self.creads@[i].0 < NUM_PAGES
        &&& forall|i: int| 0 <= i < self.cwrites@.len() ==> self.cwrites@[i].0 < NUM_PAGES
        &&& forall|i: int| 0 <= i < self.pend_reads@.len() ==> self.pend_reads@[i] < NUM_PAGES
        &&& forall|i: int| 0 <= i < self.pend_writes@.len() ==> self.pend_writes@[i] < NUM_PAGES
        &&& forall|i: int|
            0 <= i < self.pend_reads@.len() ==> !page_in(self.creads@, self.pend_reads@[i])
        &&& forall|i: int|
            0 <= i < self.pend_writes@.len() ==> !page_in(self.cwrites@, self.pend_writes@[i])
        &&& forall|i: int|
            0 <= i < self.spec_writes@.len() ==> (self.spec_writes@[i].0 % 4 == 0
                && self.spec_writes@[i].0 < ADDR_END)
        &&& self.image@ == self.seg_start@.union_prefer_right(self.seg_writes@)
    }

    /// A monitor over the given image, at the start of a fresh segment.
    pub fn new(image: MemoryImage) -> (r: MemoryMonitor)
        requires
            image.wf(),
        ensures
            r.wf(),
            r.committed() == image@,
            r.spec_empty(),
            r.reads_rec().len() == 0,
            r.writes_rec().len() == 0,
            r.seg_start_mem() == image@,
            r.seg_writes_mem() == Map::<u32, u32>::empty(),
    {
        let ghost start = image@;
        let r = MemoryMonitor {
            image,
            spec_writes: Vec::new(),
            creads: Vec::new(),
            cwrites: Vec::new(),
            pend_reads: Vec::new(),
            pend_writes: Vec::new(),
            seg_start: Ghost(start),
            seg_writes: Ghost(Map::empty()),
        };
        proof {
            assert(r.image@ =~= r.seg_start@.union_prefer_right(r.seg_writes@));
        }
        r
    }

    /// An empty placeholder monitor, used to lend the real one out.
    pub fn empty() -> (r: MemoryMonitor)
        ensures
            r.wf(),
    {
        Self::new(MemoryImage::new(0))
    }

    /// The word currently visible at an aligned address, without any page
    /// accounting.
    fn peek_word(&self, addr: u32) -> (r: u32)
        requires
            self.wf(),
            addr % 4 == 0,
        ensures
            r == word_of(self.cur(), addr),
    {
        let n = self.spec_writes.len();
        let mut i: usize = n;
        while i > 0
            invariant
                i <= n,
                n == self.spec_writes@.len(),
                self.wf(),
                forall|k: int| i <= k < n ==> self.spec_writes@[k].0 != addr,
            decreases i,
        {
            i = i - 1;
            if self.spec_writes[i].0 == addr {
                proof {
                    lemma_pairs_map_at(self.spec_writes@, i as int);
                }
                return self.spec_writes[i].1;
            }
        }
        proof {
            lemma_pairs_map_absent(self.spec_writes@, addr);
        }
        self.image.load_word(addr)
    }

    /// Charge the page holding `addr` as read, if it has not been charged
    /// in this segment.
    fn touch_read(&mut self, addr: u32)
        requires
            old(self).wf(),
            addr < ADDR_END,
        ensures
            final(self).wf(),
            MemoryMonitor::same_committed(*old(self), *final(self)),
            final(self).cur() == old(self).cur(),
            final(self).swrites_s() == old(self).swrites_s(),
            final(self).pends_w() == old(self).pends_w(),
            final(self).read_cycles() >= old(self).read_cycles(),
            final(self).read_cycles() <= old(self).read_cycles() + PAGE_CYCLES,
            (page_in(old(self).reads_rec(), page_of(addr)) || old(self).pends_r().contains(
                page_of(addr),
            )) ==> final(self).read_cycles() == old(self).read_cycles(),
    {
        let page = addr / PAGE_SIZE;
        assert(page < NUM_PAGES) by (nonlinear_arith)
            requires
                addr < ADDR_END,
                page == addr / PAGE_SIZE,
                PAGE_SIZE == 1024,
                ADDR_END == 0x0C00_0080u32,
                NUM_PAGES == 196609u32,
        ;
        if !rec_contains(&self.creads, page) && !page_list_contains(&self.pend_reads, page) {
            sset_insert(&mut self.pend_reads, page);
        }
    }

    /// Charge the page holding `addr` as written, if it has not been
    /// charged in this segment.
    fn touch_write(&mut self, addr: u32)
        requires
            old(self).wf(),
            addr < ADDR_END,
        ensures
            final(self).wf(),
            MemoryMonitor::same_committed(*old(self), *final(self)),
            final(self).cur() == old(self).cur(),
            final(self).swrites_s() == old(self).swrites_s(),
            final(self).pends_r() == old(self).pends_r(),
            final(self).write_cycles() >= old(self).write_cycles(),
            final(self).write_cycles() <= old(self).write_cycles() + PAGE_CYCLES,
            (page_in(old(self).writes_rec(), page_of(addr)) || old(self).pends_w().contains(
                page_of(addr),
            )) ==> final(self).write_cycles() == old(self).write_cycles(),
    {
        let page = addr / PAGE_SIZE;
        assert(page < NUM_PAGES) by (nonlinear_arith)
            requires
                addr < ADDR_END,
                page == addr / PAGE_SIZE,
                PAGE_SIZE == 1024,
                ADDR_END == 0x0C00_0080u32,
                NUM_PAGES == 196609u32,
        ;
        if !rec_contains(&self.cwrites, page) && !page_list_contains(&self.pend_writes, page) {
            sset_insert(&mut self.pend_writes, page);
        }
    }

    /// Read the word at an aligned address, charging the page read.
    pub fn load_u32(&mut self, addr: u32) -> (r: u32)
        requires
            old(self).wf(),
            addr % 4 == 0,
            addr < ADDR_END,
        ensures
            final(self).wf(),
            r == word_of(old(self).cur(), addr),
            MemoryMonitor::same_committed(*old(self), *final(self)),
            final(self).cur() == old(self).cur(),
            final(self).swrites_s() == old(self).swrites_s(),
            final(self).pends_w() == old(self).pends_w(),
            final(self).read_cycles() >= old(self).read_cycles(),
            final(self).read_cycles() <= old(self).read_cycles() + PAGE_CYCLES,
    {
        self.touch_read(addr);
        self.peek_word(addr)
    }

    /// Write the word at an aligned address, speculatively, charging the
    /// page write.
    pub fn store_u32(&mut self, addr: u32, val: u32)
        requires
            old(self).wf(),
            addr % 4 == 0,
            addr < ADDR_END,
        ensures
            final(self).wf(),
            MemoryMonitor::same_committed(*old(self), *final(self)),
            final(self).cur() == old(self).cur().insert(addr, val),
            final(self).swrites_s() == old(self).swrites_s().push((addr, val)),
            final(self).pends_r() == old(self).pends_r(),
            final(self).write_cycles() >= old(self).write_cycles(),
            final(self).write_cycles() <= old(self).write_cycles() + PAGE_CYCLES,
    {
        self.touch_write(addr);
        let ghost prev = self.spec_writes@;
        self.spec_writes.push((addr, val));
        proof {
            assert(self.spec_writes@.drop_last() =~= prev);
            lemma_union_insert(self.image@, pairs_map(prev), addr, val);
        }
    }

    /// Read the byte at an address, charging the page read.
    pub fn load_u8(&mut self, addr: u32) -> (r: u8)
        requires
            old(self).wf(),
            addr < ADDR_END,
        ensures
            final(self).wf(),
            r == byte_of(old(self).cur(), addr),
            MemoryMonitor::same_committed(*old(self), *final(self)),
            final(self).cur() == old(self).cur(),
            final(self).swrites_s() == old(self).swrites_s(),
            final(self).pends_w() == old(self).pends_w(),
            final(self).read_cycles() >= old(self).read_cycles(),
            final(self).read_cycles() <= old(self).read_cycles() + PAGE_CYCLES,
    {
        let base = addr / 4 * 4;
        let w = self.load_u32(base);
        byte_of_word(w, addr % 4)
    }

    /// Write the byte at an address, speculatively, charging the page
    /// write.
    pub fn store_u8(&mut self, addr: u32, b: u8)
        requires
            old(self).wf(),
            addr < ADDR_END,
        ensures
            final(self).wf(),
            MemoryMonitor::same_committed(*old(self), *final(self)),
            final(self).cur() == write_byte(old(self).cur(), addr, b),
            final(self).swrites_s().len() == old(self).swrites_s().len() + 1,
            final(self).pends_r() == old(self).pends_r(),
            final(self).write_cycles() <= old(self).write_cycles() + PAGE_CYCLES,
    {
        let base = addr / 4 * 4;
        let w = self.peek_word(base);
        self.store_u32(base, set_byte_of_word(w, addr % 4, b));
    }

    /// Read `n` bytes starting at `addr`, charging page reads.
    pub fn load_bytes(&mut self, addr: u32, n: u32) -> (r: Vec<u8>)
        requires
            old(self).wf(),
            addr + n <= ADDR_END,
        ensures
            final(self).wf(),
            r@ == bytes_of(old(self).cur(), addr, n as nat),
            r@.len() == n,
            MemoryMonitor::same_committed(*old(self), *final(self)),
            final(self).cur() == old(self).cur(),
            final(self).swrites_s() == old(self).swrites_s(),
            final(self).pends_w() == old(self).pends_w(),
            final(self).read_cycles() <= old(self).read_cycles() + n * PAGE_CYCLES,
    {
        let mut r: Vec<u8> = Vec::new();
        let mut i: u32 = 0;
        while i < n
            invariant
                i <= n,
                addr + n <= ADDR_END,
                self.wf(),
                r@ == bytes_of(old(self).cur(), addr, i as nat),
                r@.len() == i,
                MemoryMonitor::same_committed(*old(self), *self),
                self.cur() == old(self).cur(),
                self.swrites_s() == old(self).swrites_s(),
                self.pends_w() == old(self).pends_w(),
                self.read_cycles() <= old(self).read_cycles() + i * PAGE_CYCLES,
            decreases n - i,
        {
            let b = self.load_u8(addr + i);
            r.push(b);
            proof {
                lemma_bytes_of_snoc(old(self).cur(), addr, i as nat);
            }
            i = i + 1;
        }
        r
    }

    /// Store a byte string starting at `addr`, speculatively, charging
    /// page writes.
    pub fn store_bytes(&mut self, addr: u32, data: &Vec<u8>)
        requires
            old(self).wf(),
            addr + data@.len() <= ADDR_END,
        ensures
            final(self).wf(),
            MemoryMonitor::same_committed(*old(self), *final(self)),
            final(self).cur() == write_bytes(old(self).cur(), addr, data@),
            final(self).pends_r() == old(self).pends_r(),
            final(self).write_cycles() <= old(self).write_cycles() + data@.len() * PAGE_CYCLES,
    {
        let n = data.len();
        let mut i: usize = 0;
        while i < n
            invariant
                i <= n,
                n == data@.len(),
                addr + n <= ADDR_END,
                self.wf(),
                self.cur() == write_bytes(old(self).cur(), addr, data@.take(i as int)),
                MemoryMonitor::same_committed(*old(self), *self),
                self.pends_r() == old(self).pends_r(),
                self.write_cycles() <= old(self).write_cycles() + i * PAGE_CYCLES,
            decreases n - i,
        {
            self.store_u8(addr + (i as u32), data[i]);
            proof {
                assert(data@.take(i + 1) =~= data@.take(i as int).push(data@[i as int]));
                lemma_write_bytes_snoc(old(self).cur(), addr, data@.take(i as int), data@[i as int]);
            }
            i = i + 1;
        }
        proof {
            assert(data@.take(n as int) =~= data@);
        }
    }

    /// Read a register, through the same paging accounting as memory.
    pub fn load_register(&mut self, idx: u32) -> (r: u32)
        requires
            old(self).wf(),
            idx < REG_MAX,
        ensures
            final(self).wf(),
            r == word_of(old(self).cur(), reg_addr(idx)),
            MemoryMonitor::same_committed(*old(self), *final(self)),
            final(self).cur() == old(self).cur(),
            final(self).swrites_s() == old(self).swrites_s(),
            final(self).pends_w() == old(self).pends_w(),
            final(self).read_cycles() <= old(self).read_cycles() + PAGE_CYCLES,
    {
        self.load_u32(REG_BASE + idx * 4)
    }

    /// Write a register, speculatively, through the paging accounting.
    pub fn store_register(&mut self, idx: u32, val: u32)
        requires
            old(self).wf(),
            idx < REG_MAX,
        ensures
            final(self).wf(),
            MemoryMonitor::same_committed(*old(self), *final(self)),
            final(self).cur() == old(self).cur().insert(reg_addr(idx), val),
            final(self).swrites_s() == old(self).swrites_s().push((reg_addr(idx), val)),
            final(self).pends_r() == old(self).pends_r(),
            final(self).write_cycles() <= old(self).write_cycles() + PAGE_CYCLES,
    {
        self.store_u32(REG_BASE + idx * 4, val)
    }

    /// Snapshot of the whole register file.
    pub fn load_registers(&mut self) -> (r: Vec<u32>)
        requires
            old(self).wf(),
        ensures
            final(self).wf(),
            r@.len() == REG_MAX,
            forall|i: int|
                0 <= i < REG_MAX ==> r@[i] == word_of(old(self).cur(), reg_addr(i as u32)),
            MemoryMonitor::same_committed(*old(self), *final(self)),
            final(self).cur() == old(self).cur(),
            final(self).swrites_s() == old(self).swrites_s(),
            final(self).pends_w() == old(self).pends_w(),
    {
        let mut r: Vec<u32> = Vec::new();
        let mut i: u32 = 0;
        while i < REG_MAX
            invariant
                i <= REG_MAX,
                self.wf(),
                r@.len() == i,
                forall|j: int|
                    0 <= j < i ==> r@[j] == word_of(old(self).cur(), reg_addr(j as u32)),
                MemoryMonitor::same_committed(*old(self), *self),
                self.cur() == old(self).cur(),
                self.swrites_s() == old(self).swrites_s(),
                self.pends_w() == old(self).pends_w(),
            decreases REG_MAX - i,
        {
            let v = self.load_register(i);
            r.push(v);
            i = i + 1;
        }
        r
    }

    /// Commit the speculative state: merge the writes into the image, move
    /// the speculative page charges into the segment's fault records with
    /// the given cycle tag.
    pub fn commit(&mut self, cycle: u64)
        requires
            old(self).wf(),
        ensures
            final(self).wf(),
            final(self).spec_empty(),
            final(self).committed() == old(self).cur(),
            final(self).cur() == old(self).cur(),
            final(self).seg_start_mem() == old(self).seg_start_mem(),
            final(self).seg_writes_mem() == old(self).seg_writes_mem().union_prefer_right(
                pairs_map(old(self).swrites_s()),
            ),
            final(self).read_cycles() == old(self).read_cycles(),
            final(self).write_cycles() == old(self).write_cycles(),
            final(self).reads_rec().len() == old(self).reads_rec().len() + old(
                self,
            ).pends_r().len(),
            final(self).writes_rec().len() == old(self).writes_rec().len() + old(
                self,
            ).pends_w().len(),
    {
        let ghost orig = *self;
        let ghost start_image = self.image@;
        let ghost sw = self.spec_writes@;
        let n = self.spec_writes.len();
        let mut i: usize = 0;
        while i < n
            invariant
                i <= n,
                n == sw.len(),
                self.spec_writes@ == sw,
                self.image.wf(),
                forall|k: int| 0 <= k < sw.len() ==> (sw[k].0 % 4 == 0 && sw[k].0 < ADDR_END),
                self.image@ == start_image.union_prefer_right(pairs_map(sw.take(i as int))),
                self.creads@ == orig.creads@,
                self.cwrites@ == orig.cwrites@,
                self.pend_reads@ == orig.pend_reads@,
                self.pend_writes@ == orig.pend_writes@,
                self.seg_start@ == orig.seg_start@,
                self.seg_writes@ == orig.seg_writes@,
            decreases n - i,
        {
            let (a, v) = self.spec_writes[i];
            proof {
                assert(sw.take(i + 1).drop_last() =~= sw.take(i as int));
                assert(sw.take(i + 1).last() == sw[i as int]);
                lemma_union_insert(start_image, pairs_map(sw.take(i as int)), a, v);
            }
            self.image.store_word(a, v);
            i = i + 1;
        }
        proof {
            assert(sw.take(n as int) =~= sw);
        }
        self.spec_writes = Vec::new();
        proof {
            lemma_union_assoc(self.seg_start@, self.seg_writes@, pairs_map(sw));
        }
        self.seg_writes = Ghost(self.seg_writes@.union_prefer_right(pairs_map(sw)));
        let ghost img_f = self.image@;
        let ghost segw_f = self.seg_writes@;

        let ghost pr = self.pend_reads@;
        let ghost cr = self.creads@;
        let m = self.pend_reads.len();
        let mut j: usize = 0;
        while j < m
            invariant
                j <= m,
                m == pr.len(),
                self.pend_reads@ == pr,
                sorted_pages(pr),
                forall|k: int| 0 <= k < pr.len() ==> pr[k] < NUM_PAGES,
                sorted_recs(self.creads@),
                forall|k: int| 0 <= k < self.creads@.len() ==> self.creads@[k].0 < NUM_PAGES,
                self.creads@.len() == cr.len() + j,
                forall|k: int| 0 <= k < pr.len() ==> !page_in(cr, pr[k]),
                forall|k: int|
                    0 <= k < self.creads@.len() ==> (page_in(cr, self.creads@[k].0) || pr.take(
                        j as int,
                    ).contains(self.creads@[k].0)),
                self.image.wf(),
                self.image@ == img_f,
                self.spec_writes@.len() == 0,
                self.cwrites@ == orig.cwrites@,
                self.pend_writes@ == orig.pend_writes@,
                self.seg_start@ == orig.seg_start@,
                self.seg_writes@ == segw_f,
            decreases m - j,
        {
            let p = self.pend_reads[j];
            proof {
                if page_in(self.creads@, p) {
                    let x = choose|x: int|
                        0 <= x < self.creads@.len() && self.creads@[x].0 == p;
                    if pr.take(j as int).contains(p) {
                        let y = choose|y: int| 0 <= y < j && pr.take(j as int)[y] == p;
                        assert(pr[y] == pr[j as int]);
                        assert(false);
                    }
                    assert(false);
                }
            }
            recs_insert(&mut self.creads, p, cycle);
            proof {
                assert(pr.take(j + 1)[j as int] == p);
                assert forall|x: u32| pr.take(j as int).contains(x) implies pr.take(
                    j + 1,
                ).contains(x) by {
                    let y = choose|y: int| 0 <= y < j && pr.take(j as int)[y] == x;
                    assert(pr.take(j + 1)[y] == x);
                }
            }
            j = j + 1;
        }
        self.pend_reads = Vec::new();

        let ghost pw = self.pend_writes@;
        let ghost cw = self.cwrites@;
        let ghost creads_f = self.creads@;
        let mw = self.pend_writes.len();
        let mut j2: usize = 0;
        while j2 < mw
            invariant
                j2 <= mw,
                mw == pw.len(),
                self.pend_writes@ == pw,
                sorted_pages(pw),
                forall|k: int| 0 <= k < pw.len() ==> pw[k] < NUM_PAGES,
                sorted_recs(self.cwrites@),
                forall|k: int| 0 <= k < self.cwrites@.len() ==> self.cwrites@[k].0 < NUM_PAGES,
                self.cwrites@.len() == cw.len() + j2,
                forall|k: int| 0 <= k < pw.len() ==> !page_in(cw, pw[k]),
                forall|k: int|
                    0 <= k < self.cwrites@.len() ==> (page_in(cw, self.cwrites@[k].0) || pw.take(
                        j2 as int,
                    ).contains(self.cwrites@[k].0)),
                self.image.wf(),
                self.image@ == img_f,
                self.spec_writes@.len() == 0,
                self.creads@ == creads_f,
                self.pend_reads@.len() == 0,
                self.seg_start@ == orig.seg_start@,
                self.seg_writes@ == segw_f,
            decreases mw - j2,
        {
            let p = self.pend_writes[j2];
            proof {
                if page_in(self.cwrites@, p) {
                    let x = choose|x: int|
                        0 <= x < self.cwrites@.len() && self.cwrites@[x].0 == p;
                    if pw.take(j2 as int).contains(p) {
                        let y = choose|y: int| 0 <= y < j2 && pw.take(j2 as int)[y] == p;
                        assert(pw[y] == pw[j2 as int]);
                        assert(false);
                    }
                    assert(false);
                }
            }
            recs_insert(&mut self.cwrites, p, cycle);
            proof {
                assert(pw.take(j2 + 1)[j2 as int] == p);
                assert forall|x: u32| pw.take(j2 as int).contains(x) implies pw.take(
                    j2 + 1,
                ).contains(x) by {
                    let y = choose|y: int| 0 <= y < j2 && pw.take(j2 as int)[y] == x;
                    assert(pw.take(j2 + 1)[y] == x);
                }
            }
            j2 = j2 + 1;
        }
        self.pend_writes = Vec::new();
    }

    /// Discard all speculative state: contents and page charges return to
    /// their last committed values.
    pub fn undo(&mut self)
        requires
            old(self).wf(),
        ensures
            final(self).wf(),
            final(self).spec_empty(),
            MemoryMonitor::same_committed(*old(self), *final(self)),
            final(self).cur() == old(self).committed(),
            final(self).read_cycles() == old(self).committed_read_cycles(),
            final(self).write_cycles() == old(self).committed_write_cycles(),
    {
        self.spec_writes = Vec::new();
        self.pend_reads = Vec::new();
        self.pend_writes = Vec::new();
        proof {
            assert(self.cur() =~= self.committed());
        }
    }

    /// Reset the segment state: no pages charged, the current committed
    /// contents become the new segment's start.
    pub fn clear_segment(&mut self)
        requires
            old(self).wf(),
        ensures
            final(self).wf(),
            final(self).spec_empty(),
            final(self).committed() == old(self).committed(),
            final(self).cur() == old(self).committed(),
            final(self).reads_rec().len() == 0,
            final(self).writes_rec().len() == 0,
            final(self).seg_start_mem() == old(self).committed(),
            final(self).seg_writes_mem() == Map::<u32, u32>::empty(),
    {
        self.spec_writes = Vec::new();
        self.pend_reads = Vec::new();
        self.pend_writes = Vec::new();
        self.creads = Vec::new();
        self.cwrites = Vec::new();
        self.seg_start = Ghost(self.image@);
        self.seg_writes = Ghost(Map::empty());
        proof {
            assert(self.cur() =~= self.committed());
            assert(self.image@ =~= self.seg_start@.union_prefer_right(self.seg_writes@));
        }
    }

    /// Reset all per-run state; same observable effect as resetting the
    /// segment.
    pub fn clear_session(&mut self)
        requires
            old(self).wf(),
        ensures
            final(self).wf(),
            final(self).spec_empty(),
            final(self).committed() == old(self).committed(),
            final(self).cur() == old(self).committed(),
            final(self).reads_rec().len() == 0,
            final(self).writes_rec().len() == 0,
            final(self).seg_start_mem() == old(self).committed(),
            final(self).seg_writes_mem() == Map::<u32, u32>::empty(),
    {
        self.clear_segment()
    }

    /// The image of the committed contents, with the given program
    /// counter; speculative writes are not included.
    pub fn build_image(&self, pc: u32) -> (r: MemoryImage)
        requires
            self.wf(),
        ensures
            r.wf(),
            r@ == self.committed(),
            r.entry() == pc,
    {
        let mut r = self.image.snapshot();
        r.set_pc(pc);
        r
    }

    /// The fault records of the current segment: pages first read and
    /// first written, with the session cycle of their first committed
    /// access.
    pub fn segment_faults(&self) -> (r: PageFaults)
        ensures
            r.reads@ == self.reads_rec(),
            r.writes@ == self.writes_rec(),
    {
        PageFaults { reads: copy_recs(&self.creads), writes: copy_recs(&self.cwrites) }
    }

    /// Page read cycles charged so far in this segment.
    pub fn page_read_cycles(&self) -> (r: u64)
        requires
            self.wf(),
        ensures
            r == self.read_cycles(),
    {
        proof {
            self.lemma_cycle_bounds();
        }
        ((self.creads.len() + self.pend_reads.len()) as u64) * PAGE_CYCLES
    }

    /// Page write cycles charged so far in this segment.
    pub fn page_write_cycles(&self) -> (r: u64)
        requires
            self.wf(),
        ensures
            r == self.write_cycles(),
    {
        proof {
            self.lemma_cycle_bounds();
        }
        ((self.cwrites.len() + self.pend_writes.len()) as u64) * PAGE_CYCLES
    }

    /// The committed contents of a well-formed monitor are the segment's
    /// start contents overlaid with the segment's committed writes.
    pub proof fn lemma_committed_decomposition(self)
        requires
            self.wf(),
        ensures
            self.committed() == self.seg_start_mem().union_prefer_right(self.seg_writes_mem()),
    {
    }

    /// The page cycle counters of a well-formed monitor are bounded, as
    /// only distinct pages of the address space are ever charged.
    pub proof fn lemma_cycle_bounds(self)
        requires
            self.wf(),
        ensures
            self.read_cycles() <= 2 * NUM_PAGES * PAGE_CYCLES,
            self.write_cycles() <= 2 * NUM_PAGES * PAGE_CYCLES,
            self.reads_rec().len() <= NUM_PAGES,
            self.writes_rec().len() <= NUM_PAGES,
            self.pends_r().len() <= NUM_PAGES,
            self.pends_w().len() <= NUM_PAGES,
    {
        let cr = rec_pages(self.creads@);
        assert(sorted_pages(cr) && forall|i: int| 0 <= i < cr.len() ==> cr[i] < NUM_PAGES) by {
            assert(forall|i: int| 0 <= i < cr.len() ==> cr[i] == self.creads@[i].0);
        }
        lemma_strict_bound(cr, NUM_PAGES);
        let cw = rec_pages(self.cwrites@);
        assert(sorted_pages(cw) && forall|i: int| 0 <= i < cw.len() ==> cw[i] < NUM_PAGES) by {
            assert(forall|i: int| 0 <= i < cw.len() ==> cw[i] == self.cwrites@[i].0);
        }
        lemma_strict_bound(cw, NUM_PAGES);
        lemma_strict_bound(self.pend_reads@, NUM_PAGES);
        lemma_strict_bound(self.pend_writes@, NUM_PAGES);
    }

    /// The trace events describing the speculative writes queued since
    /// the last commit, in insertion order.
    pub fn pending_trace_events(&self) -> (r: Vec<TraceEvent>)
        ensures
            r@.len() == self.swrites_s().len(),
            forall|i: int| 0 <= i < r@.len() ==> r@[i] == event_of(self.swrites_s()[i]),
    {
        let mut r: Vec<TraceEvent> = Vec::new();
        let n = self.spec_writes.len();
        let mut i: usize = 0;
        while i < n
            invariant
                i <= n,
                n == self.spec_writes@.len(),
                r@.len() == i,
                forall|j: int| 0 <= j < i ==> r@[j] == event_of(self.spec_writes@[j]),
            decreases n - i,
        {
            let (a, v) = self.spec_writes[i];
            if a >= REG_BASE {
                r.push(TraceEvent::RegisterSet { reg: ((a - REG_BASE) / 4) as usize, value: v });
            } else {
                r.push(TraceEvent::MemorySet { addr: a, value: v });
            }
            i = i + 1;
        }
        r
    }
}

/// Whether a fault record list holds the page.
fn rec_contains(v: &Vec<(u32, u64)>, page: u32) -> (r: bool)
    ensures
        r == page_in(v@, page),
{
    let n = v.len();
    let mut i: usize = 0;
    while i < n
        invariant
            i <= n,
            n == v@.len(),
            forall|j: int| 0 <= j < i ==> v@[j].0 != page,
        decreases n - i,
    {
        if v[i].0 == page {
            return true;
        }
        i = i + 1;
    }
    false
}

/// Whether a page list holds the page.
fn page_list_contains(v: &Vec<u32>, page: u32) -> (r: bool)
    ensures
        r == v@.contains(page),
{
    let n = v.len();
    let mut i: usize = 0;
    while i < n
        invariant
            i <= n,
            n == v@.len(),
            forall|j: int| 0 <= j < i ==> v@[j] != page,
        decreases n - i,
    {
        if v[i] == page {
            return true;
        }
        i = i + 1;
    }
    false
}

/// Insert a fresh page into a sorted page list.
fn sset_insert(v: &mut Vec<u32>, x: u32)
    requires
        sorted_pages(old(v)@),
        !old(v)@.contains(x),
    ensures
        sorted_pages(final(v)@),
        final(v)@.len() == old(v)@.len() + 1,
        forall|y: u32| final(v)@.contains(y) <==> (old(v)@.contains(y) || y == x),
        forall|i: int| 0 <= i < final(v)@.len() ==> (final(v)@[i] == x || old(v)@.contains(
            final(v)@[i],
        )),
{
    let n = v.len();
    let mut i: usize = 0;
    while i < n && v[i] < x
        invariant
            i <= n,
            n == v@.len(),
            forall|j: int| 0 <= j < i ==> v@[j] < x,
        decreases n - i,
    {
        i = i + 1;
    }
    proof {
        if i < n && v@[i as int] == x {
            assert(v@.contains(x));
        }
        assert(forall|j: int| i <= j < n ==> v@[j] >= v@[i as int]);
    }
    let ghost prev = v@;
    v.insert(i, x);
    proof {
        let t = v@;
        assert forall|a: int, b: int| 0 <= a < b < t.len() implies t[a] < t[b] by {
            assert(a < i ==> t[a] == prev[a]);
            assert(a > i ==> t[a] == prev[a - 1]);
            assert(b < i ==> t[b] == prev[b]);
            assert(b > i ==> t[b] == prev[b - 1]);
            if b == i {
                assert(t[b] == x);
            }
            if a == i {
                assert(t[a] == x);
                assert(t[b] == prev[b - 1]);
                if prev[b - 1] == x {
                    assert(prev.contains(x));
                }
            }
        }
        assert forall|y: u32| t.contains(y) implies (prev.contains(y) || y == x) by {
            let j = choose|j: int| 0 <= j < t.len() && t[j] == y;
            if j < i {
                assert(prev[j] == y);
            } else if j > i {
                assert(prev[j - 1] == y);
            }
        }
        assert forall|y: u32| prev.contains(y) implies t.contains(y) by {
            let j = choose|j: int| 0 <= j < prev.len() && prev[j] == y;
            if j < i {
                assert(t[j] == y);
            } else {
                assert(t[j + 1] == y);
            }
        }
        assert(t.contains(x)) by {
            assert(t[i as int] == x);
        }
        assert forall|k: int| 0 <= k < t.len() implies (t[k] == x || prev.contains(t[k])) by {
            if k < i {
                assert(prev[k] == t[k]);
            } else if k > i {
                assert(prev[k - 1] == t[k]);
            }
        }
    }
}

/// Insert a record for a fresh page into a sorted fault record list.
fn recs_insert(v: &mut Vec<(u32, u64)>, page: u32, cycle: u64)
    requires
        sorted_recs(old(v)@),
        !page_in(old(v)@, page),
    ensures
        sorted_recs(final(v)@),
        final(v)@.len() == old(v)@.len() + 1,
        forall|y: u32| page_in(final(v)@, y) <==> (page_in(old(v)@, y) || y == page),
        forall|i: int| 0 <= i < final(v)@.len() ==> (final(v)@[i].0 == page || page_in(
            old(v)@,
            final(v)@[i].0,
        )),
{
    let n = v.len();
    let mut i: usize = 0;
    while i < n && v[i].0 < page
        invariant
            i <= n,
            n == v@.len(),
            forall|j: int| 0 <= j < i ==> v@[j].0 < page,
        decreases n - i,
    {
        i = i + 1;
    }
    proof {
        if i < n && v@[i as int].0 == page {
            assert(page_in(v@, page));
        }
        assert(forall|j: int| i <= j < n ==> v@[j].0 >= v@[i as int].0);
    }
    let ghost prev = v@;
    v.insert(i, (page, cycle));
    proof {
        let t = v@;
        assert forall|a: int, b: int| 0 <= a < b < t.len() implies t[a].0 < t[b].0 by {
            assert(a < i ==> t[a] == prev[a]);
            assert(a > i ==> t[a] == prev[a - 1]);
            assert(b < i ==> t[b] == prev[b]);
            assert(b > i ==> t[b] == prev[b - 1]);
            if a == i {
                assert(t[b] == prev[b - 1]);
                if prev[b - 1].0 == page {
                    assert(page_in(prev, page));
                }
            }
        }
        assert forall|y: u32| page_in(t, y) implies (page_in(prev, y) || y == page) by {
            let j = choose|j: int| 0 <= j < t.len() && t[j].0 == y;
            if j < i {
                assert(prev[j].0 == y);
            } else if j > i {
                assert(prev[j - 1].0 == y);
            }
        }
        assert forall|y: u32| page_in(prev, y) implies page_in(t, y) by {
            let j = choose|j: int| 0 <= j < prev.len() && prev[j].0 == y;
            if j < i {
                assert(t[j].0 == y);
            } else {
                assert(t[j + 1].0 == y);
            }
        }
        assert(page_in(t, page)) by {
            assert(t[i as int].0 == page);
        }
        assert forall|k: int| 0 <= k < t.len() implies (t[k].0 == page || page_in(
            prev,
            t[k].0,
        )) by {
            if k < i {
                assert(prev[k] == t[k]);
            } else if k > i {
                assert(prev[k - 1] == t[k]);
            }
        }
    }
}

/// An identical copy of a fault record list.
fn copy_recs(v: &Vec<(u32, u64)>) -> (r: Vec<(u32, u64)>)
    ensures
        r@ == v@,
{
    let mut r: Vec<(u32, u64)> = Vec::new();
    let n = v.len();
    let mut i: usize = 0;
    while i < n
        invariant
            i <= n,
            n == v@.len(),
            r@ == v@.take(i as int),
        decreases n - i,
    {
        r.push(v[i]);
        proof {
            assert(r@ =~= v@.take(i + 1));
        }
        i = i + 1;
    }
    proof {
        assert(r@ =~= v@);
    }
    r
}

} // verus!
