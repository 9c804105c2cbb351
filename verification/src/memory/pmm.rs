use vstd::prelude::*;

verus! {

pub const PAGE_SIZE: u64 = 4096;

/// Number of slots in the allocation table.
pub const MAX_ALLOCS: usize = 4096;

/// Number of entries of the boot memory map.
pub const MMAP_ENTRIES: usize = 32;

/// Physical addresses are at most 52 bits wide on x86-64.
pub const MAX_PHYS: u64 = 0x10_0000_0000_0000;

/// Memory below this address (10 MiB) belongs to the kernel image and boot structures.
pub const LOW_MEMORY_END: u64 = 0xA00000;

#[derive(Debug, Clone, Copy, PartialEq, Eq)]
pub enum FrameError {
    NoMemory,
    IndexOutOfBounds,
}

/// A run of `count` pages starting at `start`, owned by `pid`.
#[derive(Debug, Clone, Copy)]
pub struct FrameAllocation {
    pub pid: u64,
    pub start: u64,
    pub count: usize,
    pub used: bool,
}

/// One entry of the firmware memory map; type 1 is usable RAM.
#[derive(Debug, Clone, Copy)]
pub struct MemoryMapEntry {
    pub base: u64,
    pub length: u64,
    pub memory_type: u32,
}

pub open spec fn alloc_end(a: FrameAllocation) -> int {
    a.start + a.count * PAGE_SIZE
}

/// Two runs overlap when each starts before the other ends.
pub open spec fn runs_overlap(s1: int, e1: int, s2: int, e2: int) -> bool {
    s1 < e2 && e1 > s2
}

/// Whether `count` pages at `start` overlap any run of `s`.
pub open spec fn overlaps_any(s: Seq<FrameAllocation>, start: int, count: int) -> bool {
    exists|i: int|
        0 <= i < s.len() && #[trigger] runs_overlap(
            start,
            start + count * PAGE_SIZE,
            s[i].start as int,
            alloc_end(s[i]),
        )
}

/// A valid allocation table: ordered by start, pairwise non-overlapping, inside the
/// physical address space.
pub open spec fn table_ok(s: Seq<FrameAllocation>) -> bool {
    &&& forall|i: int| 0 <= i < s.len() ==> #[trigger] alloc_end(s[i]) <= MAX_PHYS
    &&& forall|i: int| 0 <= i < s.len() ==> (#[trigger] s[i]).used
    &&& forall|i: int, j: int| 0 <= i < j < s.len() ==> s[i].start <= s[j].start
    &&& forall|i: int, j: int|
        0 <= i < s.len() && 0 <= j < s.len() && i != j ==> !runs_overlap(
            s[i].start as int,
            alloc_end(s[i]),
            s[j].start as int,
            alloc_end(s[j]),
        )
}

/// Whether the firmware map has one usable region holding `count` pages at `start`.
pub open spec fn valid_ram(mmap: Seq<MemoryMapEntry>, start: int, count: int) -> bool {
    exists|i: int|
        0 <= i < mmap.len() && #[trigger] mmap[i].memory_type == 1 && mmap[i].length > 0
            && start >= mmap[i].base && start + count * PAGE_SIZE <= mmap[i].base
            + mmap[i].length
}

pub open spec fn max_int(a: int, b: int) -> int {
    if a >= b {
        a
    } else {
        b
    }
}

/// First fit: walking the runs in order with `prev_end` the furthest end seen, the first gap
/// before run `i` that holds `size` bytes of usable RAM, else the space after the last run
/// when it lies below `total_ram` in usable RAM.
pub open spec fn first_fit_from(
    s: Seq<FrameAllocation>,
    i: int,
    prev_end: int,
    pages: int,
    mmap: Seq<MemoryMapEntry>,
    total_ram: int,
) -> Option<int>
    decreases s.len() - i,
{
    if i >= s.len() {
        if prev_end + pages * PAGE_SIZE <= total_ram && valid_ram(mmap, prev_end, pages) {
            Some(prev_end)
        } else {
            None
        }
    } else {
        let cur = s[i];
        if cur.start > prev_end && cur.start - prev_end >= pages * PAGE_SIZE && valid_ram(
            mmap,
            prev_end,
            pages,
        ) {
            Some(prev_end)
        } else {
            first_fit_from(s, i + 1, max_int(prev_end, alloc_end(cur)), pages, mmap, total_ram)
        }
    }
}

/// Where the search starts: after the first run, and never below `LOW_MEMORY_END`.
pub open spec fn first_fit_start(s: Seq<FrameAllocation>) -> int {
    if s.len() > 0 {
        max_int(alloc_end(s[0]), LOW_MEMORY_END as int)
    } else {
        LOW_MEMORY_END as int
    }
}

pub open spec fn first_fit(
    s: Seq<FrameAllocation>,
    pages: int,
    mmap: Seq<MemoryMapEntry>,
    total_ram: int,
) -> Option<int> {
    first_fit_from(s, 0, first_fit_start(s), pages, mmap, total_ram)
}

/// Pages needed for `bytes` bytes.
pub open spec fn pages_for(bytes: int) -> int {
    (bytes + PAGE_SIZE - 1) / (PAGE_SIZE as int)
}

/// The table with a run inserted after every run that starts at or before it.
pub open spec fn inserted_at(s: Seq<FrameAllocation>, a: FrameAllocation, idx: int) -> bool {
    &&& 0 <= idx <= s.len()
    &&& forall|i: int| 0 <= i < idx ==> (#[trigger] s[i]).start <= a.start
    &&& forall|i: int| idx <= i < s.len() ==> (#[trigger] s[i]).start > a.start
}

/// Whether a run belongs to `pid`: a pid whose low 32 bits are zero names every thread of its
/// process (same high 32 bits); any other pid names exactly itself.
pub open spec fn owned_by(a: FrameAllocation, pid: u64) -> bool {
    if pid % 0x1_0000_0000 == 0 {
        a.pid / 0x1_0000_0000 == pid / 0x1_0000_0000
    } else {
        a.pid == pid
    }
}

/// Inserting a non-overlapping run at its ordered position keeps the table valid.
pub proof fn lemma_insert_ok(s: Seq<FrameAllocation>, a: FrameAllocation, idx: int)
    requires
        table_ok(s),
        inserted_at(s, a, idx),
        !overlaps_any(s, a.start as int, a.count as int),
        alloc_end(a) <= MAX_PHYS,
        a.used,
    ensures
        table_ok(s.insert(idx, a)),
{
    let t = s.insert(idx, a);
    assert forall|i: int, j: int| 0 <= i < t.len() && 0 <= j < t.len() && i != j implies !runs_overlap(
        t[i].start as int,
        alloc_end(t[i]),
        t[j].start as int,
        alloc_end(t[j]),
    ) by {
        if i == idx {
            let jj = if j < idx { j } else { j - 1 };
            assert(t[j] == s[jj]);
            assert(!runs_overlap(a.start as int, a.start + a.count * PAGE_SIZE, s[jj].start as int, alloc_end(s[jj])));
        } else if j == idx {
            let ii = if i < idx { i } else { i - 1 };
            assert(t[i] == s[ii]);
            assert(!runs_overlap(a.start as int, a.start + a.count * PAGE_SIZE, s[ii].start as int, alloc_end(s[ii])));
        } else {
            let ii = if i < idx { i } else { i - 1 };
            let jj = if j < idx { j } else { j - 1 };
            assert(t[i] == s[ii]);
            assert(t[j] == s[jj]);
        }
    }
    assert forall|i: int, j: int| 0 <= i < j < t.len() implies t[i].start <= t[j].start by {
        if i < idx && j == idx {
        } else if i == idx {
            assert(t[j] == s[j - 1]);
        } else {
            let ii = if i < idx { i } else { i - 1 };
            let jj = if j < idx { j } else { j - 1 };
            assert(t[i] == s[ii]);
            assert(t[j] == s[jj]);
        }
    }
    assert forall|i: int| 0 <= i < t.len() implies #[trigger] alloc_end(t[i]) <= MAX_PHYS && t[i].used by {
        if i < idx {
            assert(t[i] == s[i]);
        } else if i > idx {
            assert(t[i] == s[i - 1]);
        }
    }
}

/// Removing a run keeps the table valid.
pub proof fn lemma_remove_ok(s: Seq<FrameAllocation>, idx: int)
    requires
        table_ok(s),
        0 <= idx < s.len(),
    ensures
        table_ok(s.remove(idx)),
{
    let t = s.remove(idx);
    assert forall|i: int| 0 <= i < t.len() implies #[trigger] t[i] == s[if i < idx { i } else { i + 1 }] by {}
    assert forall|i: int, j: int| 0 <= i < t.len() && 0 <= j < t.len() && i != j implies !runs_overlap(
        t[i].start as int,
        alloc_end(t[i]),
        t[j].start as int,
        alloc_end(t[j]),
    ) by {
        assert(t[i] == s[if i < idx { i } else { i + 1 }]);
        assert(t[j] == s[if j < idx { j } else { j + 1 }]);
    }
    assert forall|i: int, j: int| 0 <= i < j < t.len() implies t[i].start <= t[j].start by {
        assert(t[i] == s[if i < idx { i } else { i + 1 }]);
        assert(t[j] == s[if j < idx { j } else { j + 1 }]);
    }
}

/// The last run of `s` that starts at `start`, if any.
pub open spec fn last_with_start(s: Seq<FrameAllocation>, start: u64, f: int) -> bool {
    &&& 0 <= f < s.len()
    &&& s[f].start == start
    &&& forall|j: int| f < j < s.len() ==> (#[trigger] s[j]).start != start
}

/// Every run found by first fit avoids the recorded runs, lies in usable RAM at or above
/// `LOW_MEMORY_END`, and ends inside the physical address space.
pub proof fn lemma_first_fit_sound(
    s: Seq<FrameAllocation>,
    pages: int,
    mmap: Seq<MemoryMapEntry>,
    total_ram: int,
)
    requires
        table_ok(s),
        pages >= 0,
        total_ram <= MAX_PHYS,
    ensures
        first_fit(s, pages, mmap, total_ram) matches Some(a) ==> {
            &&& !overlaps_any(s, a, pages)
            &&& valid_ram(mmap, a, pages)
            &&& a >= LOW_MEMORY_END
            &&& a + pages * PAGE_SIZE <= MAX_PHYS
        },
{
    lemma_first_fit_from_sound(s, 0, first_fit_start(s), pages, mmap, total_ram);
}

proof fn lemma_first_fit_from_sound(
    s: Seq<FrameAllocation>,
    i: int,
    prev_end: int,
    pages: int,
    mmap: Seq<MemoryMapEntry>,
    total_ram: int,
)
    requires
        table_ok(s),
        0 <= i <= s.len(),
        pages >= 0,
        total_ram <= MAX_PHYS,
        LOW_MEMORY_END <= prev_end <= MAX_PHYS,
        forall|j: int| 0 <= j < i ==> alloc_end(#[trigger] s[j]) <= prev_end,
    ensures
        first_fit_from(s, i, prev_end, pages, mmap, total_ram) matches Some(a) ==> {
            &&& !overlaps_any(s, a, pages)
            &&& valid_ram(mmap, a, pages)
            &&& a >= LOW_MEMORY_END
            &&& a + pages * PAGE_SIZE <= MAX_PHYS
        },
    decreases s.len() - i,
{
    if i >= s.len() {
        assert forall|j: int| 0 <= j < s.len() implies !#[trigger] runs_overlap(
            prev_end,
            prev_end + pages * PAGE_SIZE,
            s[j].start as int,
            alloc_end(s[j]),
        ) by {}
    } else {
        let cur = s[i];
        if cur.start > prev_end && cur.start - prev_end >= pages * PAGE_SIZE && valid_ram(
            mmap,
            prev_end,
            pages,
        ) {
            assert forall|j: int| 0 <= j < s.len() implies !#[trigger] runs_overlap(
                prev_end,
                prev_end + pages * PAGE_SIZE,
                s[j].start as int,
                alloc_end(s[j]),
            ) by {
                if j >= i {
                    assert(s[i].start <= s[j].start);
                }
            }
            assert(alloc_end(cur) <= MAX_PHYS);
        } else {
            assert(alloc_end(cur) <= MAX_PHYS);
            lemma_first_fit_from_sound(
                s,
                i + 1,
                max_int(prev_end, alloc_end(cur)),
                pages,
                mmap,
                total_ram,
            );
        }
    }
}

/// Total pages of the runs of `s`.
pub open spec fn total_pages(s: Seq<FrameAllocation>) -> int
    decreases s.len(),
{
    if s.len() == 0 {
        0
    } else {
        total_pages(s.drop_last()) + s.last().count
    }
}

/// Pages of the runs of `s` that belong to exactly `pid`.
pub open spec fn pid_pages(s: Seq<FrameAllocation>, pid: u64) -> int
    decreases s.len(),
{
    if s.len() == 0 {
        0
    } else {
        pid_pages(s.drop_last(), pid) + if s.last().pid == pid {
            s.last().count as int
        } else {
            0
        }
    }
}

/// The furthest end among the runs of `s` (0 for no runs).
pub open spec fn furthest_end(s: Seq<FrameAllocation>) -> int
    decreases s.len(),
{
    if s.len() == 0 {
        0
    } else {
        max_int(furthest_end(s.drop_last()), alloc_end(s.last()))
    }
}

proof fn lemma_furthest_end_bound(s: Seq<FrameAllocation>, x: int)
    requires
        x >= 0,
        forall|j: int| 0 <= j < s.len() ==> alloc_end(#[trigger] s[j]) <= x,
    ensures
        furthest_end(s) <= x,
    decreases s.len(),
{
    if s.len() > 0 {
        lemma_furthest_end_bound(s.drop_last(), x);
    }
}

/// The runs of a valid table cover no more bytes than the physical address space.
pub proof fn lemma_total_pages_bound(s: Seq<FrameAllocation>)
    requires
        table_ok(s),
    ensures
        total_pages(s) * PAGE_SIZE <= furthest_end(s),
        furthest_end(s) <= MAX_PHYS,
        0 <= total_pages(s),
    decreases s.len(),
{
    if s.len() > 0 {
        let t = s.drop_last();
        assert(table_ok(t));
        lemma_total_pages_bound(t);
        let l = s.last();
        assert(alloc_end(l) <= MAX_PHYS);
        if l.count > 0 {
            assert forall|j: int| 0 <= j < t.len() implies alloc_end(#[trigger] t[j]) <= l.start by {
                assert(t[j] == s[j]);
                assert(s[j].start <= s[s.len() - 1].start);
                assert(!runs_overlap(s[j].start as int, alloc_end(s[j]), s[s.len() - 1].start as int, alloc_end(s[s.len() - 1])));
            }
            lemma_furthest_end_bound(t, l.start as int);
        }
    }
}

proof fn lemma_pid_pages_le(s: Seq<FrameAllocation>, pid: u64)
    ensures
        0 <= pid_pages(s, pid) <= total_pages(s),
    decreases s.len(),
{
    if s.len() > 0 {
        lemma_pid_pages_le(s.drop_last(), pid);
    }
}

/// The table after freeing the run that starts at `addr`: the last such run is dropped; with
/// none, the table is unchanged.
pub open spec fn after_free(s: Seq<FrameAllocation>, addr: u64) -> Seq<FrameAllocation> {
    if exists|f: int| #[trigger] last_with_start(s, addr, f) {
        s.remove(choose|f: int| #[trigger] last_with_start(s, addr, f))
    } else {
        s
    }
}

proof fn lemma_last_with_start_unique(s: Seq<FrameAllocation>, addr: u64, f: int, g: int)
    requires
        last_with_start(s, addr, f),
        last_with_start(s, addr, g),
    ensures
        f == g,
{
}

/// Freeing the start of a run that was just recorded drops exactly that run again.
pub proof fn lemma_free_undoes_insert(s: Seq<FrameAllocation>, a: FrameAllocation, idx: int)
    requires
        inserted_at(s, a, idx),
    ensures
        after_free(s.insert(idx, a), a.start) == s,
{
    let t = s.insert(idx, a);
    assert(last_with_start(t, a.start, idx));
    let f = choose|f: int| #[trigger] last_with_start(t, a.start, f);
    lemma_last_with_start_unique(t, a.start, f, idx);
    assert(t.remove(idx) =~= s);
}

/// The physical memory manager: an allocation table whose used slots form a prefix.
pub struct StructPmm {
    allocations: [FrameAllocation; MAX_ALLOCS],
    total_ram: u64,
    mmap: [MemoryMapEntry; MMAP_ENTRIES],
    used_len: Ghost<nat>,
}

impl StructPmm {
    pub closed spec fn wf(&self) -> bool {
        &&& self.used_len@ <= MAX_ALLOCS
        &&& forall|i: int|
            0 <= i < MAX_ALLOCS ==> (#[trigger] self.allocations@[i]).used == (i
                < self.used_len@)
        &&& table_ok(self.allocations@.take(self.used_len@ as int))
        &&& self.total_ram <= MAX_PHYS
        &&& forall|i: int|
            0 <= i < MMAP_ENTRIES ==> (#[trigger] self.mmap@[i]).base + self.mmap@[i].length
                <= u64::MAX
    }

    /// The used runs, ordered by start.
    pub closed spec fn view(&self) -> Seq<FrameAllocation> {
        self.allocations@.take(self.used_len@ as int)
    }

    pub closed spec fn spec_mmap(&self) -> Seq<MemoryMapEntry> {
        self.mmap@
    }

    pub closed spec fn spec_total_ram(&self) -> u64 {
        self.total_ram
    }

    proof fn lemma_view(&self)
        requires
            self.wf(),
        ensures
            self@.len() == self.used_len@,
            table_ok(self@),
            forall|i: int| 0 <= i < self.used_len@ ==> #[trigger] self@[i] == self.allocations@[i],
    {
    }

    /// An empty table over an empty memory map.
    pub fn new() -> (p: StructPmm)
        ensures
            p.wf(),
            p@ == Seq::<FrameAllocation>::empty(),
            p.spec_total_ram() == 0,
    {
        let p = StructPmm {
            allocations: [FrameAllocation { pid: 0, start: 0, count: 0, used: false }; MAX_ALLOCS],
            total_ram: 0,
            mmap: [MemoryMapEntry { base: 0, length: 0, memory_type: 0 }; MMAP_ENTRIES],
            used_len: Ghost(0),
        };
        proof {
            assert(p@ =~= Seq::<FrameAllocation>::empty());
        }
        p
    }

    /// Number of used slots: the length of the used prefix.
    fn count_used(&self) -> (n: usize)
        requires
            self.wf(),
        ensures
            n == self.used_len@,
            n == self@.len(),
    {
        let mut i: usize = 0;
        while i < MAX_ALLOCS
            invariant
                self.wf(),
                i <= self.used_len@,
            decreases MAX_ALLOCS - i,
        {
            if !self.allocations[i].used {
                return i;
            }
            i += 1;
        }
        i
    }

    /// Whether `count` pages at `start` overlap a used run.
    fn is_overlap(&self, start: u64, count: usize) -> (b: bool)
        requires
            self.wf(),
            start + count * PAGE_SIZE <= u64::MAX,
        ensures
            b == overlaps_any(self@, start as int, count as int),
    {
        let end = start + (count as u64 * PAGE_SIZE);
        let mut i: usize = 0;
        while i < MAX_ALLOCS
            invariant
                self.wf(),
                end == start + count * PAGE_SIZE,
                i <= self.used_len@,
                forall|j: int|
                    0 <= j < i ==> !#[trigger] runs_overlap(
                        start as int,
                        end as int,
                        self@[j].start as int,
                        alloc_end(self@[j]),
                    ),
            decreases MAX_ALLOCS - i,
        {
            let alloc = self.allocations[i];
            if alloc.used {
                proof {
                    assert(self@[i as int] == alloc);
                    assert(alloc_end(alloc) <= MAX_PHYS);
                }
                let a_end = alloc.start + (alloc.count as u64 * PAGE_SIZE);
                if start < a_end && end > alloc.start {
                    proof {
                        assert(runs_overlap(start as int, end as int, self@[i as int].start as int, alloc_end(self@[i as int])));
                    }
                    return true;
                }
            } else {
                proof {
                    assert(i == self.used_len@);
                    assert(!overlaps_any(self@, start as int, count as int));
                }
                return false;
            }
            i += 1;
        }
        proof {
            assert(!overlaps_any(self@, start as int, count as int));
        }
        false
    }

    /// Whether one usable region of the memory map holds `count` pages at `start`.
    fn is_valid_ram(&self, start: u64, count: usize) -> (b: bool)
        requires
            self.wf(),
            start + count * PAGE_SIZE <= u64::MAX,
        ensures
            b == valid_ram(self.spec_mmap(), start as int, count as int),
    {
        let end = start + (count as u64 * PAGE_SIZE);
        let mut i: usize = 0;
        while i < MMAP_ENTRIES
            invariant
                self.wf(),
                end == start + count * PAGE_SIZE,
                i <= MMAP_ENTRIES,
                forall|j: int|
                    0 <= j < i ==> !(#[trigger] self.mmap@[j].memory_type == 1 && self.mmap@[j].length
                        > 0 && start >= self.mmap@[j].base && end <= self.mmap@[j].base
                        + self.mmap@[j].length),
            decreases MMAP_ENTRIES - i,
        {
            let entry = self.mmap[i];
            if entry.memory_type == 1 && entry.length > 0 {
                let entry_end = entry.base + entry.length;
                if start >= entry.base && end <= entry_end {
                    return true;
                }
            }
            i += 1;
        }
        false
    }

    /// Records a run at its ordered place in the table; refuses when every slot is used.
    fn add_allocation(&mut self, pid: u64, start: u64, count: usize) -> (ok: bool)
        requires
            old(self).wf(),
            start + count * PAGE_SIZE <= MAX_PHYS,
            !overlaps_any(old(self)@, start as int, count as int),
        ensures
            final(self).wf(),
            final(self).spec_mmap() == old(self).spec_mmap(),
            final(self).spec_total_ram() == old(self).spec_total_ram(),
            ok == (old(self)@.len() < MAX_ALLOCS),
            !ok ==> final(self)@ == old(self)@,
            ok ==> exists|idx: int|
                inserted_at(old(self)@, FrameAllocation { pid, start, count, used: true }, idx)
                    && final(self)@ == old(self)@.insert(
                    idx,
                    FrameAllocation { pid, start, count, used: true },
                ),
    {
        let mut count_used: usize = 0;
        let mut k: usize = 0;
        while k < MAX_ALLOCS
            invariant
                self.wf(),
                k <= MAX_ALLOCS,
                count_used == if k <= self.used_len@ { k as nat } else { self.used_len@ },
            decreases MAX_ALLOCS - k,
        {
            if self.allocations[k].used {
                count_used += 1;
            }
            k += 1;
        }
        if count_used >= MAX_ALLOCS {
            return false;
        }
        let ghost s = self@;
        let ghost a0 = self.allocations@;
        let mut idx: usize = 0;
        while idx < count_used
            invariant
                self.wf(),
                count_used == self.used_len@,
                s == self@,
                idx <= count_used,
                forall|i: int| 0 <= i < idx ==> (#[trigger] s[i]).start <= start,
            ensures
                idx <= count_used,
                forall|i: int| 0 <= i < idx ==> (#[trigger] s[i]).start <= start,
                idx < count_used ==> s[idx as int].start > start,
            decreases count_used - idx,
        {
            if self.allocations[idx].start > start {
                break;
            }
            idx += 1;
        }
        proof {
            assert forall|i: int| idx <= i < s.len() implies (#[trigger] s[i]).start > start by {
                if idx < count_used {
                    assert(s[idx as int].start > start);
                    assert(s[idx as int].start <= s[i].start);
                }
            }
        }
        let mut i = count_used;
        while i > idx
            invariant
                count_used < MAX_ALLOCS,
                idx <= i <= count_used,
                self.allocations@.len() == MAX_ALLOCS,
                forall|j: int| i < j <= count_used ==> #[trigger] self.allocations@[j] == a0[j - 1],
                forall|j: int| 0 <= j <= i ==> #[trigger] self.allocations@[j] == a0[j],
                forall|j: int| count_used < j < MAX_ALLOCS ==> #[trigger] self.allocations@[j] == a0[j],
                self.used_len == old(self).used_len,
                self.mmap == old(self).mmap,
                self.total_ram == old(self).total_ram,
            decreases i - idx,
        {
            self.allocations[i] = self.allocations[i - 1];
            i -= 1;
        }
        let a = FrameAllocation { pid, start, count, used: true };
        self.allocations[idx] = a;
        self.used_len = Ghost((count_used + 1) as nat);
        proof {
            assert(inserted_at(s, a, idx as int));
            lemma_insert_ok(s, a, idx as int);
            assert(self@ =~= s.insert(idx as int, a));
            assert forall|j: int| 0 <= j < MAX_ALLOCS implies (#[trigger] self.allocations@[j]).used
                == (j < self.used_len@) by {
                if j < idx {
                    assert(self.allocations@[j] == a0[j]);
                } else if idx < j <= count_used {
                    assert(self.allocations@[j] == a0[j - 1]);
                } else if j > count_used {
                    assert(self.allocations@[j] == a0[j]);
                }
            }
        }
        true
    }

    /// Drops the last used run that starts at `start` and returns it, so that its pages can
    /// be cleared; returns `None` and changes nothing when no run starts there.
    fn remove_allocation(&mut self, start: u64) -> (removed: Option<FrameAllocation>)
        requires
            old(self).wf(),
        ensures
            final(self).wf(),
            final(self).spec_mmap() == old(self).spec_mmap(),
            final(self).spec_total_ram() == old(self).spec_total_ram(),
            removed is None <==> forall|j: int|
                0 <= j < old(self)@.len() ==> (#[trigger] old(self)@[j]).start != start,
            removed is None ==> final(self)@ == old(self)@,
            removed is Some ==> exists|f: int|
                last_with_start(old(self)@, start, f) && removed == Some(old(self)@[f])
                    && final(self)@ == old(self)@.remove(f),
    {
        let ghost s = self@;
        let mut found_idx = MAX_ALLOCS;
        let mut count_used: usize = 0;
        let mut i: usize = 0;
        while i < MAX_ALLOCS
            invariant
                self.wf(),
                s == self@,
                i <= self.used_len@,
                count_used == i,
                found_idx == MAX_ALLOCS ==> forall|j: int| 0 <= j < i ==> (#[trigger] s[j]).start != start,
                found_idx != MAX_ALLOCS ==> found_idx < i && s[found_idx as int].start == start && forall|j: int|
                    found_idx < j < i ==> (#[trigger] s[j]).start != start,
            ensures
                count_used == self.used_len@,
                found_idx == MAX_ALLOCS ==> forall|j: int| 0 <= j < s.len() ==> (#[trigger] s[j]).start != start,
                found_idx != MAX_ALLOCS ==> last_with_start(s, start, found_idx as int),
            decreases MAX_ALLOCS - i,
        {
            if self.allocations[i].used {
                count_used += 1;
                if self.allocations[i].start == start {
                    found_idx = i;
                }
            } else {
                break;
            }
            i += 1;
        }
        if found_idx == MAX_ALLOCS {
            return None;
        }
        let removed = self.allocations[found_idx];
        let ghost a0 = self.allocations@;
        let mut k = found_idx;
        while k < count_used - 1
            invariant
                found_idx <= k < count_used,
                count_used == self.used_len@,
                count_used <= MAX_ALLOCS,
                self.allocations@.len() == MAX_ALLOCS,
                forall|j: int| found_idx <= j < k ==> #[trigger] self.allocations@[j] == a0[j + 1],
                forall|j: int| 0 <= j < found_idx ==> #[trigger] self.allocations@[j] == a0[j],
                forall|j: int| k <= j < MAX_ALLOCS ==> #[trigger] self.allocations@[j] == a0[j],
                self.used_len == old(self).used_len,
                self.mmap == old(self).mmap,
                self.total_ram == old(self).total_ram,
            decreases count_used - k,
        {
            self.allocations[k] = self.allocations[k + 1];
            k += 1;
        }
        let mut last = self.allocations[count_used - 1];
        last.used = false;
        self.allocations[count_used - 1] = last;
        self.used_len = Ghost((count_used - 1) as nat);
        proof {
            lemma_remove_ok(s, found_idx as int);
            assert(self@ =~= s.remove(found_idx as int));
            assert forall|j: int| 0 <= j < MAX_ALLOCS implies (#[trigger] self.allocations@[j]).used
                == (j < self.used_len@) by {
                if j < found_idx {
                    assert(self.allocations@[j] == a0[j]);
                } else if found_idx <= j < count_used - 1 {
                    assert(self.allocations@[j] == a0[j + 1]);
                } else if j >= count_used {
                    assert(self.allocations@[j] == a0[j]);
                }
            }
        }
        Some(removed)
    }

    /// First-fit allocation of enough pages for `bytes` bytes, owned by `pid`; returns the
    /// physical start address. The pages are not cleared here.
    pub fn allocate_memory(&mut self, bytes: usize, pid: u64) -> (r: Option<u64>)
        requires
            old(self).wf(),
            bytes <= MAX_PHYS,
            bytes + PAGE_SIZE <= usize::MAX,
        ensures
            final(self).wf(),
            final(self).spec_mmap() == old(self).spec_mmap(),
            final(self).spec_total_ram() == old(self).spec_total_ram(),
            r is None ==> final(self)@ == old(self)@,
            r is None <==> (pages_for(bytes as int) == 0 || old(self)@.len() >= MAX_ALLOCS
                || first_fit(
                old(self)@,
                pages_for(bytes as int),
                old(self).spec_mmap(),
                old(self).spec_total_ram() as int,
            ) is None),
            r matches Some(a) ==> {
                &&& first_fit(
                    old(self)@,
                    pages_for(bytes as int),
                    old(self).spec_mmap(),
                    old(self).spec_total_ram() as int,
                ) == Some(a as int)
                &&& exists|idx: int|
                    #[trigger] inserted_at(
                        old(self)@,
                        FrameAllocation {
                            pid,
                            start: a,
                            count: pages_for(bytes as int) as usize,
                            used: true,
                        },
                        idx,
                    ) && final(self)@ == old(self)@.insert(
                        idx,
                        FrameAllocation {
                            pid,
                            start: a,
                            count: pages_for(bytes as int) as usize,
                            used: true,
                        },
                    )
            },
    {
        let pages = (bytes + PAGE_SIZE as usize - 1) / PAGE_SIZE as usize;
        if pages == 0 {
            return None;
        }
        let ghost s = self@;
        let ghost mm = self.mmap@;
        let ghost tr = self.total_ram as int;
        let count_used = self.count_used();
        proof {
            self.lemma_view();
        }
        let size = pages as u64 * PAGE_SIZE;
        let mut prev_end: u64 = if count_used > 0 {
            self.allocations[0].start + (self.allocations[0].count as u64 * PAGE_SIZE)
        } else {
            LOW_MEMORY_END
        };
        if prev_end < LOW_MEMORY_END {
            prev_end = LOW_MEMORY_END;
        }
        let mut found = false;
        let mut found_addr: u64 = 0;
        let mut i: usize = 0;
        while i < count_used
            invariant_except_break
                !found,
                first_fit(s, pages as int, mm, tr) == first_fit_from(s, i as int, prev_end as int, pages as int, mm, tr),
            invariant
                self.wf(),
                s == self@,
                mm == self.mmap@,
                tr == self.total_ram,
                count_used == s.len(),
                size == pages * PAGE_SIZE,
                pages == pages_for(bytes as int),
                pages <= MAX_PHYS,
                i <= count_used,
                LOW_MEMORY_END <= prev_end <= MAX_PHYS,
            ensures
                found ==> first_fit(s, pages as int, mm, tr) == Some(found_addr as int),
                !found ==> first_fit(s, pages as int, mm, tr) == first_fit_from(s, count_used as int, prev_end as int, pages as int, mm, tr),
                LOW_MEMORY_END <= prev_end <= MAX_PHYS,
            decreases count_used - i,
        {
            let current = self.allocations[i];
            proof {
                assert(s[i as int] == current);
                assert(alloc_end(current) <= MAX_PHYS);
            }
            if current.start > prev_end {
                let gap_size = current.start - prev_end;
                if gap_size >= size {
                    if self.is_valid_ram(prev_end, pages) {
                        found_addr = prev_end;
                        found = true;
                        assert(first_fit_from(s, i as int, prev_end as int, pages as int, mm, tr)
                            == Some(prev_end as int));
                        break;
                    }
                }
            }
            let current_end = current.start + (current.count as u64 * PAGE_SIZE);
            let ghost pe = prev_end;
            if current_end > prev_end {
                prev_end = current_end;
            }
            assert(first_fit_from(s, i as int, pe as int, pages as int, mm, tr) == first_fit_from(
                s, i + 1, prev_end as int, pages as int, mm, tr));
            i += 1;
        }
        if !found {
            if prev_end + size <= self.total_ram {
                if self.is_valid_ram(prev_end, pages) {
                    found_addr = prev_end;
                    found = true;
                }
            }
        }
        proof {
            lemma_first_fit_sound(s, pages as int, mm, tr);
        }
        if found {
            if self.add_allocation(pid, found_addr, pages) {
                return Some(found_addr);
            }
        }
        None
    }

    /// Allocates `count` pages for `pid`, as `allocate_memory` does for `count` pages of bytes.
    pub fn allocate_frames(&mut self, count: usize, pid: u64) -> (r: Option<u64>)
        requires
            old(self).wf(),
            count * PAGE_SIZE <= MAX_PHYS,
            count * PAGE_SIZE + PAGE_SIZE <= usize::MAX,
        ensures
            final(self).wf(),
            final(self).spec_mmap() == old(self).spec_mmap(),
            final(self).spec_total_ram() == old(self).spec_total_ram(),
            r is None ==> final(self)@ == old(self)@,
            r is None <==> (count == 0 || old(self)@.len() >= MAX_ALLOCS || first_fit(
                old(self)@,
                count as int,
                old(self).spec_mmap(),
                old(self).spec_total_ram() as int,
            ) is None),
            r matches Some(a) ==> {
                &&& first_fit(
                    old(self)@,
                    count as int,
                    old(self).spec_mmap(),
                    old(self).spec_total_ram() as int,
                ) == Some(a as int)
                &&& exists|idx: int|
                    #[trigger] inserted_at(
                        old(self)@,
                        FrameAllocation { pid, start: a, count, used: true },
                        idx,
                    ) && final(self)@ == old(self)@.insert(
                        idx,
                        FrameAllocation { pid, start: a, count, used: true },
                    )
            },
    {
        proof {
            assert(pages_for(count * PAGE_SIZE) == count) by (nonlinear_arith)
                requires count >= 0;
        }
        self.allocate_memory(count * PAGE_SIZE as usize, pid)
    }

    /// Allocates one page for `pid`.
    pub fn allocate_frame(&mut self, pid: u64) -> (r: Option<u64>)
        requires
            old(self).wf(),
        ensures
            final(self).wf(),
            final(self).spec_mmap() == old(self).spec_mmap(),
            final(self).spec_total_ram() == old(self).spec_total_ram(),
            r is None ==> final(self)@ == old(self)@,
            r is None <==> (old(self)@.len() >= MAX_ALLOCS || first_fit(
                old(self)@,
                1,
                old(self).spec_mmap(),
                old(self).spec_total_ram() as int,
            ) is None),
            r matches Some(a) ==> {
                &&& first_fit(
                    old(self)@,
                    1,
                    old(self).spec_mmap(),
                    old(self).spec_total_ram() as int,
                ) == Some(a as int)
                &&& exists|idx: int|
                    #[trigger] inserted_at(
                        old(self)@,
                        FrameAllocation { pid, start: a, count: 1, used: true },
                        idx,
                    ) && final(self)@ == old(self)@.insert(
                        idx,
                        FrameAllocation { pid, start: a, count: 1, used: true },
                    )
            },
    {
        self.allocate_frames(1, pid)
    }

    /// Claims `count` pages at `addr` for the kernel (pid 0) unless they overlap a used run or
    /// the table is full. The pages are not cleared here.
    pub fn reserve_frames(&mut self, addr: u64, count: usize) -> (ok: bool)
        requires
            old(self).wf(),
            addr + count * PAGE_SIZE <= MAX_PHYS,
        ensures
            final(self).wf(),
            final(self).spec_mmap() == old(self).spec_mmap(),
            final(self).spec_total_ram() == old(self).spec_total_ram(),
            ok == (!overlaps_any(old(self)@, addr as int, count as int) && old(self)@.len()
                < MAX_ALLOCS),
            !ok ==> final(self)@ == old(self)@,
            ok ==> exists|idx: int|
                #[trigger] inserted_at(
                    old(self)@,
                    FrameAllocation { pid: 0, start: addr, count, used: true },
                    idx,
                ) && final(self)@ == old(self)@.insert(
                    idx,
                    FrameAllocation { pid: 0, start: addr, count, used: true },
                ),
    {
        if self.is_overlap(addr, count) {
            return false;
        }
        self.add_allocation(0, addr, count)
    }

    /// Claims the page at `addr`.
    pub fn reserve_frame(&mut self, addr: u64) -> (ok: bool)
        requires
            old(self).wf(),
            addr + PAGE_SIZE <= MAX_PHYS,
        ensures
            final(self).wf(),
            final(self).spec_mmap() == old(self).spec_mmap(),
            final(self).spec_total_ram() == old(self).spec_total_ram(),
            ok == (!overlaps_any(old(self)@, addr as int, 1) && old(self)@.len() < MAX_ALLOCS),
            !ok ==> final(self)@ == old(self)@,
            ok ==> exists|idx: int|
                #[trigger] inserted_at(
                    old(self)@,
                    FrameAllocation { pid: 0, start: addr, count: 1, used: true },
                    idx,
                ) && final(self)@ == old(self)@.insert(
                    idx,
                    FrameAllocation { pid: 0, start: addr, count: 1, used: true },
                ),
    {
        self.reserve_frames(addr, 1)
    }

    /// Releases the last run that starts at `addr` and returns it, so that its pages can be
    /// cleared.
    pub fn free_frame(&mut self, addr: u64) -> (removed: Option<FrameAllocation>)
        requires
            old(self).wf(),
        ensures
            final(self).wf(),
            final(self).spec_mmap() == old(self).spec_mmap(),
            final(self).spec_total_ram() == old(self).spec_total_ram(),
            removed is None <==> forall|j: int|
                0 <= j < old(self)@.len() ==> (#[trigger] old(self)@[j]).start != addr,
            removed is None ==> final(self)@ == old(self)@,
            removed is Some ==> exists|f: int|
                #[trigger] last_with_start(old(self)@, addr, f) && removed == Some(old(self)@[f])
                    && final(self)@ == old(self)@.remove(f),
            final(self)@ == after_free(old(self)@, addr),
    {
        let r = self.remove_allocation(addr);
        proof {
            if r is Some {
                let f = choose|f: int|
                    #[trigger] last_with_start(old(self)@, addr, f) && r == Some(old(self)@[f])
                        && self@ == old(self)@.remove(f);
                let g = choose|g: int| #[trigger] last_with_start(old(self)@, addr, g);
                lemma_last_with_start_unique(old(self)@, addr, f, g);
            } else {
                assert(!exists|f: int| #[trigger] last_with_start(old(self)@, addr, f));
            }
        }
        r
    }

    /// Bytes held by all used runs.
    pub fn get_used_memory(&self) -> (bytes: usize)
        requires
            self.wf(),
            total_pages(self@) * PAGE_SIZE <= usize::MAX,
        ensures
            bytes == total_pages(self@) * PAGE_SIZE,
    {
        proof {
            self.lemma_view();
            lemma_total_pages_bound(self@);
        }
        let ghost s = self@;
        let mut total: usize = 0;
        let mut i: usize = 0;
        while i < MAX_ALLOCS
            invariant
                self.wf(),
                s == self@,
                i <= MAX_ALLOCS,
                total == total_pages(s.take(if i <= s.len() { i as int } else { s.len() as int })),
                total_pages(s) * PAGE_SIZE <= usize::MAX,
            decreases MAX_ALLOCS - i,
        {
            if self.allocations[i].used {
                proof {
                    assert(s.take(i + 1).drop_last() =~= s.take(i as int));
                    lemma_prefix_pages_le(s, i + 1);
                }
                total += self.allocations[i].count;
            }
            i += 1;
        }
        proof {
            assert(s.take(s.len() as int) =~= s);
        }
        total * PAGE_SIZE as usize
    }

    /// The highest address the memory map reported.
    pub fn get_total_memory(&self) -> (bytes: u64)
        ensures
            bytes == self.spec_total_ram(),
    {
        self.total_ram
    }

    /// Bytes held by the runs that belong to exactly `pid`.
    pub fn get_memory_usage_by_pid(&self, pid: u64) -> (bytes: usize)
        requires
            self.wf(),
            total_pages(self@) * PAGE_SIZE <= usize::MAX,
        ensures
            bytes == pid_pages(self@, pid) * PAGE_SIZE,
    {
        let ghost s = self@;
        let mut total_pages_found: usize = 0;
        let mut i: usize = 0;
        while i < MAX_ALLOCS
            invariant
                self.wf(),
                s == self@,
                i <= s.len(),
                total_pages_found == pid_pages(s.take(i as int), pid),
                total_pages(s) * PAGE_SIZE <= usize::MAX,
            ensures
                i == s.len(),
                total_pages_found == pid_pages(s.take(i as int), pid),
            decreases MAX_ALLOCS - i,
        {
            if self.allocations[i].used {
                proof {
                    assert(s.take(i + 1).drop_last() =~= s.take(i as int));
                    lemma_prefix_pages_le(s, i + 1);
                    lemma_pid_pages_le(s.take(i + 1), pid);
                }
                if self.allocations[i].pid == pid {
                    total_pages_found += self.allocations[i].count;
                }
            } else {
                break;
            }
            i += 1;
        }
        proof {
            assert(s.take(i as int) =~= s);
            lemma_pid_pages_le(s, pid);
        }
        total_pages_found * PAGE_SIZE as usize
    }
    /// Drops the used run at `idx`, keeping the order of the others.
    fn remove_at(&mut self, idx: usize)
        requires
            old(self).wf(),
            idx < old(self)@.len(),
        ensures
            final(self).wf(),
            final(self).spec_mmap() == old(self).spec_mmap(),
            final(self).spec_total_ram() == old(self).spec_total_ram(),
            final(self)@ == old(self)@.remove(idx as int),
    {
        let ghost s = self@;
        let count_used = self.count_used();
        let ghost a0 = self.allocations@;
        let mut k = idx;
        while k < count_used - 1
            invariant
                idx <= k < count_used,
                count_used == self.used_len@,
                count_used <= MAX_ALLOCS,
                self.allocations@.len() == MAX_ALLOCS,
                forall|j: int| idx <= j < k ==> #[trigger] self.allocations@[j] == a0[j + 1],
                forall|j: int| 0 <= j < idx ==> #[trigger] self.allocations@[j] == a0[j],
                forall|j: int| k <= j < MAX_ALLOCS ==> #[trigger] self.allocations@[j] == a0[j],
                self.used_len == old(self).used_len,
                self.mmap == old(self).mmap,
                self.total_ram == old(self).total_ram,
            decreases count_used - k,
        {
            self.allocations[k] = self.allocations[k + 1];
            k += 1;
        }
        let mut last = self.allocations[count_used - 1];
        last.used = false;
        self.allocations[count_used - 1] = last;
        self.used_len = Ghost((count_used - 1) as nat);
        proof {
            lemma_remove_ok(s, idx as int);
            assert(self@ =~= s.remove(idx as int));
            assert forall|j: int| 0 <= j < MAX_ALLOCS implies (#[trigger] self.allocations@[j]).used
                == (j < self.used_len@) by {
                if j < idx {
                    assert(self.allocations@[j] == a0[j]);
                } else if idx <= j < count_used - 1 {
                    assert(self.allocations@[j] == a0[j + 1]);
                } else if j >= count_used {
                    assert(self.allocations@[j] == a0[j]);
                }
            }
        }
    }

    /// Releases every run that belongs to `pid` (every thread of the process when the low 32
    /// bits of `pid` are zero) and returns them, in table order, so that their pages can be
    /// cleared; the other runs keep their order.
    pub fn free_frames_by_pid(&mut self, pid: u64) -> (freed: Vec<FrameAllocation>)
        requires
            old(self).wf(),
        ensures
            final(self).wf(),
            final(self).spec_mmap() == old(self).spec_mmap(),
            final(self).spec_total_ram() == old(self).spec_total_ram(),
            final(self)@ == old(self)@.filter(|a: FrameAllocation| !owned_by(a, pid)),
            freed@ == old(self)@.filter(|a: FrameAllocation| owned_by(a, pid)),
    {
        let ghost s = self@;
        let target_main = pid >> 32;
        let target_child = pid & 0xFFFFFFFF;
        proof {
            assert(pid >> 32u64 == pid / 0x1_0000_0000) by (bit_vector);
            assert((pid & 0xFFFFFFFFu64 == 0) == (pid % 0x1_0000_0000 == 0)) by (bit_vector);
        }
        let mut freed: Vec<FrameAllocation> = Vec::new();
        let mut i: usize = 0;
        let ghost mut k: int = 0;
        while i < MAX_ALLOCS
            invariant
                self.wf(),
                self.spec_mmap() == old(self).spec_mmap(),
                self.spec_total_ram() == old(self).spec_total_ram(),
                target_main == pid / 0x1_0000_0000,
                (target_child == 0) == (pid % 0x1_0000_0000 == 0),
                0 <= k <= s.len(),
                i == s.take(k).filter(|a: FrameAllocation| !owned_by(a, pid)).len(),
                self@ == s.take(k).filter(|a: FrameAllocation| !owned_by(a, pid)) + s.skip(k),
                freed@ == s.take(k).filter(|a: FrameAllocation| owned_by(a, pid)),
            ensures
                k == s.len(),
                self@ == s.take(k).filter(|a: FrameAllocation| !owned_by(a, pid)) + s.skip(k),
                freed@ == s.take(k).filter(|a: FrameAllocation| owned_by(a, pid)),
            decreases self@.len() - i,
        {
            proof {
                assert(self@.len() == i + s.len() - k);
            }
            if self.allocations[i].used {
                proof {
                    self.lemma_view();
                    assert(self@[i as int] == s[k]);
                    assert(s.take(k + 1).drop_last() =~= s.take(k));
                    s.take(k).lemma_filter_push(s[k], |a: FrameAllocation| !owned_by(a, pid));
                    s.take(k).lemma_filter_push(s[k], |a: FrameAllocation| owned_by(a, pid));
                    assert(s.take(k + 1) =~= s.take(k).push(s[k]));
                }
                let alloc = self.allocations[i];
                let alloc_pid = alloc.pid;
                let alloc_main = alloc_pid >> 32;
                proof {
                    assert(alloc_pid >> 32u64 == alloc_pid / 0x1_0000_0000) by (bit_vector);
                }
                let should_free = if target_child == 0 {
                    alloc_main == target_main
                } else {
                    alloc_pid == pid
                };
                proof {
                    assert(should_free == owned_by(alloc, pid));
                }
                let ghost v0 = self@;
                if should_free {
                    freed.push(alloc);
                    self.remove_at(i);
                    proof {
                        assert(s.skip(k) =~= seq![s[k]] + s.skip(k + 1));
                        assert(v0 =~= s.take(k).filter(|a: FrameAllocation| !owned_by(a, pid)) + (seq![s[k]] + s.skip(k + 1)));
                        assert(v0.remove(i as int) =~= s.take(k).filter(|a: FrameAllocation| !owned_by(a, pid)) + s.skip(k + 1));
                        k = k + 1;
                        assert(self@ =~= s.take(k).filter(|a: FrameAllocation| !owned_by(a, pid)) + s.skip(k));
                    }
                    continue;
                }
                proof {
                    assert(s.skip(k) =~= seq![s[k]] + s.skip(k + 1));
                    k = k + 1;
                    assert(self@ =~= s.take(k).filter(|a: FrameAllocation| !owned_by(a, pid)) + s.skip(k));
                }
            } else {
                proof {
                    assert(self@.len() == i);
                    assert(s.skip(k).len() == 0);
                }
                break;
            }
            i += 1;
        }
        proof {
            assert(s.take(k) =~= s);
            assert(s.skip(k) =~= Seq::<FrameAllocation>::empty());
            assert(self@ =~= s.filter(|a: FrameAllocation| !owned_by(a, pid)));
        }
        freed
    }

    /// The used runs, in table order.
    pub fn allocation_list(&self) -> (list: Vec<FrameAllocation>)
        requires
            self.wf(),
        ensures
            list@ == self@,
    {
        let n = self.count_used();
        let mut list: Vec<FrameAllocation> = Vec::new();
        let mut i: usize = 0;
        while i < n
            invariant
                self.wf(),
                n == self@.len(),
                i <= n,
                list@ == self@.take(i as int),
            decreases n - i,
        {
            proof {
                self.lemma_view();
            }
            list.push(self.allocations[i]);
            i += 1;
            proof {
                assert(list@ =~= self@.take(i as int));
            }
        }
        proof {
            assert(self@.take(n as int) =~= self@);
        }
        list
    }
}

/// The highest end among the first `n` non-empty regions of the memory map (0 if none).
pub open spec fn mmap_top(mmap: Seq<MemoryMapEntry>, n: int) -> int
    decreases n,
{
    if n <= 0 {
        0
    } else if mmap[n - 1].length > 0 {
        max_int(mmap_top(mmap, n - 1), mmap[n - 1].base + mmap[n - 1].length)
    } else {
        mmap_top(mmap, n - 1)
    }
}

/// The run that covers memory below `LOW_MEMORY_END` at start-up.
pub open spec fn low_memory_run() -> FrameAllocation {
    FrameAllocation { pid: 0, start: 0, count: (LOW_MEMORY_END / PAGE_SIZE) as usize, used: true }
}

/// Builds the manager from the firmware memory map: the total is the highest end of a
/// non-empty region, and the low 10 MiB are recorded as taken by the kernel.
pub fn init(mmap: [MemoryMapEntry; MMAP_ENTRIES]) -> (p: StructPmm)
    requires
        forall|i: int|
            0 <= i < MMAP_ENTRIES ==> (#[trigger] mmap@[i]).base + mmap@[i].length <= MAX_PHYS,
    ensures
        p.wf(),
        p.spec_mmap() == mmap@,
        p.spec_total_ram() == mmap_top(mmap@, MMAP_ENTRIES as int),
        p@ == seq![low_memory_run()],
{
    let mut max_addr: u64 = 0;
    let mut i: usize = 0;
    while i < MMAP_ENTRIES
        invariant
            i <= MMAP_ENTRIES,
            max_addr == mmap_top(mmap@, i as int),
            max_addr <= MAX_PHYS,
            forall|j: int|
                0 <= j < MMAP_ENTRIES ==> (#[trigger] mmap@[j]).base + mmap@[j].length <= MAX_PHYS,
        decreases MMAP_ENTRIES - i,
    {
        let entry = mmap[i];
        if entry.length > 0 {
            let end = entry.base + entry.length;
            if end > max_addr {
                max_addr = end;
            }
        }
        i += 1;
    }
    let mut p = StructPmm::new();
    p.mmap = mmap;
    p.total_ram = max_addr;
    let pages = (LOW_MEMORY_END / PAGE_SIZE) as usize;
    let ok = p.add_allocation(0, 0, pages);
    proof {
        assert(ok);
        let idx = choose|idx: int| inserted_at(Seq::<FrameAllocation>::empty(), low_memory_run(), idx)
            && p@ == Seq::<FrameAllocation>::empty().insert(idx, low_memory_run());
        assert(idx == 0);
        assert(p@ =~= seq![low_memory_run()]);
    }
    p
}

/// A prefix of the table holds no more pages than the whole table.
proof fn lemma_prefix_pages_le(s: Seq<FrameAllocation>, k: int)
    requires
        0 <= k <= s.len(),
    ensures
        total_pages(s.take(k)) <= total_pages(s),
    decreases s.len() - k,
{
    if k < s.len() {
        lemma_prefix_pages_le(s, k + 1);
        assert(s.take(k + 1).drop_last() =~= s.take(k));
    } else {
        assert(s.take(k) =~= s);
    }
}

} // verus!
