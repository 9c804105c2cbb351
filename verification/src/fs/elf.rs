use vstd::prelude::*;
use crate::fs::bytes::{le16, le32, le64, read_u16, read_u32, read_u64};
use crate::memory::pmm::{StructPmm, first_fit, MAX_ALLOCS, MAX_PHYS, PAGE_SIZE};

verus! {

/// The ELF type of a position-independent executable.
pub const ET_DYN: u16 = 3;

/// The program header type of a loadable segment.
pub const PT_LOAD: u32 = 1;

/// The segment flag that makes it writable.
pub const PF_W: u32 = 2;

/// Where the kernel's half of the address space starts.
pub const KERNEL_SPACE: u64 = 0xFFFF_8000_0000_0000;

/// Bytes per page.
pub const ELF_PAGE: u64 = 4096;

/// Page-table flags a user segment gets: present and user, and writable when its header says.
pub const PAGE_PRESENT: u64 = 1;
pub const PAGE_WRITABLE: u64 = 2;
pub const PAGE_USER: u64 = 4;

/// The fields of a program header that loading reads.
#[derive(Debug, Clone, Copy, PartialEq, Eq)]
pub struct ProgramHeader {
    pub p_type: u32,
    pub p_flags: u32,
    pub p_offset: u64,
    pub p_vaddr: u64,
    pub p_filesz: u64,
    pub p_memsz: u64,
}

/// Why an executable is not loaded.
#[derive(Debug, Clone, Copy, PartialEq, Eq, Structural)]
pub enum ElfError {
    /// Not a position-independent executable (the type found).
    NotPie(u16),
    /// No loadable segment reaches past address 0.
    NoSegments,
    /// A segment's end does not fit in 64 bits.
    Overflow,
    /// A segment, once placed, reaches the kernel's half of the address space (its end).
    KernelOverlap(u64),
}

/// Where the loadable segments of `phdrs` end, at most: the largest `vaddr + memsz`, 0 when
/// there is none.
pub open spec fn max_load_end(phdrs: Seq<ProgramHeader>) -> int
    decreases phdrs.len(),
{
    if phdrs.len() == 0 {
        0
    } else {
        let rest = max_load_end(phdrs.drop_last());
        let h = phdrs.last();
        if h.p_type == PT_LOAD && h.p_vaddr + h.p_memsz > rest {
            h.p_vaddr + h.p_memsz
        } else {
            rest
        }
    }
}

proof fn lemma_max_load_end_bounds(phdrs: Seq<ProgramHeader>)
    ensures
        max_load_end(phdrs) >= 0,
        max_load_end(phdrs) <= 2 * u64::MAX,
    decreases phdrs.len(),
{
    if phdrs.len() > 0 {
        lemma_max_load_end_bounds(phdrs.drop_last());
    }
}

/// The pages a PIE's image takes: enough for every loadable segment's end. Refused when the
/// type is not PIE, when an end overflows, or when no segment reaches past 0.
pub open spec fn image_pages(e_type: u16, phdrs: Seq<ProgramHeader>) -> Result<u64, ElfError> {
    if e_type != ET_DYN {
        Err(ElfError::NotPie(e_type))
    } else if max_load_end(phdrs) > u64::MAX - 4095 {
        Err(ElfError::Overflow)
    } else if max_load_end(phdrs) == 0 {
        Err(ElfError::NoSegments)
    } else {
        Ok(((max_load_end(phdrs) + 4095) / 4096) as u64)
    }
}

/// Counts the pages a PIE's image takes, as `image_pages` says.
pub fn load_pages(e_type: u16, phdrs: &[ProgramHeader]) -> (r: Result<u64, ElfError>)
    ensures
        r == image_pages(e_type, phdrs@),
{
    if e_type != ET_DYN {
        return Err(ElfError::NotPie(e_type));
    }
    let mut max_end: u64 = 0;
    let mut i: usize = 0;
    while i < phdrs.len()
        invariant
            e_type == ET_DYN,
            i <= phdrs@.len(),
            max_end == max_load_end(phdrs@.take(i as int)),
        decreases phdrs@.len() - i,
    {
        let h = phdrs[i];
        proof {
            assert(phdrs@.take(i + 1).drop_last() =~= phdrs@.take(i as int));
            assert(phdrs@.take(i + 1).last() == h);
        }
        if h.p_type == PT_LOAD {
            if h.p_vaddr > u64::MAX - h.p_memsz {
                proof {
                    let t = phdrs@.take(i + 1);
                    assert(t.last().p_type == PT_LOAD);
                    assert(t.last().p_vaddr + t.last().p_memsz > u64::MAX);
                    assert(max_load_end(t) >= t.last().p_vaddr + t.last().p_memsz);
                    lemma_max_load_end_grows(phdrs@, i as int + 1);
                    assert(max_load_end(phdrs@) > u64::MAX - 4095);
                }
                return Err(ElfError::Overflow);
            }
            let end = h.p_vaddr + h.p_memsz;
            if end > max_end {
                max_end = end;
            }
        }
        i += 1;
    }
    proof {
        assert(phdrs@.take(i as int) =~= phdrs@);
    }
    if max_end > u64::MAX - 4095 {
        return Err(ElfError::Overflow);
    }
    if max_end == 0 {
        return Err(ElfError::NoSegments);
    }
    Ok((max_end + 4095) / 4096)
}

/// Taking more headers never lowers the end.
proof fn lemma_max_load_end_grows(phdrs: Seq<ProgramHeader>, i: int)
    requires
        0 <= i <= phdrs.len(),
    ensures
        max_load_end(phdrs.take(i)) <= max_load_end(phdrs),
    decreases phdrs.len() - i,
{
    if i < phdrs.len() {
        lemma_max_load_end_grows(phdrs, i + 1);
        assert(phdrs.take(i + 1).drop_last() =~= phdrs.take(i));
    } else {
        assert(phdrs.take(i) =~= phdrs);
    }
}

/// The end of every loadable segment is at most the largest end, and a refusal aside some
/// loadable segment reaches it.
proof fn lemma_max_load_end_is_max(phdrs: Seq<ProgramHeader>)
    ensures
        forall|k: int| 0 <= k < phdrs.len() && (#[trigger] phdrs[k]).p_type == PT_LOAD ==> phdrs[k].p_vaddr + phdrs[k].p_memsz
            <= max_load_end(phdrs),
        max_load_end(phdrs) > 0 ==> exists|k: int|
            0 <= k < phdrs.len() && (#[trigger] phdrs[k]).p_type == PT_LOAD && phdrs[k].p_vaddr + phdrs[k].p_memsz
                == max_load_end(phdrs),
    decreases phdrs.len(),
{
    if phdrs.len() > 0 {
        let init = phdrs.drop_last();
        lemma_max_load_end_is_max(init);
        lemma_max_load_end_bounds(init);
        assert forall|k: int| 0 <= k < phdrs.len() && (#[trigger] phdrs[k]).p_type == PT_LOAD implies phdrs[k].p_vaddr
            + phdrs[k].p_memsz <= max_load_end(phdrs) by {
            if k < init.len() {
                assert(init[k] == phdrs[k]);
            }
        }
        if max_load_end(phdrs) > 0 && max_load_end(phdrs) == max_load_end(init) {
            let k = choose|k: int|
                0 <= k < init.len() && (#[trigger] init[k]).p_type == PT_LOAD && init[k].p_vaddr + init[k].p_memsz
                    == max_load_end(init);
            assert(phdrs[k] == init[k]);
        }
        if max_load_end(phdrs) > 0 && max_load_end(phdrs) != max_load_end(init) {
            assert(phdrs[phdrs.len() - 1] == phdrs.last());
        }
    }
}

/// The image of a PIE is the fewest whole pages that hold every loadable segment: each
/// segment's end fits in `pages * 4096` bytes, and some segment ends past `(pages - 1) *
/// 4096`.
pub proof fn lemma_image_pages_fit(e_type: u16, phdrs: Seq<ProgramHeader>)
    ensures
        image_pages(e_type, phdrs) matches Ok(pages) ==> {
            &&& e_type == ET_DYN
            &&& pages >= 1
            &&& forall|k: int| 0 <= k < phdrs.len() && (#[trigger] phdrs[k]).p_type == PT_LOAD ==> phdrs[k].p_vaddr
                + phdrs[k].p_memsz <= pages * 4096
            &&& exists|k: int| 0 <= k < phdrs.len() && (#[trigger] phdrs[k]).p_type == PT_LOAD && phdrs[k].p_vaddr
                + phdrs[k].p_memsz > (pages - 1) * 4096
        },
        image_pages(e_type, phdrs) is Err ==> e_type != ET_DYN || max_load_end(phdrs) == 0 || max_load_end(phdrs) > u64::MAX - 4095,
{
    lemma_max_load_end_is_max(phdrs);
    lemma_max_load_end_bounds(phdrs);
    if image_pages(e_type, phdrs) is Ok {
        let m = max_load_end(phdrs);
        let pages = (m + 4095) / 4096;
        assert(pages * 4096 >= m && (pages - 1) * 4096 < m && pages >= 1) by {
            vstd::arithmetic::div_mod::lemma_fundamental_div_mod(m + 4095, 4096);
        }
    }
}

/// One loadable segment placed at the image base: where it starts and ends, the first page
/// and the page count it spans, its page flags, and the bytes of the file copied to its start.
#[derive(Debug, Clone, Copy, PartialEq, Eq)]
pub struct SegmentPlacement {
    pub virt_start: u64,
    pub virt_end: u64,
    pub page_start: u64,
    pub pages: u64,
    pub flags: u64,
    pub file_offset: u64,
    pub file_size: u64,
}

/// Where header `h` goes with the image at `base`, or why it cannot: its end must stay below
/// the kernel's half.
pub open spec fn placement(h: ProgramHeader, base: u64) -> Result<SegmentPlacement, ElfError> {
    let start = h.p_vaddr + base;
    let end = start + h.p_memsz;
    if end > u64::MAX {
        Err(ElfError::Overflow)
    } else if end >= KERNEL_SPACE {
        Err(ElfError::KernelOverlap(end as u64))
    } else {
        let page_start = start - start % 4096;
        let page_end = if end % 4096 == 0 { end } else { end - end % 4096 + 4096 };
        Ok(SegmentPlacement {
            virt_start: start as u64,
            virt_end: end as u64,
            page_start: page_start as u64,
            pages: ((page_end - page_start) / 4096) as u64,
            flags: if h.p_flags & PF_W != 0 { PAGE_PRESENT | PAGE_USER | PAGE_WRITABLE } else { PAGE_PRESENT | PAGE_USER },
            file_offset: h.p_offset,
            file_size: h.p_filesz,
        })
    }
}

/// The placements of the loadable, non-empty segments of `phdrs`, in order; the first
/// refusal stops the plan.
pub open spec fn placements(phdrs: Seq<ProgramHeader>, base: u64) -> Result<Seq<SegmentPlacement>, ElfError>
    decreases phdrs.len(),
{
    if phdrs.len() == 0 {
        Ok(Seq::empty())
    } else {
        match placements(phdrs.drop_last(), base) {
            Err(e) => Err(e),
            Ok(done) => {
                let h = phdrs.last();
                if h.p_type != PT_LOAD || h.p_memsz == 0 {
                    Ok(done)
                } else {
                    match placement(h, base) {
                        Ok(p) => Ok(done.push(p)),
                        Err(e) => Err(e),
                    }
                }
            },
        }
    }
}

/// A placed segment starts at its address plus the base and spans its memory size; the
/// pages it is given are the fewest whole pages from the page holding its start that cover
/// it; it is writable exactly when its header says so, and always present and user.
pub proof fn lemma_placement_pages(h: ProgramHeader, base: u64)
    ensures
        placement(h, base) matches Ok(p) ==> {
            &&& p.virt_start == h.p_vaddr + base
            &&& p.virt_end == p.virt_start + h.p_memsz
            &&& p.virt_end < KERNEL_SPACE
            &&& p.page_start % 4096 == 0
            &&& p.page_start <= p.virt_start < p.page_start + 4096
            &&& p.page_start + p.pages * 4096 >= p.virt_end
            &&& p.virt_end > p.virt_start ==> p.page_start + (p.pages - 1) * 4096 < p.virt_end
            &&& (p.flags == 7) == (h.p_flags & PF_W != 0)
            &&& p.flags == 5 || p.flags == 7
            &&& p.file_offset == h.p_offset && p.file_size == h.p_filesz
        },
        h.p_vaddr + base + h.p_memsz <= u64::MAX && h.p_vaddr + base + h.p_memsz >= KERNEL_SPACE ==> placement(h, base)
            == Err::<SegmentPlacement, ElfError>(ElfError::KernelOverlap((h.p_vaddr + base + h.p_memsz) as u64)),
{
    let start = h.p_vaddr + base;
    let end = start + h.p_memsz;
    if end <= u64::MAX && end < KERNEL_SPACE {
        let ps = start - start % 4096;
        let pe = if end % 4096 == 0 { end } else { end - end % 4096 + 4096 };
        vstd::arithmetic::div_mod::lemma_fundamental_div_mod(start, 4096);
        vstd::arithmetic::div_mod::lemma_fundamental_div_mod(end, 4096);
        vstd::arithmetic::div_mod::lemma_fundamental_div_mod(pe - ps, 4096);
        assert(ps % 4096 == 0) by {
            vstd::arithmetic::div_mod::lemma_mod_multiples_basic(start / 4096, 4096);
        }
        assert(pe % 4096 == 0) by {
            if end % 4096 != 0 {
                vstd::arithmetic::div_mod::lemma_mod_multiples_basic(end / 4096 + 1, 4096);
            }
        }
        assert((pe - ps) % 4096 == 0) by {
            vstd::arithmetic::div_mod::lemma_mod_multiples_basic(end / 4096 - start / 4096 + (if end % 4096 == 0 { 0int } else { 1int }), 4096);
            assert(pe - ps == (end / 4096 - start / 4096 + (if end % 4096 == 0 { 0int } else { 1int })) * 4096) by (nonlinear_arith)
                requires
                    start == 4096 * (start / 4096) + start % 4096,
                    end == 4096 * (end / 4096) + end % 4096,
                    ps == start - start % 4096,
                    pe == if end % 4096 == 0 { end } else { end - end % 4096 + 4096 },
            ;
        }
        let pages = (pe - ps) / 4096;
        assert(pages * 4096 == pe - ps);
        assert(PAGE_PRESENT | PAGE_USER | PAGE_WRITABLE == 7) by (bit_vector);
        assert(PAGE_PRESENT | PAGE_USER == 5) by (bit_vector);
    }
}

/// Places one segment as `placement` says.
pub fn place_segment(h: ProgramHeader, base: u64) -> (r: Result<SegmentPlacement, ElfError>)
    ensures
        r == placement(h, base),
{
    if h.p_vaddr > u64::MAX - base || h.p_vaddr + base > u64::MAX - h.p_memsz {
        return Err(ElfError::Overflow);
    }
    let start = h.p_vaddr + base;
    let end = start + h.p_memsz;
    if end >= KERNEL_SPACE {
        return Err(ElfError::KernelOverlap(end));
    }
    let page_start = start - start % 4096;
    let page_end = if end % 4096 == 0 { end } else { end - end % 4096 + 4096 };
    let flags = if h.p_flags & PF_W != 0 { PAGE_PRESENT | PAGE_USER | PAGE_WRITABLE } else { PAGE_PRESENT | PAGE_USER };
    Ok(SegmentPlacement {
        virt_start: start,
        virt_end: end,
        page_start,
        pages: (page_end - page_start) / 4096,
        flags,
        file_offset: h.p_offset,
        file_size: h.p_filesz,
    })
}

/// Places every loadable, non-empty segment as `placements` says.
pub fn plan_segments(phdrs: &[ProgramHeader], base: u64) -> (r: Result<Vec<SegmentPlacement>, ElfError>)
    ensures
        match placements(phdrs@, base) {
            Ok(ps) => r matches Ok(v) && v@ == ps,
            Err(e) => r == Err::<Vec<SegmentPlacement>, ElfError>(e),
        },
{
    let mut out: Vec<SegmentPlacement> = Vec::new();
    let mut i: usize = 0;
    while i < phdrs.len()
        invariant
            i <= phdrs@.len(),
            placements(phdrs@.take(i as int), base) == Ok::<Seq<SegmentPlacement>, ElfError>(out@),
        decreases phdrs@.len() - i,
    {
        let h = phdrs[i];
        proof {
            assert(phdrs@.take(i + 1).drop_last() =~= phdrs@.take(i as int));
            assert(phdrs@.take(i + 1).last() == h);
        }
        if h.p_type == PT_LOAD && h.p_memsz != 0 {
            match place_segment(h, base) {
                Ok(p) => {
                    out.push(p);
                },
                Err(e) => {
                    proof {
                        lemma_placements_stop(phdrs@, base, i as int + 1, e);
                    }
                    return Err(e);
                },
            }
        }
        i += 1;
    }
    proof {
        assert(phdrs@.take(i as int) =~= phdrs@);
    }
    Ok(out)
}

/// Once the plan for a prefix is refused, the plan for the whole is refused the same way.
proof fn lemma_placements_stop(phdrs: Seq<ProgramHeader>, base: u64, i: int, e: ElfError)
    requires
        0 <= i <= phdrs.len(),
        placements(phdrs.take(i), base) == Err::<Seq<SegmentPlacement>, ElfError>(e),
    ensures
        placements(phdrs, base) == Err::<Seq<SegmentPlacement>, ElfError>(e),
    decreases phdrs.len() - i,
{
    if i < phdrs.len() {
        assert(phdrs.take(i + 1).drop_last() =~= phdrs.take(i));
        lemma_placements_stop(phdrs, base, i + 1, e);
    } else {
        assert(phdrs.take(i) =~= phdrs);
    }
}

/// Where execution starts once the image is at `base`.
pub fn entry_point(e_entry: u64, base: u64) -> (r: Option<u64>)
    ensures
        r == if e_entry + base <= u64::MAX { Some((e_entry + base) as u64) } else { None::<u64> },
{
    e_entry.checked_add(base)
}

/// The value a relocation of type `r_type` stores, given the image base, the addend and the
/// symbol it names (its value and section index) when the symbol table has it: the base plus
/// the addend for a relative relocation (8); the symbol's value plus the base (0 for an
/// undefined symbol) for types 1, 6 and 7, with the addend added for type 1; nothing for
/// other types or a missing symbol. Sums wrap around.
pub open spec fn relocation_value(r_type: u32, base: u64, addend: i64, symbol: Option<(u64, u16)>) -> Option<u64> {
    if r_type == 8 {
        Some(((base as int + (addend as u64) as int) % 0x1_0000_0000_0000_0000) as u64)
    } else if r_type == 1 || r_type == 6 || r_type == 7 {
        match symbol {
            Some((value, shndx)) => {
                let v: u64 = if shndx != 0 { ((value as int + base as int) % 0x1_0000_0000_0000_0000) as u64 } else { 0 };
                if r_type == 1 {
                    Some(((v as int + (addend as u64) as int) % 0x1_0000_0000_0000_0000) as u64)
                } else {
                    Some(v)
                }
            },
            None => None,
        }
    } else {
        None
    }
}

/// What each relocation type stores, in terms of its inputs, sums taken modulo 2^64: a
/// relative relocation (8) stores base + addend whatever the symbol; a jump slot (7) or
/// global data (6) relocation stores the defined symbol's value + base, the two giving the
/// same value, and 0 for an undefined symbol (section index 0); a 64-bit relocation (1)
/// stores what a jump slot stores plus the addend; a missing symbol or any other type
/// stores nothing.
pub proof fn lemma_relocation_values(base: u64, addend: i64, value: u64, shndx: u16, sym: Option<(u64, u16)>, other: u32)
    requires
        other != 1 && other != 6 && other != 7 && other != 8,
    ensures
        relocation_value(8, base, addend, sym) == Some(((base as int + (addend as u64) as int) % 0x1_0000_0000_0000_0000) as u64),
        shndx != 0 ==> relocation_value(7, base, addend, Some((value, shndx))) == Some(
            ((value as int + base as int) % 0x1_0000_0000_0000_0000) as u64,
        ),
        relocation_value(6, base, addend, Some((value, shndx))) == relocation_value(7, base, addend, Some((value, shndx))),
        shndx == 0 ==> relocation_value(7, base, addend, Some((value, shndx))) == Some(0u64),
        shndx != 0 ==> relocation_value(1, base, addend, Some((value, shndx))) == Some(
            ((value as int + base as int + (addend as u64) as int) % 0x1_0000_0000_0000_0000) as u64,
        ),
        shndx == 0 ==> relocation_value(1, base, addend, Some((value, shndx))) == Some(addend as u64),
        relocation_value(1, base, addend, None) is None,
        relocation_value(6, base, addend, None) is None,
        relocation_value(7, base, addend, None) is None,
        relocation_value(other, base, addend, sym) is None,
{
    let m: int = 0x1_0000_0000_0000_0000;
    let v = ((value as int + base as int) % m) as u64;
    assert(((v as int + (addend as u64) as int) % m) == ((value as int + base as int + (addend as u64) as int) % m)) by {
        vstd::arithmetic::div_mod::lemma_add_mod_noop(value as int + base as int, (addend as u64) as int, m);
        vstd::arithmetic::div_mod::lemma_mod_twice((addend as u64) as int, m);
        vstd::arithmetic::div_mod::lemma_small_mod((addend as u64) as nat, m as nat);
    }
    assert(((0int + (addend as u64) as int) % m) == (addend as u64) as int) by {
        vstd::arithmetic::div_mod::lemma_small_mod((addend as u64) as nat, m as nat);
    }
}

/// Computes what a relocation stores, as `relocation_value` says.
pub fn relocate(r_type: u32, base: u64, addend: i64, symbol: Option<(u64, u16)>) -> (r: Option<u64>)
    ensures
        r == relocation_value(r_type, base, addend, symbol),
{
    if r_type == 8 {
        Some(base.wrapping_add(addend as u64))
    } else if r_type == 1 || r_type == 6 || r_type == 7 {
        match symbol {
            Some((value, shndx)) => {
                let v: u64 = if shndx != 0 { value.wrapping_add(base) } else { 0 };
                if r_type == 1 {
                    Some(v.wrapping_add(addend as u64))
                } else {
                    Some(v)
                }
            },
            None => None,
        }
    } else {
        None
    }
}

/// Copies every placed segment's file bytes into `image`, which holds the pages from the
/// image base on: the `file_size` bytes at `file_offset` of `data` land at `virt_start -
/// base`; nothing else changes.
pub fn copy_segments(data: &[u8], segs: &[SegmentPlacement], base: u64, image: &mut Vec<u8>)
    requires
        forall|k: int|
            0 <= k < segs@.len() ==> {
                let s = #[trigger] segs@[k];
                &&& s.virt_start >= base
                &&& s.file_offset + s.file_size <= data@.len()
                &&& s.virt_start - base + s.file_size <= old(image)@.len()
            },
    ensures
        final(image)@.len() == old(image)@.len(),
        forall|i: int|
            0 <= i < final(image)@.len() ==> #[trigger] final(image)@[i] == copied_byte(data@, segs@, base, old(image)@, segs@.len() as int, i),
{
    let mut k: usize = 0;
    while k < segs.len()
        invariant
            k <= segs@.len(),
            image@.len() == old(image)@.len(),
            forall|j: int|
                0 <= j < segs@.len() ==> {
                    let s = #[trigger] segs@[j];
                    &&& s.virt_start >= base
                    &&& s.file_offset + s.file_size <= data@.len()
                    &&& s.virt_start - base + s.file_size <= old(image)@.len()
                },
            forall|i: int| 0 <= i < image@.len() ==> #[trigger] image@[i] == copied_byte(data@, segs@, base, old(image)@, k as int, i),
        decreases segs@.len() - k,
    {
        let s = segs[k];
        let dl = data.len();
        let il = image.len();
        proof {
            assert(segs@[k as int] == s);
            assert(s.file_offset + s.file_size <= data@.len());
            assert(s.virt_start - base + s.file_size <= image@.len());
        }
        let dst = (s.virt_start - base) as usize;
        let src = s.file_offset as usize;
        let n = s.file_size as usize;
        let ghost before = image@;
        let mut j: usize = 0;
        while j < n
            invariant
                j <= n,
                il == image@.len(),
                dl == data@.len(),
                n == s.file_size,
                src == s.file_offset,
                dst == s.virt_start - base,
                src + n <= data@.len(),
                dst + n <= image@.len(),
                image@.len() == before.len(),
                forall|i: int|
                    0 <= i < image@.len() ==> #[trigger] image@[i] == if dst <= i < dst + j {
                        data@[src + i - dst]
                    } else {
                        before[i]
                    },
            decreases n - j,
        {
            image.set(dst + j, data[src + j]);
            j += 1;
        }
        proof {
            assert forall|i: int| 0 <= i < image@.len() implies #[trigger] image@[i] == copied_byte(data@, segs@, base, old(image)@, k + 1, i) by {
                assert(image@[i] == (if dst <= i < dst + n { data@[src + i - dst] } else { before[i] }));
            }
        }
        k += 1;
    }
}

/// Byte `i` of the image once the first `k` segments of `segs` are copied in, in order: the
/// last of them covering `i` gives it, else the image's old byte.
pub open spec fn copied_byte(data: Seq<u8>, segs: Seq<SegmentPlacement>, base: u64, image: Seq<u8>, k: int, i: int) -> u8
    decreases k,
{
    if k <= 0 {
        image[i]
    } else {
        let s = segs[k - 1];
        let dst = s.virt_start - base;
        if dst <= i < dst + s.file_size {
            data[s.file_offset + i - dst]
        } else {
            copied_byte(data, segs, base, image, k - 1, i)
        }
    }
}

/// Size of the file header of a 64-bit ELF file.
pub const EHDR_SIZE: usize = 64;

/// Size of one program header of a 64-bit ELF file.
pub const PHDR_SIZE: usize = 56;

/// The header fields and program headers that loading reads from an ELF file.
#[derive(Debug, PartialEq, Eq)]
pub struct ElfFile {
    pub e_type: u16,
    pub e_entry: u64,
    pub phdrs: Vec<ProgramHeader>,
}

/// Whether `s` starts with a 64-bit ELF header whose program header table lies inside it.
pub open spec fn elf_header_ok(s: Seq<u8>) -> bool {
    &&& s.len() >= EHDR_SIZE
    &&& s[0] == 0x7f && s[1] == 0x45 && s[2] == 0x4c && s[3] == 0x46
    &&& s[4] == 2
    &&& le64(s, 32) + le16(s, 56) * PHDR_SIZE <= s.len()
}

/// The program header stored at `off`.
pub open spec fn phdr_at(s: Seq<u8>, off: int) -> ProgramHeader {
    ProgramHeader {
        p_type: le32(s, off) as u32,
        p_flags: le32(s, off + 4) as u32,
        p_offset: le64(s, off + 8) as u64,
        p_vaddr: le64(s, off + 16) as u64,
        p_filesz: le64(s, off + 32) as u64,
        p_memsz: le64(s, off + 40) as u64,
    }
}

/// The program headers of `s`: `e_phnum` of them, `PHDR_SIZE` bytes apart from `e_phoff` on.
pub open spec fn phdrs_of(s: Seq<u8>) -> Seq<ProgramHeader> {
    Seq::new(le16(s, 56) as nat, |k: int| phdr_at(s, le64(s, 32) + k * PHDR_SIZE))
}

/// Reads the ELF header of `data` (type at 16, entry at 24, program header table at the
/// offset at 32, with the count at 56) and its program headers; `None` when `data` does not
/// start with a 64-bit ELF header or the table runs past its end.
pub fn parse_elf64(data: &[u8]) -> (r: Option<ElfFile>)
    ensures
        r is None <==> !elf_header_ok(data@),
        r matches Some(f) ==> {
            &&& f.e_type == le16(data@, 16)
            &&& f.e_entry == le64(data@, 24)
            &&& f.phdrs@ == phdrs_of(data@)
        },
{
    let len = data.len();
    if len < EHDR_SIZE {
        return None;
    }
    if data[0] != 0x7f || data[1] != 0x45 || data[2] != 0x4c || data[3] != 0x46 || data[4] != 2 {
        return None;
    }
    let phoff = read_u64(data, 32);
    let phnum = read_u16(data, 56);
    if phoff > len as u64 {
        return None;
    }
    let start = phoff as usize;
    if (phnum as usize) * PHDR_SIZE > len - start {
        return None;
    }
    let e_type = read_u16(data, 16);
    let e_entry = read_u64(data, 24);
    let mut phdrs: Vec<ProgramHeader> = Vec::new();
    let mut k: usize = 0;
    while k < phnum as usize
        invariant
            k <= phnum,
            len == data@.len(),
            start == le64(data@, 32),
            phnum == le16(data@, 56),
            start + phnum * PHDR_SIZE <= len,
            phdrs@ == Seq::new(k as nat, |j: int| phdr_at(data@, le64(data@, 32) + j * PHDR_SIZE)),
        decreases phnum - k,
    {
        let off = start + k * PHDR_SIZE;
        let h = ProgramHeader {
            p_type: read_u32(data, off),
            p_flags: read_u32(data, off + 4),
            p_offset: read_u64(data, off + 8),
            p_vaddr: read_u64(data, off + 16),
            p_filesz: read_u64(data, off + 32),
            p_memsz: read_u64(data, off + 40),
        };
        phdrs.push(h);
        k += 1;
        proof {
            assert(phdrs@ =~= Seq::new(k as nat, |j: int| phdr_at(data@, le64(data@, 32) + j * PHDR_SIZE)));
        }
    }
    proof {
        assert(phdrs@ =~= phdrs_of(data@));
    }
    Some(ElfFile { e_type, e_entry, phdrs })
}

/// What loading a PIE at `base` comes to: the pages its image takes, where each loadable
/// segment goes, and where execution starts.
#[derive(Debug, PartialEq, Eq)]
pub struct LoadPlan {
    pub pages: u64,
    pub base: u64,
    pub segments: Vec<SegmentPlacement>,
    pub entry: u64,
}

/// The plan for a PIE of type `e_type` with entry `e_entry` and program headers `phdrs`
/// placed at `base`: refused as `image_pages` and `placements` refuse it, or when the entry
/// overflows.
pub open spec fn planned(e_type: u16, e_entry: u64, phdrs: Seq<ProgramHeader>, base: u64) -> Result<(u64, Seq<SegmentPlacement>, u64), ElfError> {
    match image_pages(e_type, phdrs) {
        Err(e) => Err(e),
        Ok(pages) => match placements(phdrs, base) {
            Err(e) => Err(e),
            Ok(ps) => if e_entry + base > u64::MAX {
                Err(ElfError::Overflow)
            } else {
                Ok((pages, ps, (e_entry + base) as u64))
            },
        },
    }
}

/// Whether `r` is the plan `planned` describes.
pub open spec fn plan_matches(r: Result<LoadPlan, ElfError>, e_type: u16, e_entry: u64, phdrs: Seq<ProgramHeader>, base: u64) -> bool {
    match planned(e_type, e_entry, phdrs, base) {
        Ok((pages, ps, entry)) => r matches Ok(p) && p.pages == pages && p.base == base && p.segments@ == ps && p.entry == entry,
        Err(e) => r == Err::<LoadPlan, ElfError>(e),
    }
}

/// Plans loading a PIE at `base`, as `planned` says.
pub fn load_plan(e_type: u16, e_entry: u64, phdrs: &[ProgramHeader], base: u64) -> (r: Result<LoadPlan, ElfError>)
    ensures
        plan_matches(r, e_type, e_entry, phdrs@, base),
{
    let pages = match load_pages(e_type, phdrs) {
        Ok(p) => p,
        Err(e) => return Err(e),
    };
    let segments = match plan_segments(phdrs, base) {
        Ok(v) => v,
        Err(e) => return Err(e),
    };
    match entry_point(e_entry, base) {
        Some(entry) => Ok(LoadPlan { pages, base, segments, entry }),
        None => Err(ElfError::Overflow),
    }
}

/// Why an executable is not loaded.
#[derive(Debug, Clone, Copy, PartialEq, Eq, Structural)]
pub enum LoadError {
    /// The bytes do not hold a 64-bit ELF file.
    Parse,
    /// The file is not a loadable PIE.
    Elf(ElfError),
    /// No free run of that many pages for the image.
    OutOfMemory(u64),
}

/// Loads the ELF file in `data` for process `pid`: parses it, takes the pages its image needs
/// from `pmm` (first fit) and plans the image at the pages it got. Refused when the bytes do
/// not parse, as `image_pages` refuses the file, when no pages are free (and then `pmm` is
/// unchanged), or as `planned` refuses it at that base. Copying the segments in
/// (`copy_segments`) and applying relocations (`relocate`) follow on the mapped image.
pub fn load_elf(data: &[u8], pmm: &mut StructPmm, pid: u64) -> (r: Result<LoadPlan, LoadError>)
    requires
        old(pmm).wf(),
    ensures
        final(pmm).wf(),
        !elf_header_ok(data@) ==> r == Err::<LoadPlan, LoadError>(LoadError::Parse) && *final(pmm) == *old(pmm),
        elf_header_ok(data@) ==> match image_pages(le16(data@, 16) as u16, phdrs_of(data@)) {
            Err(e) => r == Err::<LoadPlan, LoadError>(LoadError::Elf(e)) && *final(pmm) == *old(pmm),
            Ok(pages) => {
                let fit = first_fit(old(pmm)@, pages as int, old(pmm).spec_mmap(), old(pmm).spec_total_ram() as int);
                if pages * PAGE_SIZE > MAX_PHYS || pages >= usize::MAX / 4096 || old(pmm)@.len() >= MAX_ALLOCS || fit is None {
                    r == Err::<LoadPlan, LoadError>(LoadError::OutOfMemory(pages)) && final(pmm)@ == old(pmm)@
                } else {
                    &&& fit == Some(fit->0)
                    &&& match r {
                        Ok(p) => plan_matches(Ok(p), le16(data@, 16) as u16, le64(data@, 24) as u64, phdrs_of(data@), fit->0 as u64),
                        Err(LoadError::Elf(e)) => plan_matches(Err(e), le16(data@, 16) as u16, le64(data@, 24) as u64, phdrs_of(data@), fit->0 as u64),
                        Err(_) => false,
                    }
                }
            },
        },
{
    let f = match parse_elf64(data) {
        Some(f) => f,
        None => return Err(LoadError::Parse),
    };
    let pages = match load_pages(f.e_type, f.phdrs.as_slice()) {
        Ok(p) => p,
        Err(e) => return Err(LoadError::Elf(e)),
    };
    if pages > MAX_PHYS / PAGE_SIZE || pages >= (usize::MAX / 4096) as u64 {
        return Err(LoadError::OutOfMemory(pages));
    }
    let count = pages as usize;
    proof {
        let m = max_load_end(f.phdrs@);
        lemma_max_load_end_bounds(f.phdrs@);
        assert(m >= 1 && pages == (m + 4095) / 4096);
        assert(pages >= 1);
        assert(count * PAGE_SIZE <= MAX_PHYS) by (nonlinear_arith)
            requires count <= MAX_PHYS / PAGE_SIZE, PAGE_SIZE == 4096, MAX_PHYS == 0x10_0000_0000_0000;
        assert(count * PAGE_SIZE + PAGE_SIZE <= usize::MAX) by (nonlinear_arith)
            requires count < usize::MAX / 4096, PAGE_SIZE == 4096;
    }
    let base = match pmm.allocate_frames(count, pid) {
        Some(a) => a,
        None => return Err(LoadError::OutOfMemory(pages)),
    };
    match load_plan(f.e_type, f.e_entry, f.phdrs.as_slice(), base) {
        Ok(p) => Ok(p),
        Err(e) => Err(LoadError::Elf(e)),
    }
}

/// Whether placed segment `s` copies a byte to image offset `i` (the image holding the pages
/// from `base` on).
pub open spec fn covers_byte(s: SegmentPlacement, base: u64, i: int) -> bool {
    s.virt_start - base <= i < s.virt_start - base + s.file_size
}

/// After copying the first `n` segments, an image byte no segment among them covers keeps
/// its old value, and a covered byte holds the file byte of the last segment covering it, at
/// the same distance from that segment's file offset as the byte is from its start.
pub proof fn lemma_copied_byte_source(data: Seq<u8>, segs: Seq<SegmentPlacement>, base: u64, image: Seq<u8>, n: int, i: int)
    requires
        0 <= n <= segs.len(),
    ensures
        (forall|k: int| 0 <= k < n ==> !covers_byte(#[trigger] segs[k], base, i)) ==> copied_byte(data, segs, base, image, n, i)
            == image[i],
        forall|k: int|
            0 <= k < n && covers_byte(#[trigger] segs[k], base, i) && (forall|l: int| k < l < n ==> !covers_byte(#[trigger] segs[l], base, i))
                ==> copied_byte(data, segs, base, image, n, i) == data[segs[k].file_offset + i - (segs[k].virt_start - base)],
    decreases n,
{
    if n > 0 {
        lemma_copied_byte_source(data, segs, base, image, n - 1, i);
        assert forall|k: int|
            0 <= k < n && covers_byte(#[trigger] segs[k], base, i) && (forall|l: int| k < l < n ==> !covers_byte(#[trigger] segs[l], base, i))
                implies copied_byte(data, segs, base, image, n, i) == data[segs[k].file_offset + i - (segs[k].virt_start - base)] by {
            if k < n - 1 {
                assert(!covers_byte(segs[n - 1], base, i));
            }
        }
    }
}

} // verus!
