use lib::fs::elf::{
    copy_segments, load_elf, load_pages, load_plan, parse_elf64, place_segment, relocate, ElfError, LoadError,
    ProgramHeader,
};
use lib::memory::pmm::{init, MemoryMapEntry, MMAP_ENTRIES};

fn put(b: &mut Vec<u8>, off: usize, v: u64, n: usize) {
    for i in 0..n {
        b[off + i] = (v >> (8 * i)) as u8;
    }
}

fn tiny_pie(e_type: u16) -> Vec<u8> {
    let mut b = vec![0u8; 64 + 56 + 16];
    b[0..4].copy_from_slice(&[0x7f, b'E', b'L', b'F']);
    b[4] = 2;
    put(&mut b, 16, e_type as u64, 2);
    put(&mut b, 24, 0x1000, 8);
    put(&mut b, 32, 64, 8);
    put(&mut b, 56, 1, 2);
    put(&mut b, 64, 1, 4);
    put(&mut b, 68, 6, 4);
    put(&mut b, 72, 120, 8);
    put(&mut b, 80, 0x1000, 8);
    put(&mut b, 96, 16, 8);
    put(&mut b, 104, 0x2000, 8);
    for i in 0..16 {
        b[120 + i] = 0xA0 + i as u8;
    }
    b
}

fn load(vaddr: u64, memsz: u64) -> ProgramHeader {
    ProgramHeader { p_type: 1, p_flags: 4, p_offset: 0, p_vaddr: vaddr, p_filesz: 0, p_memsz: memsz }
}

#[test]
fn header_and_program_headers_are_read_at_their_offsets() {
    let f = parse_elf64(&tiny_pie(3)).unwrap();
    assert_eq!(f.e_type, 3);
    assert_eq!(f.e_entry, 0x1000);
    assert_eq!(
        f.phdrs,
        vec![ProgramHeader { p_type: 1, p_flags: 6, p_offset: 120, p_vaddr: 0x1000, p_filesz: 16, p_memsz: 0x2000 }]
    );
}

#[test]
fn bytes_that_are_not_elf64_do_not_parse() {
    let mut b = tiny_pie(3);
    b[1] = b'X';
    assert!(parse_elf64(&b).is_none());
    let mut b = tiny_pie(3);
    b[4] = 1;
    assert!(parse_elf64(&b).is_none());
    let mut b = tiny_pie(3);
    put(&mut b, 56, 3, 2);
    assert!(parse_elf64(&b).is_none());
    assert!(parse_elf64(&[0x7f, b'E', b'L', b'F']).is_none());
}

#[test]
fn image_pages_cover_the_furthest_segment_end() {
    assert_eq!(load_pages(3, &[load(0, 0x1000), load(0x1000, 0x2001)]), Ok(4));
    let mut note = load(0x9000, 0x1000);
    note.p_type = 4;
    assert_eq!(load_pages(3, &[load(0, 0x10), note]), Ok(1));
}

#[test]
fn only_position_independent_executables_load() {
    assert_eq!(load_pages(2, &[load(0, 0x1000)]), Err(ElfError::NotPie(2)));
    assert_eq!(load_pages(3, &[]), Err(ElfError::NoSegments));
    assert_eq!(load_pages(3, &[load(u64::MAX, 1)]), Err(ElfError::Overflow));
}

#[test]
fn a_segment_is_placed_on_whole_pages_with_its_flags() {
    let mut h = load(0x1800, 0x1000);
    h.p_flags = 6;
    let p = place_segment(h, 0x20_0000).unwrap();
    assert_eq!((p.virt_start, p.virt_end), (0x20_1800, 0x20_2800));
    assert_eq!((p.page_start, p.pages), (0x20_1000, 2));
    assert_eq!(p.flags, 7);
    let ro = place_segment(load(0, 0x1000), 0x20_0000).unwrap();
    assert_eq!(ro.flags, 5);
}

#[test]
fn a_segment_reaching_kernel_space_is_refused() {
    let r = place_segment(load(0x1000, 0x1000), 0xFFFF_7FFF_FFFF_F000);
    assert_eq!(r, Err(ElfError::KernelOverlap(0xFFFF_8000_0000_1000)));
}

#[test]
fn the_plan_moves_the_entry_by_the_base() {
    let f = parse_elf64(&tiny_pie(3)).unwrap();
    let p = load_plan(f.e_type, f.e_entry, &f.phdrs, 0x40_0000).unwrap();
    assert_eq!(p.pages, 3);
    assert_eq!(p.entry, 0x40_1000);
    assert_eq!(p.segments.len(), 1);
    assert_eq!(p.segments[0].virt_start, 0x40_1000);
    assert_eq!(p.segments[0].pages, 2);
    assert_eq!(load_plan(2, 0, &f.phdrs, 0), Err(ElfError::NotPie(2)));
}

#[test]
fn relocations_add_the_base() {
    assert_eq!(relocate(8, 0x40_0000, 0x10, None), Some(0x40_0010));
    assert_eq!(relocate(8, 0x40_0000, -0x10, None), Some(0x3F_FFF0));
    assert_eq!(relocate(1, 0x40_0000, 4, Some((0x20, 1))), Some(0x40_0024));
    assert_eq!(relocate(6, 0x40_0000, 4, Some((0x20, 1))), Some(0x40_0020));
    assert_eq!(relocate(7, 0x40_0000, 4, Some((0x20, 0))), Some(0));
    assert_eq!(relocate(6, 0x40_0000, 4, None), None);
    assert_eq!(relocate(5, 0x40_0000, 4, Some((0x20, 1))), None);
}

#[test]
fn segment_bytes_land_at_their_address() {
    let data = tiny_pie(3);
    let f = parse_elf64(&data).unwrap();
    let base = 0x40_0000;
    let p = load_plan(f.e_type, f.e_entry, &f.phdrs, base).unwrap();
    let mut image = vec![0u8; (p.pages * 4096) as usize];
    copy_segments(&data, &p.segments, base, &mut image);
    assert_eq!(&image[0x1000..0x1010], &data[120..136]);
    assert_eq!(image[0x0fff], 0);
    assert_eq!(image[0x1010], 0);
}

#[test]
fn loading_takes_the_first_free_pages() {
    let mut mmap = [MemoryMapEntry { base: 0, length: 0, memory_type: 0 }; MMAP_ENTRIES];
    mmap[0] = MemoryMapEntry { base: 0, length: 0x2000000, memory_type: 1 };
    let mut pmm = init(mmap);
    let p = load_elf(&tiny_pie(3), &mut pmm, 5).unwrap();
    assert_eq!(p.base, 0xA00000);
    assert_eq!(p.entry, 0xA01000);
    assert_eq!(pmm.get_memory_usage_by_pid(5), 3 * 4096);
    assert_eq!(load_elf(&tiny_pie(2), &mut pmm, 5), Err(LoadError::Elf(ElfError::NotPie(2))));
    assert_eq!(load_elf(&[1, 2, 3], &mut pmm, 5), Err(LoadError::Parse));
    assert_eq!(pmm.get_memory_usage_by_pid(5), 3 * 4096);
}
