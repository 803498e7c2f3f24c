use tiny_os::mm::address::{PhysPageNum, VirtPageNum, VirtualAddr};
use tiny_os::mm::elf::{SegmentKind, parse_elf};
use tiny_os::mm::frame_allocator::StackFrameAllocator;
use tiny_os::mm::kernel_set::{
    KernelLayout, KernelMemorySets, alloc_kernel_stack, board_mmio, init_first_kernel_mapping,
    init_second_kernel_mapping, remove_stack,
};
use tiny_os::mm::memory_set::{MapPermission, MemoryStaticArea, UserBuffer, kern_vaddr_to_phy_addr, uaddr_to_phy_addr};
use tiny_os::mm::page_table::{PageTableEntry, PhysMemory};
use tiny_os::mm::static_table::StaticPageTable;
use tiny_os::mm::user_set::{UserMemorySets, copy_src_data};
use tiny_os::task::thread::Thread;
use tiny_os::syscall::SyscallOutcome;
use tiny_os::fs::pipe::{Pipe, PipeRingBuffer, PipeStep};
use tiny_os::syscall::outcome::perform_memory_outcome;
use tiny_os::task::trap_context::{TrapEnv, place_start_args, read_start_strings};

const BASE: u64 = 0x80000;

fn entry(m: &PhysMemory, ppn: u64, i: usize) -> PageTableEntry {
    PageTableEntry::from(m.read_word(ppn, i))
}

fn area(s: u64, e: u64, bits: u8) -> MemoryStaticArea {
    MemoryStaticArea::new(VirtualAddr(s), VirtualAddr(e), MapPermission { bits })
}

fn static_table() -> StaticPageTable {
    StaticPageTable { table: BASE * 4096, usage: [1u8; 11] }
}

/// A tiny 64-bit ELF file: one loadable segment (read, run) of 0x80 file
/// bytes at 0x10000, 0x2000 bytes in memory, entry 0x10004.
fn tiny_elf() -> Vec<u8> {
    let mut d: Vec<u8> = vec![0; 0xA0];
    d[0..4].copy_from_slice(&[0x7f, b'E', b'L', b'F']);
    d[4] = 2;
    d[5] = 1;
    d[6] = 1;
    d[16..18].copy_from_slice(&2u16.to_le_bytes());
    d[18..20].copy_from_slice(&0xF3u16.to_le_bytes());
    d[20..24].copy_from_slice(&1u32.to_le_bytes());
    d[24..32].copy_from_slice(&0x10004u64.to_le_bytes());
    d[32..40].copy_from_slice(&64u64.to_le_bytes());
    d[52..54].copy_from_slice(&64u16.to_le_bytes());
    d[54..56].copy_from_slice(&56u16.to_le_bytes());
    d[56..58].copy_from_slice(&1u16.to_le_bytes());
    // the program header
    d[64..68].copy_from_slice(&1u32.to_le_bytes());
    d[68..72].copy_from_slice(&5u32.to_le_bytes());
    d[72..80].copy_from_slice(&0u64.to_le_bytes());
    d[80..88].copy_from_slice(&0x10000u64.to_le_bytes());
    d[88..96].copy_from_slice(&0x10000u64.to_le_bytes());
    d[96..104].copy_from_slice(&0x80u64.to_le_bytes());
    d[104..112].copy_from_slice(&0x2000u64.to_le_bytes());
    d[112..120].copy_from_slice(&0x1000u64.to_le_bytes());
    d
}

#[test]
fn elf_header_and_segments_are_read() {
    let d = tiny_elf();
    let img = parse_elf(&d).unwrap();
    assert_eq!(img.entry, 0x10004);
    assert_eq!(img.segments.len(), 1);
    let s = img.segments[0];
    assert!(s.kind == SegmentKind::Load);
    assert_eq!((s.vaddr, s.mem_size, s.offset, s.file_size), (0x10000, 0x2000, 0, 0x80));
    assert!(s.readable && !s.writable && s.executable);
}

#[test]
fn elf_refused_when_short_or_not_elf() {
    let d = tiny_elf();
    assert!(parse_elf(&d[..40]).is_none());
    let mut bad = tiny_elf();
    bad[1] = b'X';
    assert!(parse_elf(&bad).is_none());
    // a program header table that runs past the end of the file
    let mut cut = tiny_elf();
    cut[56..58].copy_from_slice(&3u16.to_le_bytes());
    assert!(parse_elf(&cut).is_none());
}

#[test]
fn identity_pages_then_cleared() {
    let mut m = PhysMemory::new(BASE, 16);
    let mut t = static_table();
    let a = area(0x8020_0000, 0x8020_2000, 6);
    assert!(a.map_area_normal(&mut t, &mut m));
    // root entry 2 points at the second-level table after the root, whose
    // entry 1 points at the first leaf table
    assert_eq!(entry(&m, BASE, 2).to_ppn().0, BASE + 3);
    assert_eq!(entry(&m, BASE + 3, 1).to_ppn().0, BASE + 5);
    assert_eq!(t.usage[0], 0);
    assert_eq!(t.usage[1], 1);
    let e0 = entry(&m, BASE + 5, 0);
    assert!(e0.is_valid() && e0.is_readable() && e0.is_writeable() && !e0.is_executable());
    assert_eq!(e0.to_ppn().0, 0x80200);
    assert_eq!(entry(&m, BASE + 5, 1).to_ppn().0, 0x80201);
    assert!(!entry(&m, BASE + 5, 2).is_valid());
    assert!(a.unmap_area_normal(&t, &mut m));
    assert_eq!(m.read_word(BASE + 5, 0), 0);
    assert_eq!(m.read_word(BASE + 5, 1), 0);
}

#[test]
fn identity_blocks_for_whole_blocks() {
    let mut m = PhysMemory::new(BASE, 16);
    let mut t = static_table();
    let a = area(0x8000_0000, 0x8060_0000, 2);
    assert!(a.map_area_normal(&mut t, &mut m));
    for i in 0..3u64 {
        let e = entry(&m, BASE + 3, i as usize);
        assert!(e.is_valid() && e.is_readable());
        assert_eq!(e.to_ppn().0, 0x80000 + 0x200 * i);
    }
    assert!(!entry(&m, BASE + 3, 3).is_valid());
    // no leaf table was needed
    assert_eq!(t.usage, [1u8; 11]);
}

#[test]
fn kernel_maps_by_name() {
    let mut m = PhysMemory::new(BASE, 16);
    let mut k = KernelMemorySets::new(BASE * 4096);
    assert!(k.add_new_map(&mut m, "a".to_string(), area(0x8020_0000, 0x8020_2000, 6)));
    assert_eq!(entry(&m, BASE + 5, 0).to_ppn().0, 0x80200);
    // overlapping, same name, and empty areas are refused
    assert!(!k.add_new_map(&mut m, "b".to_string(), area(0x8020_1000, 0x8020_3000, 6)));
    assert!(!k.add_new_map(&mut m, "a".to_string(), area(0x8030_0000, 0x8030_1000, 6)));
    assert!(!k.add_new_map(&mut m, "c".to_string(), area(0x8030_1000, 0x8030_1000, 6)));
    assert!(k.add_new_map(&mut m, "b".to_string(), area(0x8020_2000, 0x8020_3000, 2)));
    assert_eq!(entry(&m, BASE + 5, 2).to_ppn().0, 0x80202);
    assert!(k.remove_map(&mut m, "a".to_string()));
    assert_eq!(m.read_word(BASE + 5, 0), 0);
    assert!(k.sets.get(&"a".to_string()).is_none());
    assert!(!k.remove_map(&mut m, "a".to_string()));
    assert!(k.sets.get(&"b".to_string()).is_some());
}

fn layout() -> KernelLayout {
    KernelLayout {
        stext: 0x8020_0000,
        etext: 0x8020_3000,
        srodata: 0x8020_3000,
        erodata: 0x8020_5000,
        sdata: 0x8020_5000,
        ebss: 0x8020_9000,
        ekernel: 0x8020_9000,
    }
}

#[test]
fn first_boot_maps_the_core_areas() {
    let mut m = PhysMemory::new(BASE, 16);
    let mut t = static_table();
    let token = init_first_kernel_mapping(&layout(), &mut t, &mut m).unwrap();
    assert_eq!(token, (8u64 << 60) | BASE);
    // text is readable and runs; the data is writable
    let text = entry(&m, BASE + 5, 0);
    assert!(text.is_executable() && !text.is_writeable());
    assert_eq!(text.to_ppn().0, 0x80200);
    let data = entry(&m, BASE + 5, 5);
    assert!(data.is_writeable() && !data.is_executable());
    // the memory above the image is mapped in blocks from 0x8040_0000 on
    assert_eq!(entry(&m, BASE + 3, 2).to_ppn().0, 0x80400);
    assert_eq!(board_mmio().len(), 4);
}

#[test]
fn second_boot_records_areas_and_trap_page() {
    let mut m = PhysMemory::new(BASE, 32);
    let mut a = StackFrameAllocator::new();
    a.init(PhysPageNum(BASE + 16), PhysPageNum(BASE + 32));
    let strap = 0x8020_1000u64;
    let mut k = init_second_kernel_mapping(&layout(), BASE * 4096, &mut a, &mut m, strap);
    assert_eq!(k.get_kernel_stap(), (8u64 << 60) | BASE);
    for n in ["text", "rodata", "data_bss", "frames", "MMIO_0", "MMIO_3"] {
        assert!(k.sets.get(&n.to_string()).is_some());
    }
    assert_eq!(k.sets.get(&"MMIO_2".to_string()).unwrap().vaddr_start.0, 0xC00_0000);
    assert!(k.sets.get(&"MMIO_4".to_string()).is_none());
    assert_eq!(k.dyn_memorys.table.do_table_walk(&m, VirtPageNum(0x7FF_FFFF)).unwrap().0, 0x80201);
    // the first kernel stack is id 0, above its guard page
    let s = alloc_kernel_stack(&mut k, &mut a, &mut m).unwrap();
    assert_eq!(s.stack_id, 0);
    assert!(k.dyn_memorys.table.do_table_walk(&m, VirtPageNum(0x7F8_0000)).is_none());
    assert!(k.dyn_memorys.table.do_table_walk(&m, VirtPageNum(0x7F8_0001)).is_some());
    assert!(k.dyn_memorys.table.do_table_walk(&m, VirtPageNum(0x7F8_0002)).is_some());
    assert!(k.dyn_memorys.sets.get(&"0".to_string()).is_some());
    let s1 = alloc_kernel_stack(&mut k, &mut a, &mut m).unwrap();
    assert_eq!(s1.stack_id, 1);
    assert!(k.dyn_memorys.table.do_table_walk(&m, VirtPageNum(0x7F8_0004)).is_some());
}

fn user_setup() -> (StackFrameAllocator, PhysMemory, UserMemorySets) {
    let mut a = StackFrameAllocator::new();
    a.init(PhysPageNum(0x100), PhysPageNum(0x140));
    (a, PhysMemory::new(0x100, 64), UserMemorySets::new())
}

#[test]
fn user_area_gets_fresh_frames() {
    let (mut a, mut m, mut s) = user_setup();
    assert!(s.can_map_area(&"x".to_string(), area(0x1000, 0x3000, 0x16)));
    assert!(s.add_new_user_map(&mut a, &mut m, "x".to_string(), area(0x1000, 0x3000, 0x16)));
    let f1 = s.table.do_table_walk(&m, VirtPageNum(1)).unwrap().0;
    let f2 = s.table.do_table_walk(&m, VirtPageNum(2)).unwrap().0;
    assert!(f1 != f2);
    assert!(s.table.do_table_walk(&m, VirtPageNum(3)).is_none());
    let x = s.sets.get(&"x".to_string()).unwrap();
    assert_eq!(x.mem_frames.get(1), Some(f1));
    assert_eq!(x.mem_frames.get(2), Some(f2));
    // overlapping or same-named areas are refused and change nothing
    assert!(!s.can_map_area(&"y".to_string(), area(0x2000, 0x4000, 0x16)));
    assert!(!s.add_new_user_map(&mut a, &mut m, "x".to_string(), area(0x8000, 0x9000, 0x16)));
    assert_eq!(s.sets.len(), 1);
}

#[test]
fn clearing_an_area_zeroes_its_frames() {
    let (mut a, mut m, mut s) = user_setup();
    assert!(s.add_new_user_map(&mut a, &mut m, "x".to_string(), area(0x1000, 0x3000, 0x16)));
    let f1 = s.table.do_table_walk(&m, VirtPageNum(1)).unwrap().0;
    m.write_word(f1, 7, 99);
    assert!(s.clear_map_area(&mut m, &"x".to_string(), VirtualAddr(0x1000), VirtualAddr(0x2000)));
    assert_eq!(m.read_word(f1, 7), 0);
    assert!(!s.clear_map_area(&mut m, &"none".to_string(), VirtualAddr(0x1000), VirtualAddr(0x2000)));
}

#[test]
fn stack_and_trap_context_of_a_thread() {
    let (mut a, mut m, mut s) = user_setup();
    assert!(s.add_user_stack(&mut a, &mut m, 0));
    assert!(s.add_trap_context(&mut a, &mut m, 0));
    let cx = s.get_trap_context_paddr(&m, 0);
    let vpn = (0xFFFF_FFFF_7FFF_F000u64 + 4096) & 0x7F_FFFF_FFFF;
    assert_eq!(cx, s.table.do_table_walk(&m, VirtPageNum(vpn / 4096)).unwrap().0 * 4096);
    let args = s.get_user_start_args_paddr(&m, 0);
    assert_eq!(args % 4096, 0);
    assert!(s.sets.get(&"usr_stack".to_string()).is_some());
}

#[test]
fn trap_page_and_frame_buffer() {
    let (mut a, mut m, mut s) = user_setup();
    s.set_trap_text_page(&mut a, &mut m, 0x8020_3000);
    assert_eq!(s.table.do_table_walk(&m, VirtPageNum(0x7FF_FFFF)).unwrap().0, 0x80203);
    let at = s.add_framebuffer_addr(&mut a, &mut m, 0x9000_0000, 0x2800);
    assert_eq!(at, 0x20_0000_0000);
    // three pages, onto consecutive frames
    for k in 0..3u64 {
        assert_eq!(s.table.do_table_walk(&m, VirtPageNum(0x200_0000 + k)).unwrap().0, 0x90000 + k);
    }
    assert!(s.table.do_table_walk(&m, VirtPageNum(0x200_0003)).is_none());
    assert_eq!(s.table.do_table_walk(&m, VirtPageNum(0x7FF_FFFF)).unwrap().0, 0x80203);
}

#[test]
fn elf_is_loaded_with_copies_of_its_data() {
    let (mut a, mut m, mut s) = user_setup();
    let d = tiny_elf();
    let (entry_point, chunks) = s.load_with_elf(&mut a, &mut m, &d, 0x8020_3000).unwrap();
    assert_eq!(entry_point, 0x10004);
    let f = s.table.do_table_walk(&m, VirtPageNum(0x10)).unwrap().0;
    assert!(s.table.do_table_walk(&m, VirtPageNum(0x11)).is_some());
    assert_eq!(chunks.len(), 1);
    assert_eq!((chunks[0].dst_ppn, chunks[0].src_offset), (f, 0));
    assert!(s.sets.get(&"0".to_string()).is_some());
    assert_eq!(s.table.do_table_walk(&m, VirtPageNum(0x7FF_FFFF)).unwrap().0, 0x80203);
}

#[test]
fn unmapping_an_area_returns_its_frames() {
    let (mut a, mut m, mut s) = user_setup();
    assert!(s.add_new_user_map(&mut a, &mut m, "x".to_string(), area(0x1000, 0x3000, 0x16)));
    let f1 = s.table.do_table_walk(&m, VirtPageNum(1)).unwrap().0;
    let f2 = s.table.do_table_walk(&m, VirtPageNum(2)).unwrap().0;
    assert!(s.remove_user_map(&mut a, &mut m, &"x".to_string()));
    assert!(s.table.do_table_walk(&m, VirtPageNum(1)).is_none());
    assert!(s.table.do_table_walk(&m, VirtPageNum(2)).is_none());
    assert_eq!(s.sets.len(), 0);
    // the frames went back, the last one first out again
    assert_eq!(a.alloc_frame().unwrap().0, f2);
    assert_eq!(a.alloc_frame().unwrap().0, f1);
    assert!(!s.remove_user_map(&mut a, &mut m, &"x".to_string()));
}

#[test]
fn removing_every_area() {
    let (mut a, mut m, mut s) = user_setup();
    s.set_trap_text_page(&mut a, &mut m, 0x8020_3000);
    assert!(s.add_user_stack(&mut a, &mut m, 0));
    assert!(s.add_trap_context(&mut a, &mut m, 0));
    assert_eq!(s.sets.len(), 3);
    assert!(s.remove_all_map(&mut a, &mut m));
    assert_eq!(s.sets.len(), 0);
    assert!(s.table.do_table_walk(&m, VirtPageNum(0x7FF_FFFF)).is_none());
    let cx = (0xFFFF_FFFF_7FFF_F000u64 + 4096) & 0x7F_FFFF_FFFF;
    assert!(s.table.do_table_walk(&m, VirtPageNum(cx / 4096)).is_none());
}

#[test]
fn kernel_stack_given_back() {
    let mut m = PhysMemory::new(BASE, 32);
    let mut a = StackFrameAllocator::new();
    a.init(PhysPageNum(BASE + 16), PhysPageNum(BASE + 32));
    let mut k = init_second_kernel_mapping(&layout(), BASE * 4096, &mut a, &mut m, 0x8020_1000);
    let s = alloc_kernel_stack(&mut k, &mut a, &mut m).unwrap();
    assert_eq!(s.stack_id, 0);
    assert!(remove_stack(&mut k, &mut a, &mut m, 0));
    assert!(k.dyn_memorys.table.do_table_walk(&m, VirtPageNum(0x7F8_0001)).is_none());
    assert!(k.dyn_memorys.sets.get(&"0".to_string()).is_none());
    // the id comes out again, and the stack is mapped anew
    let s2 = alloc_kernel_stack(&mut k, &mut a, &mut m).unwrap();
    assert_eq!(s2.stack_id, 0);
    assert!(k.dyn_memorys.table.do_table_walk(&m, VirtPageNum(0x7F8_0001)).is_some());
    assert!(!k.remove_kernel_stack(&mut a, &mut m, 7));
}

#[test]
fn fork_copies_every_page() {
    let (mut a, mut m, mut parent) = user_setup();
    parent.set_trap_text_page(&mut a, &mut m, 0x8020_3000);
    assert!(parent.add_new_user_map(&mut a, &mut m, "x".to_string(), area(0x1000, 0x3000, 0x16)));
    let p1 = parent.table.do_table_walk(&m, VirtPageNum(1)).unwrap().0;
    let p2 = parent.table.do_table_walk(&m, VirtPageNum(2)).unwrap().0;
    m.write_word(p1, 0, 11);
    m.write_word(p2, 511, 22);
    let mut child = UserMemorySets::new();
    assert!(parent.fork_user_memory(&mut a, &mut m, &mut child, 0x8020_3000));
    let c1 = child.table.do_table_walk(&m, VirtPageNum(1)).unwrap().0;
    let c2 = child.table.do_table_walk(&m, VirtPageNum(2)).unwrap().0;
    assert!(c1 != p1 && c2 != p2 && child.table.root_ppn.0 != parent.table.root_ppn.0);
    assert_eq!(m.read_word(c1, 0), 11);
    assert_eq!(m.read_word(c2, 511), 22);
    assert_eq!(child.table.do_table_walk(&m, VirtPageNum(0x7FF_FFFF)).unwrap().0, 0x80203);
    assert_eq!(child.sets.len(), 2);
    // the copies are apart: writing the child leaves the parent alone
    m.write_word(c1, 0, 99);
    assert_eq!(m.read_word(p1, 0), 11);
}

#[test]
fn fork_refused_for_a_frame_buffer() {
    let (mut a, mut m, mut parent) = user_setup();
    parent.add_framebuffer_addr(&mut a, &mut m, 0x9000_0000, 0x1000);
    let mut child = UserMemorySets::new();
    // the frame buffer's pages have no frames of their own to copy
    assert!(!parent.fork_user_memory(&mut a, &mut m, &mut child, 0x8020_3000));
}

#[test]
fn words_of_a_thread_trap_context() {
    let (mut a, mut m, mut s) = user_setup();
    assert!(s.add_user_stack(&mut a, &mut m, 0));
    assert!(s.add_trap_context(&mut a, &mut m, 0));
    let t = Thread::new(0, 3);
    let f = s.get_trap_context_paddr(&m, 0) / 4096;
    t.write_syscall_return_value(&mut m, s.table.root_ppn, 42);
    assert_eq!(m.read_word(f, 10), 42);
    assert_eq!(t.read_syscall_return_value(&m, s.table.root_ppn), 42);
    t.set_extra_thread_args(&mut m, s.table.root_ppn, 0x1234, 0x5678);
    assert_eq!((m.read_word(f, 10), m.read_word(f, 11)), (0x1234, 0x5678));
    t.set_fork_data(&mut m, s.table.root_ppn, 0);
    assert_eq!(m.read_word(f, 10), 0);
    assert_eq!(m.read_word(f, 38), 0xFFFF_FFFF_7FFF_F000 + 4096);
    assert_eq!(m.read_word(f, 34), 0xFFFF_FFFF_8000_0000 + 12288 * 4);
    assert_eq!(m.read_word(f, 36), (8u64 << 60) | s.table.root_ppn.0);
}

#[test]
fn user_buffer_write_then_read() {
    let (mut a, mut m, mut s) = user_setup();
    assert!(s.add_new_user_map(&mut a, &mut m, "x".to_string(), area(0x1000, 0x3000, 0x16)));
    // a buffer over the page boundary
    let buf = UserBuffer::new(&m, s.table.root_ppn, 0x1FFC, 8);
    assert_eq!(buf.kernel_bufs.len(), 2);
    let data: Vec<u8> = vec![1, 2, 3, 4, 5, 6, 7, 8];
    buf.write_kernel_slice_to_user(&mut m, &data);
    assert_eq!(buf.read_buff_to_kernel_slice(&m, 8), data);
    assert_eq!(buf.read_buff_to_kernel_slice(&m, 3), vec![1, 2, 3]);
    assert_eq!(buf.read_buff_to_kernel_slice(&m, 100), data);
    // the bytes sit at the end of the first page and the start of the next
    let f1 = s.table.do_table_walk(&m, VirtPageNum(1)).unwrap().0;
    let f2 = s.table.do_table_walk(&m, VirtPageNum(2)).unwrap().0;
    assert_eq!(m.read_word(f1, 511) >> 32, 0x0403_0201);
    assert_eq!(m.read_word(f2, 0) & 0xFFFF_FFFF, 0x0807_0605);
    // a longer slice fills only the buffer
    let small = UserBuffer::new(&m, s.table.root_ppn, 0x1100, 2);
    small.write_kernel_slice_to_user(&mut m, &[9, 9, 9]);
    assert_eq!(small.read_buff_to_kernel_slice(&m, 4), vec![9, 9]);
}

#[test]
fn loaded_data_is_copied_word_by_word() {
    let (mut a, mut m, mut s) = user_setup();
    let d = tiny_elf();
    let (_, chunks) = s.load_with_elf(&mut a, &mut m, &d, 0x8020_3000).unwrap();
    assert!(copy_src_data(&mut m, &d, &chunks));
    let f = s.table.do_table_walk(&m, VirtPageNum(0x10)).unwrap().0;
    assert_eq!(m.read_word(f, 0), u64::from_le_bytes([0x7f, b'E', b'L', b'F', 2, 1, 1, 0]));
    assert_eq!(m.read_word(f, 3), 0x10004);
    // past the end of the file the page is zero
    assert_eq!(m.read_word(f, 100), 0);
    // a frame named twice is refused
    let twice = vec![chunks[0], chunks[0]];
    assert!(!copy_src_data(&mut m, &d, &twice));
}

#[test]
fn user_and_kernel_addresses_to_physical() {
    let (mut a, mut m, mut s) = user_setup();
    assert!(s.add_new_user_map(&mut a, &mut m, "x".to_string(), area(0x1000, 0x3000, 0x16)));
    let f = s.table.do_table_walk(&m, VirtPageNum(2)).unwrap().0;
    assert_eq!(uaddr_to_phy_addr(&m, s.table.root_ppn, 0x2345), f * 4096 + 0x345);
    // below the kernel stacks an address is its own physical address
    assert_eq!(kern_vaddr_to_phy_addr(&m, 0x8000_0000, 0x8020_1234), 0x8020_1234);
    assert!(static_table().check_block_table_aligned());
    assert!(!StaticPageTable { table: 0x8000_0010, usage: [1u8; 11] }.check_block_table_aligned());
}

#[test]
fn private_memory_of_a_thread() {
    let (mut a, mut m, _) = user_setup();
    let t = Thread::new(0, 0);
    let s = t.init_private_memorys(&mut a, &mut m, 0).unwrap();
    assert!(s.sets.get(&"usr_stack".to_string()).is_some());
    assert!(s.sets.get(&"trap_context".to_string()).is_some());
    let vpn = ((0xFFFF_FFFF_7FFF_F000u64 + 4096) & 0x7F_FFFF_FFFF) / 4096;
    let f = s.table.do_table_walk(&m, VirtPageNum(vpn)).unwrap().0;
    for i in 0..512 {
        assert_eq!(m.read_word(f, i), 0);
    }
    // a second thread over the same table gets its own pages
    let root = s.table.root_ppn.0 * 4096;
    let t1 = Thread::new(1, 1);
    let s1 = t1.init_private_memorys(&mut a, &mut m, root).unwrap();
    assert_eq!(s1.table.root_ppn.0, s.table.root_ppn.0);
    assert!(s1.table.do_table_walk(&m, VirtPageNum(vpn)).is_some());
}

#[test]
fn elf_parses_from_any_address() {
    let d = tiny_elf();
    let mut shifted: Vec<u8> = vec![0xAA];
    shifted.extend_from_slice(&d);
    let img = parse_elf(&shifted[1..]).unwrap();
    assert_eq!(img.entry, 0x10004);
    assert_eq!(img.segments.len(), 1);
    assert_eq!(img.segments[0].vaddr, 0x10000);
}

#[test]
fn start_arguments_are_written_on_the_stack_page() {
    let (mut a, mut m, mut s) = user_setup();
    assert!(s.add_user_stack(&mut a, &mut m, 0));
    assert!(s.add_trap_context(&mut a, &mut m, 0));
    // the caller's strings, in an area of its own address space
    let mut src = UserMemorySets::new();
    assert!(src.add_new_user_map(&mut a, &mut m, "x".to_string(), area(0x1000, 0x2000, 0x16)));
    let sbuf = UserBuffer::new(&m, src.table.root_ppn, 0x1000, 5);
    sbuf.write_kernel_slice_to_user(&mut m, b"ab\0cd");
    let args: Vec<u64> = vec![0, 0, 0x1000, 2, 0x1003, 2];
    let strs = read_start_strings(&m, src.table.root_ppn, &args);
    assert_eq!(strs, vec![b"ab".to_vec(), b"cd".to_vec()]);
    let t = Thread::new(0, 3);
    let env = TrapEnv { sstatus: 0x122, kernel_stap: 7, trap_handler: 9 };
    let plan = t.set_user_trap_context(&mut m, s.table.root_ppn, 0x10004, &args, env);
    assert_eq!(plan.len(), 2);
    place_start_args(&mut m, &plan, &strs);
    let f = s.get_trap_context_paddr(&m, 0) / 4096;
    assert_eq!(m.read_word(f, 10), 2);
    assert_eq!(m.read_word(f, 33), 0x22);
    let base = s.get_user_start_args_paddr(&m, 0);
    assert_eq!(plan[0].len_addr, base);
    // first record: length 2, then "ab"; the second starts 11 bytes on
    let w0 = m.read_word(base / 4096, ((base % 4096) / 8) as usize);
    assert_eq!(w0, 2);
    let w1 = m.read_word(base / 4096, ((base % 4096) / 8 + 1) as usize);
    assert_eq!(w1 & 0xFFFF, u64::from(b'a') | (u64::from(b'b') << 8));
    assert_eq!(plan[1].len_addr, base + 11);
    assert_eq!((w1 >> 24) & 0xFF, 2);
}

#[test]
fn pipe_descriptors_and_exit_code_reach_user_memory() {
    let (mut a, mut m, mut s) = user_setup();
    assert!(s.add_new_user_map(&mut a, &mut m, "x".to_string(), area(0x1000, 0x3000, 0x16)));
    let o = SyscallOutcome::WritePipeFds { ptr: 0x1FF8, read_fd: 3, write_fd: 4 };
    assert_eq!(perform_memory_outcome(&mut m, s.table.root_ppn, &o), Some(0));
    let ub = UserBuffer::new(&m, s.table.root_ppn, 0x1FF8, 16);
    let b = ub.read_buff_to_kernel_slice(&m, 16);
    assert_eq!(b[0..8].to_vec(), 3u64.to_le_bytes().to_vec());
    assert_eq!(b[8..16].to_vec(), 4u64.to_le_bytes().to_vec());
    let o = SyscallOutcome::WriteExitCode { ptr: 0x1100, code: -2, ret: 7 };
    assert_eq!(perform_memory_outcome(&mut m, s.table.root_ppn, &o), Some(7));
    let ub = UserBuffer::new(&m, s.table.root_ppn, 0x1100, 4);
    assert_eq!(ub.read_buff_to_kernel_slice(&m, 4), (-2i32).to_le_bytes().to_vec());
    assert_eq!(perform_memory_outcome(&mut m, s.table.root_ppn, &SyscallOutcome::SigReturn), None);
}

#[test]
fn pipe_read_fills_the_pieces_of_a_user_buffer() {
    let (mut a, mut m, mut s) = user_setup();
    assert!(s.add_new_user_map(&mut a, &mut m, "x".to_string(), area(0x1000, 0x3000, 0x16)));
    let mut ring = PipeRingBuffer::new();
    let _ = ring.write_data(b"hello");
    let reader = Pipe::get_read_pipe(0);
    let ub = UserBuffer::new(&m, s.table.root_ppn, 0x1FFC, 8);
    assert_eq!(ub.kernel_bufs.len(), 2);
    // the first piece takes four bytes; the second finds one and stops
    let (at, step) = reader.read_user(&mut ring, &mut m, &ub.piece_list(), 0, 0);
    assert!(at == 1 && step == PipeStep::Finished(5));
    assert_eq!(ub.read_buff_to_kernel_slice(&m, 5), b"hello".to_vec());
    // an empty pipe with a live writer makes the reader wait at the piece
    let (at, step) = reader.read_user(&mut ring, &mut m, &ub.piece_list(), 1, 5);
    assert!(at == 1 && step == PipeStep::Wait);
}
