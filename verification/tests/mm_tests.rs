use tiny_os::mm::address::{
    PhysAddr, PhysPageNum, StepByOne, VirtPageNum, VirtualAddr, round_down_in_2m, round_down_in_4k,
    round_up_in_1g, round_up_in_4k,
};
use tiny_os::mm::frame_allocator::{FrameWrapper, StackFrameAllocator};
use tiny_os::mm::kernel_set::get_kernel_stack_top;
use tiny_os::mm::memory_set::{
    MapPermission, PhysBuffer, get_user_stack_top, get_user_trap_context_start, translate_user_buffer,
};
use tiny_os::mm::page_table::{
    DynamicPageTable, PageTableEntry, PhysMemory, RisvPTEFlags, do_table_walk_in_4k,
};

#[test]
fn rounding_to_pages_and_blocks() {
    assert_eq!(round_down_in_4k(0x1234), 0x1000);
    assert_eq!(round_up_in_4k(0x1234), 0x2000);
    assert_eq!(round_up_in_4k(0x2000), 0x2000);
    assert_eq!(round_down_in_2m(0x0030_1234), 0x0020_0000);
    assert_eq!(round_up_in_1g(0x4000_0001), 0x8000_0000);
    let v = VirtualAddr::from(0x1234u64);
    assert_eq!(v.round_down_in_4k().0, 0x1000);
    assert_eq!(v.page_offset(), 0x234);
    assert!(!v.is_aligned());
    assert!(PhysAddr::from(0x8020_0000u64).is_aligned());
}

#[test]
fn address_conversions() {
    assert_eq!(VirtualAddr::from(0xFFFF_FFFF_FFFF_F000u64).0, 0x7F_FFFF_F000);
    assert_eq!(PhysPageNum::from(PhysAddr::from(0x8020_3000u64)).0, 0x80203);
    assert_eq!(PhysAddr::from(PhysPageNum(0x80203)).0, 0x8020_3000);
    assert_eq!(VirtPageNum::from(VirtualAddr(0x0040_3000)).0, 0x403);
    let idx = VirtPageNum(0x403).get_table_indexs();
    assert_eq!(idx, [3, 2, 0]);
    let mut p = PhysPageNum(7);
    p.step();
    assert_eq!(p.0, 8);
}

#[test]
fn stack_and_context_addresses() {
    assert_eq!(get_user_stack_top(0), 0xFFFF_FFFE_FFFF_F000 + 12288);
    assert_eq!(get_user_trap_context_start(1), 0xFFFF_FFFF_7FFF_F000 + 4096 * 3);
    assert_eq!(get_kernel_stack_top(2), 0xFFFF_FFFF_8000_0000 + 12288 * 3);
}

#[test]
fn frame_allocator_hands_out_range_then_recycled() {
    let mut a = StackFrameAllocator::new();
    a.init(PhysPageNum(100), PhysPageNum(102));
    assert_eq!(a.alloc_frame().unwrap().0, 100);
    assert_eq!(a.alloc_frame().unwrap().0, 101);
    assert!(a.alloc_frame().is_none());
    a.dealloc(PhysPageNum(100));
    assert_eq!(a.alloc_frame().unwrap().0, 100);
    assert!(a.alloc_frame().is_none());
}

#[test]
fn pte_fields() {
    let e = PageTableEntry::new(PhysPageNum(0x80200), RisvPTEFlags { bits: 0b1111 });
    assert_eq!(e.entry, (0x80200 << 10) | 0b1111);
    assert_eq!(e.to_ppn().0, 0x80200);
    assert!(e.is_valid() && e.is_readable() && e.is_writeable() && e.is_executable());
    assert!(!PageTableEntry::empty().is_valid());
    assert_eq!(RisvPTEFlags::from_bits(3).unwrap().union(RisvPTEFlags { bits: 4 }).bits, 7);
    assert_eq!(MapPermission::from_bits(2).unwrap().bits, 2);
}

fn setup() -> (StackFrameAllocator, PhysMemory) {
    let mut a = StackFrameAllocator::new();
    a.init(PhysPageNum(0x100), PhysPageNum(0x110));
    let m = PhysMemory::new(0x100, 16);
    (a, m)
}

#[test]
fn map_then_walk_gives_the_frame() {
    let (mut a, mut m) = setup();
    let mut t = DynamicPageTable::new();
    let vpn = VirtPageNum(0x12345);
    t.add_an_existed_page(&mut a, &mut m, vpn, PhysPageNum(0x9999), RisvPTEFlags { bits: 2 });
    assert_eq!(t.root_ppn.0, 0x100);
    assert_eq!(t.page_table.len(), 3);
    assert_eq!(t.do_table_walk(&m, vpn).unwrap().0, 0x9999);
    assert_eq!(do_table_walk_in_4k(&m, t.root_ppn, vpn).unwrap().0, 0x9999);
    // a neighbour in the same leaf table is not mapped
    assert!(t.do_table_walk(&m, VirtPageNum(0x12346)).is_none());
    // a second page in the same leaf table takes no new table
    t.add_an_existed_page(&mut a, &mut m, VirtPageNum(0x12346), PhysPageNum(0x7777), RisvPTEFlags { bits: 2 });
    assert_eq!(t.page_table.len(), 3);
    assert_eq!(t.do_table_walk(&m, VirtPageNum(0x12346)).unwrap().0, 0x7777);
    assert_eq!(t.do_table_walk(&m, vpn).unwrap().0, 0x9999);
    assert_eq!(t.get_root_stap(), (8u64 << 60) | 0x100);
}

#[test]
fn tables_on_the_path_and_clearing() {
    let (mut a, mut m) = setup();
    let mut t = DynamicPageTable::new();
    let vpn = VirtPageNum(0x4_0201);
    let l3 = t.check_l2_pointers(&mut a, &mut m, vpn);
    assert_eq!(l3.0, 0x102);
    assert_eq!(t.get_n_level_table_ppn(&m, vpn, 2).0, 0x101);
    assert_eq!(t.get_n_level_table_ppn(&m, vpn, 3).0, 0x102);
    assert!(t.do_table_walk(&m, vpn).is_none());
    t.set_l3_pages(&mut m, vpn, PhysPageNum(0x55), RisvPTEFlags { bits: 6 }, l3);
    assert_eq!(t.do_table_walk(&m, vpn).unwrap().0, 0x55);
    t.clear_l3_entrys(&mut m, vpn, l3);
    assert!(t.do_table_walk(&m, vpn).is_none());
    t.clear_l2_entrys(&mut a, &mut m, vpn, PhysPageNum(0x101));
    assert_eq!(t.page_table.len(), 2);
    // the leaf table went back to the allocator
    assert_eq!(a.alloc_frame().unwrap().0, 0x102);
}

#[test]
fn clear_frame_zeroes_it() {
    let (_, mut m) = setup();
    m.write_word(0x101, 5, 42);
    m.write_word(0x102, 5, 43);
    FrameWrapper::new(PhysPageNum(0x101)).clear_frame(&mut m);
    assert_eq!(m.read_word(0x101, 5), 0);
    assert_eq!(m.read_word(0x102, 5), 43);
}

#[test]
fn user_buffer_split_into_pieces() {
    let (mut a, mut m) = setup();
    let mut t = DynamicPageTable::new();
    for (i, f) in [(0x10u64, 0x900u64), (0x11, 0x500), (0x12, 0x700)] {
        t.add_an_existed_page(&mut a, &mut m, VirtPageNum(i), PhysPageNum(f), RisvPTEFlags { bits: 6 });
    }
    // inside one page
    let one = translate_user_buffer(&m, t.root_ppn, 0x10_010, 16);
    assert_eq!(one.len(), 1);
    assert!(one[0] == PhysBuffer { start: 0x900_010, len: 16 });
    // over three pages
    let three = translate_user_buffer(&m, t.root_ppn, 0x10_ff0, 0x1020);
    assert_eq!(three.len(), 3);
    assert!(three[0] == PhysBuffer { start: 0x900_ff0, len: 0x10 });
    assert!(three[1] == PhysBuffer { start: 0x500_000, len: 0x1000 });
    assert!(three[2] == PhysBuffer { start: 0x700_000, len: 0x10 });
}
