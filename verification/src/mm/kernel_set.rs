//! The kernel's address space: the static areas mapped to themselves in
//! the static table, and the kernel stacks, which have frames of their own.
use vstd::prelude::*;
use vstd::string::StringExecFns;
use crate::mm::address::VirtualAddr;
use crate::mm::areas::{StaticAreaTable, static_area_view};
use crate::mm::frame_allocator::StackFrameAllocator;
use crate::mm::memory_set::{MAP_PERM_R, MAP_PERM_W, MAP_PERM_X, MapPermission, MemoryStaticArea};
use crate::mm::page_table::{PhysMemory, alloc_ok, frames_needed, mapped, same_slot, table_ok};
use crate::mm::areas::frame_map_view;
use crate::mm::static_table::{StaticPageTable, normal_map_stops, normal_mapped, normal_unmap_stops, normal_unmapped};
use crate::mm::user_set::{
    UserMemorySets,
    add_clear_stops,
    areas,
    decimal,
    decimal_name,
    trap_text_area,
    user_area_added,
    user_unmap_post,
};
use crate::task::id::{IdStore, alloc_post};

verus! {

/// Start of the area of kernel stacks (2 GiB below the top).
pub const RISV_KERNEL_STACK_ARER_START: u64 = 0xFFFF_FFFF_8000_0000;
/// End of the area of kernel stacks.
pub const RISV_KERNEL_STACK_ARER_END: u64 = 0xFFFF_FFFF_C000_0000;
/// Size of one kernel stack.
pub const KERNEL_STACK_SIZE_U64: u64 = 8192;

/// The top of kernel stack `stack_id`.
pub open spec fn kernel_stack_top(stack_id: nat) -> nat {
    0xFFFF_FFFF_8000_0000 + (8192 + 4096) * (stack_id + 1)
}

/// The top of kernel stack `stack_id`: each stack sits above a guard page.
pub fn get_kernel_stack_top(stack_id: usize) -> (r: u64)
    requires
        kernel_stack_top(stack_id as nat) <= u64::MAX,
    ensures
        r == kernel_stack_top(stack_id as nat),
{
    let s: u64 = stack_id as u64;
    assert(s + 1 <= 0x8000_0000 && 12288 * (s + 1) <= 0x7FFF_FFFF) by (nonlinear_arith)
        requires
            0xFFFF_FFFF_8000_0000 + 12288 * (s + 1) <= u64::MAX,
    ;
    RISV_KERNEL_STACK_ARER_START + (KERNEL_STACK_SIZE_U64 + 4096) * (s + 1)
}

/// Area `a` overlaps no area of `sets`.
pub open spec fn apart_from_static(sets: Map<Seq<char>, MemoryStaticArea>, a: MemoryStaticArea) -> bool {
    forall|n: Seq<char>|
        #[trigger] sets.contains_key(n) ==> a.vaddr_start.0 >= sets[n].vaddr_end.0 || a.vaddr_end.0
            <= sets[n].vaddr_start.0
}

/// Whether `add_new_map` takes area `a` under `name`: always while there
/// is no area; otherwise when `a` is not empty, no area has the name, and
/// `a` overlaps no area.
pub open spec fn can_map_static(sets: Map<Seq<char>, MemoryStaticArea>, name: Seq<char>, a: MemoryStaticArea) -> bool {
    sets.dom() =~= Set::<Seq<char>>::empty() || (a.vaddr_start.0 < a.vaddr_end.0 && !sets.contains_key(name)
        && apart_from_static(sets, a))
}

/// The area of kernel stack `stack_id`: the stack above its guard page,
/// readable and writable, at 39-bit addresses.
pub open spec fn kernel_stack_area(stack_id: usize) -> MemoryStaticArea {
    let start = (0xFFFF_FFFF_8000_0000 + 12288 * stack_id) as u64;
    MemoryStaticArea {
        vaddr_start: VirtualAddr(((start + 4096) as u64) & 0x0000_007F_FFFF_FFFF),
        vaddr_end: VirtualAddr(((start + 12288) as u64) & 0x0000_007F_FFFF_FFFF),
        perm: MapPermission { bits: MAP_PERM_R | MAP_PERM_W },
    }
}

/// The page number that a root table at physical address `table` has.
pub open spec fn root_ppn_of(table: u64) -> u64 {
    ((table & 0x00FF_FFFF_FFFF_FFFF) >> 12u64) as u64
}

/// The kernel's address space: the static table and its areas by name,
/// and the address space of kernel stacks, which shares the root table,
/// with the store of stack ids.
pub struct KernelMemorySets {
    pub kern_table: StaticPageTable,
    pub sets: StaticAreaTable,
    pub dyn_memorys: UserMemorySets,
    pub stack_ids: IdStore,
}

impl KernelMemorySets {
    /// The kernel's areas of the table at physical address `root_pgt`: no
    /// area yet, every leaf table unused, no stack id.
    pub fn new(root_pgt: u64) -> (r: Self)
        ensures
            r.kern_table.table == root_pgt,
            forall|i: int| 0 <= i < 11 ==> r.kern_table.usage[i] == 1,
            static_area_view(r.sets).dom() == Set::<Seq<char>>::empty(),
            r.dyn_memorys.table.root_ppn.0 == 0,
            areas(r.dyn_memorys).dom() == Set::<Seq<char>>::empty(),
            r.stack_ids.max_id == 0,
            r.stack_ids.avalible@ == Seq::<usize>::empty(),
    {
        KernelMemorySets {
            kern_table: StaticPageTable { table: root_pgt, usage: [1u8; 11] },
            sets: StaticAreaTable::new(),
            dyn_memorys: UserMemorySets::new(),
            stack_ids: IdStore::new(),
        }
    }

    /// Records area `area` under `name`, as one the boot code has mapped.
    pub fn add_core_map(&mut self, name: String, area: MemoryStaticArea)
        ensures
            static_area_view(final(self).sets) == static_area_view(old(self).sets).insert(name@, area),
            final(self).kern_table == old(self).kern_table,
            final(self).dyn_memorys == old(self).dyn_memorys,
            final(self).stack_ids == old(self).stack_ids,
    {
        let _ = self.sets.insert(name, area);
    }

    /// Makes the address space of kernel stacks share the static root
    /// table, maps the trap code at physical address `strap_addr` there as
    /// `set_trap_text_page` does, and readies the store of stack ids.
    pub fn init_dynamic_mem(&mut self, alloc: &mut StackFrameAllocator, m: &mut PhysMemory, strap_addr: u64)
        requires
            strap_addr < 0x100_0000_0000_0000,
            alloc_ok(*old(alloc), *old(m)),
            table_ok(*old(m), root_ppn_of(old(self).kern_table.table), old(alloc).free_frames()),
            old(alloc).free_count() >= frames_needed(*old(m), root_ppn_of(old(self).kern_table.table), 0x7FF_FFFF),
            mapped(*old(m), root_ppn_of(old(self).kern_table.table), 0x7FF_FFFF).is_none(),
        ensures
            root_ppn_of(old(self).kern_table.table) != 0 ==> final(self).dyn_memorys.table.root_ppn.0 == root_ppn_of(
                old(self).kern_table.table,
            ),
            ({
                let a = areas(final(self).dyn_memorys)["trap_text"@];
                &&& areas(final(self).dyn_memorys) == areas(old(self).dyn_memorys).insert("trap_text"@, a)
                &&& a.area == trap_text_area()
                &&& frame_map_view(a.mem_frames).dom() == Set::<u64>::empty()
            }),
            mapped(*final(m), final(self).dyn_memorys.table.root_ppn.0, 0x7FF_FFFF) == Some((strap_addr / 4096) as u64),
            forall|v: u64|
                !same_slot(v, 0x7FF_FFFF) ==> #[trigger] mapped(*final(m), final(self).dyn_memorys.table.root_ppn.0, v)
                    == mapped(*old(m), root_ppn_of(old(self).kern_table.table), v),
            table_ok(*final(m), final(self).dyn_memorys.table.root_ppn.0, final(alloc).free_frames()),
            alloc_ok(*final(alloc), *final(m)),
            final(self).stack_ids.avalible@ == old(self).stack_ids.avalible@ + seq![3usize, 2, 1, 0],
            final(self).stack_ids.max_id == 4,
            final(self).kern_table == old(self).kern_table,
            static_area_view(final(self).sets) == static_area_view(old(self).sets),
    {
        self.dyn_memorys.table.set_root_ppn(self.kern_table.table);
        self.dyn_memorys.set_trap_text_page(alloc, m, strap_addr);
        self.stack_ids.init();
    }

    /// Maps kernel stack `stack_id` in the address space of kernel stacks:
    /// the 8 KiB above its guard page, readable and writable, as the area
    /// named by the id's digits, and clears it. False exactly where
    /// `add_and_clear` stops (`add_clear_stops`).
    pub fn add_kernel_stack(&mut self, alloc: &mut StackFrameAllocator, m: &mut PhysMemory, stack_id: usize) -> (r: bool)
        requires
            12288 * (stack_id + 1) <= 0x4000_0000,
            alloc_ok(*old(alloc), *old(m)),
            table_ok(*old(m), old(self).dyn_memorys.table.root_ppn.0, old(alloc).free_frames()),
        ensures
            r ==> user_area_added(
                old(self).dyn_memorys,
                final(self).dyn_memorys,
                *old(alloc),
                *final(alloc),
                *old(m),
                *final(m),
                decimal(stack_id as nat),
                kernel_stack_area(stack_id),
            ),
            !r ==> add_clear_stops(
                old(self).dyn_memorys,
                *old(alloc),
                *old(m),
                decimal(stack_id as nat),
                kernel_stack_area(stack_id),
            ),
            final(self).kern_table == old(self).kern_table,
            final(self).sets == old(self).sets,
            final(self).stack_ids == old(self).stack_ids,
    {
        let id: u64 = stack_id as u64;
        assert(12288 * id + 12288 <= 0x4000_0000) by (nonlinear_arith)
            requires
                12288 * (id + 1) <= 0x4000_0000,
        ;
        let kern_stack_start: u64 = RISV_KERNEL_STACK_ARER_START + (KERNEL_STACK_SIZE_U64 + 4096) * id;
        let kern_stack_end: u64 = kern_stack_start + KERNEL_STACK_SIZE_U64 + 4096;
        let start_va = VirtualAddr::from(kern_stack_start + 4096);
        let end_va = VirtualAddr::from(kern_stack_end);
        proof {
            crate::mm::address::lemma_masks(kern_stack_end);
        }
        let map_perm = MapPermission { bits: MAP_PERM_R }.union(MapPermission { bits: MAP_PERM_W });
        let map_area = MemoryStaticArea::new(start_va, end_va, map_perm);
        assert(map_area == kernel_stack_area(stack_id));
        let name = decimal_name(stack_id);
        self.dyn_memorys.add_and_clear(alloc, m, name, map_area)
    }

    /// Takes kernel stack `stack_id` out of the address space of kernel
    /// stacks as `remove_user_map` does.
    pub fn remove_kernel_stack(&mut self, alloc: &mut StackFrameAllocator, m: &mut PhysMemory, stack_id: usize) -> (r: bool)
        requires
            alloc_ok(*old(alloc), *old(m)),
            table_ok(*old(m), old(self).dyn_memorys.table.root_ppn.0, old(alloc).free_frames()),
        ensures
            user_unmap_post(
                old(self).dyn_memorys,
                final(self).dyn_memorys,
                *old(alloc),
                *final(alloc),
                *old(m),
                *final(m),
                decimal(stack_id as nat),
                r,
            ),
            final(self).kern_table == old(self).kern_table,
            final(self).sets == old(self).sets,
            final(self).stack_ids == old(self).stack_ids,
    {
        let name = decimal_name(stack_id);
        self.dyn_memorys.remove_user_map(alloc, m, &name)
    }

    /// The `satp` value of the kernel's address space.
    pub fn get_kernel_stap(&self) -> (r: u64)
        ensures
            r == (8u64 << 60u64) | self.dyn_memorys.table.root_ppn.0,
    {
        self.dyn_memorys.table.get_root_stap()
    }

    /// Whether `add_new_map` takes area `area` under `name`.
    #[verifier::rlimit(60)]
    #[verifier::spinoff_prover]
    fn can_add(&self, name: &String, area: MemoryStaticArea) -> (r: bool)
        ensures
            r == can_map_static(static_area_view(self.sets), name@, area),
    {
        let ghost sv = static_area_view(self.sets);
        let keys = self.sets.keys();
        if keys.len() == 0 {
            proof {
                assert forall|k: Seq<char>| !sv.contains_key(k) by {
                    if sv.contains_key(k) {
                        let j = choose|j: int| 0 <= j < keys@.len() && keys@[j]@ == k;
                    }
                }
                assert(sv.dom() =~= Set::<Seq<char>>::empty());
            }
            return true;
        }
        proof {
            assert(sv.contains_key(keys@[0]@));
        }
        let wanted_start = area.vaddr_start.0;
        let wanted_end = area.vaddr_end.0;
        if wanted_start >= wanted_end || self.sets.get(name).is_some() {
            return false;
        }
        let mut can: bool = true;
        let mut i: usize = 0;
        while i < keys.len()
            invariant
                i <= keys@.len(),
                sv == static_area_view(self.sets),
                forall|j: int| 0 <= j < keys@.len() ==> sv.contains_key(#[trigger] keys@[j]@),
                forall|k: Seq<char>| #[trigger] sv.contains_key(k) ==> exists|j: int| 0 <= j < keys@.len() && keys@[j]@ == k,
                can == forall|j: int|
                    0 <= j < i ==> wanted_start >= (#[trigger] sv[keys@[j]@]).vaddr_end.0 || wanted_end
                        <= sv[keys@[j]@].vaddr_start.0,
            decreases keys@.len() - i,
        {
            let a = self.sets.get(&keys[i]).unwrap();
            if !((wanted_start >= a.vaddr_end.0) || (wanted_end <= a.vaddr_start.0)) {
                can = false;
            }
            i = i + 1;
        }
        proof {
            if can {
                assert forall|n: Seq<char>| #[trigger] sv.contains_key(n) implies area.vaddr_start.0 >= sv[n].vaddr_end.0
                    || area.vaddr_end.0 <= sv[n].vaddr_start.0 by {
                    let j = choose|j: int| 0 <= j < keys@.len() && keys@[j]@ == n;
                    assert(sv[keys@[j]@] == sv[n]);
                }
            } else {
                let j = choose|j: int|
                    0 <= j < keys@.len() && !(wanted_start >= (#[trigger] sv[keys@[j]@]).vaddr_end.0 || wanted_end
                        <= sv[keys@[j]@].vaddr_start.0);
                assert(sv.contains_key(keys@[j]@));
            }
        }
        can
    }

    /// Adds area `area` under `name` and maps it to itself in the static
    /// table, when `can_map_static` allows it. True when it did; false,
    /// with nothing changed, when it may not; false too where the mapping
    /// stops as `map_area_normal` does.
    pub fn add_new_map(&mut self, m: &mut PhysMemory, name: String, area: MemoryStaticArea) -> (r: bool)
        requires
            area.vaddr_start.0 < 0x80_0000_0000,
            area.vaddr_end.0 < 0x80_0000_0000,
        ensures
            r ==> can_map_static(static_area_view(old(self).sets), name@, area),
            r ==> static_area_view(final(self).sets) == static_area_view(old(self).sets).insert(name@, area),
            r ==> normal_mapped(area, old(self).kern_table, final(self).kern_table, *old(m), *final(m)),
            !can_map_static(static_area_view(old(self).sets), name@, area) ==> !r && *final(self) == *old(self)
                && *final(m) == *old(m),
            !r ==> !can_map_static(static_area_view(old(self).sets), name@, area) || normal_map_stops(
                area,
                old(self).kern_table,
                *old(m),
            ),
            final(self).dyn_memorys == old(self).dyn_memorys,
            final(self).stack_ids == old(self).stack_ids,
    {
        if !self.can_add(&name, area) {
            return false;
        }
        let _ = self.sets.insert(name, area);
        area.map_area_normal(&mut self.kern_table, m)
    }

    /// Unmaps the area named `name` from the static table and forgets it.
    /// False, with nothing changed, when there is no such area; false too
    /// where the unmapping stops as `unmap_area_normal` does.
    pub fn remove_map(&mut self, m: &mut PhysMemory, name: String) -> (r: bool)
        requires
            forall|n: Seq<char>| #[trigger] static_area_view(old(self).sets).contains_key(n) ==> {
                &&& static_area_view(old(self).sets)[n].vaddr_start.0 < 0x80_0000_0000
                &&& static_area_view(old(self).sets)[n].vaddr_end.0 < 0x80_0000_0000
            },
        ensures
            r ==> static_area_view(old(self).sets).contains_key(name@),
            r ==> static_area_view(final(self).sets) == static_area_view(old(self).sets).remove(name@),
            r ==> normal_unmapped(static_area_view(old(self).sets)[name@], old(self).kern_table, *old(m), *final(m)),
            !static_area_view(old(self).sets).contains_key(name@) ==> !r && *final(self) == *old(self) && *final(m)
                == *old(m),
            !r ==> !static_area_view(old(self).sets).contains_key(name@) || normal_unmap_stops(
                static_area_view(old(self).sets)[name@],
                old(self).kern_table,
                *old(m),
            ),
            final(self).kern_table == old(self).kern_table,
            final(self).dyn_memorys == old(self).dyn_memorys,
            final(self).stack_ids == old(self).stack_ids,
    {
        match self.sets.get(&name) {
            Some(a) => {
                if !a.unmap_area_normal(&self.kern_table, m) {
                    return false;
                }
                let _ = self.sets.remove(&name);
                true
            },
            None => false,
        }
    }
}

/// A kernel stack, by its id.
pub struct KernelStack {
    pub stack_id: usize,
}

} // verus!

verus! {

/// Addresses of the kernel image's sections, as the linker places them.
#[derive(Copy, Clone)]
pub struct KernelLayout {
    pub stext: u64,
    pub etext: u64,
    pub srodata: u64,
    pub erodata: u64,
    pub sdata: u64,
    pub ebss: u64,
    pub ekernel: u64,
}

/// The board's memory-mapped device regions, as (start, size).
pub open spec fn mmio_regions() -> Seq<(u64, u64)> {
    seq![(0x0010_0000u64, 0x2000u64), (0x200_0000u64, 0x1_0000u64), (0xC00_0000u64, 0x21_0000u64), (0x1000_0000u64, 0x9000u64)]
}

/// The board's memory-mapped device regions, as (start, size).
pub fn board_mmio() -> (r: Vec<(u64, u64)>)
    ensures
        r@ == mmio_regions(),
{
    let r = vec![(0x0010_0000u64, 0x2000u64), (0x200_0000u64, 0x1_0000u64), (0xC00_0000u64, 0x21_0000u64), (0x1000_0000u64, 0x9000u64)];
    assert(r@ =~= mmio_regions());
    r
}

/// The area from address `s` to address `e` (each cut to 39 bits) with
/// permission bits `bits`.
pub open spec fn area_of(s: u64, e: u64, bits: u8) -> MemoryStaticArea {
    MemoryStaticArea {
        vaddr_start: VirtualAddr(s & 0x0000_007F_FFFF_FFFF),
        vaddr_end: VirtualAddr(e & 0x0000_007F_FFFF_FFFF),
        perm: MapPermission { bits },
    }
}

/// Core area `i` of the kernel: its text (read, run), read-only data
/// (read), data and bss (read, write), the memory from the image's end to
/// the end of memory (read, write), then each device region (read, write).
pub open spec fn core_area(l: KernelLayout, i: int) -> MemoryStaticArea {
    if i == 0 {
        area_of(l.stext, l.etext, MAP_PERM_R | MAP_PERM_X)
    } else if i == 1 {
        area_of(l.srodata, l.erodata, MAP_PERM_R)
    } else if i == 2 {
        area_of(l.sdata, l.ebss, MAP_PERM_R | MAP_PERM_W)
    } else if i == 3 {
        area_of(l.ekernel, 0x8400_0000, MAP_PERM_R | MAP_PERM_W)
    } else {
        let (st, sz) = mmio_regions()[i - 4];
        area_of(st, (st + sz) as u64, MAP_PERM_R | MAP_PERM_W)
    }
}

/// The name of core area `i`.
pub open spec fn core_name(i: int) -> Seq<char> {
    if i == 0 {
        "text"@
    } else if i == 1 {
        "rodata"@
    } else if i == 2 {
        "data_bss"@
    } else if i == 3 {
        "frames"@
    } else {
        "MMIO_"@ + decimal((i - 4) as nat)
    }
}

/// The first `n` core areas by name.
pub open spec fn core_map_upto(l: KernelLayout, n: nat) -> Map<Seq<char>, MemoryStaticArea>
    decreases n,
{
    if n == 0 {
        Map::empty()
    } else {
        core_map_upto(l, (n - 1) as nat).insert(core_name(n - 1), core_area(l, n - 1))
    }
}

/// The core areas with their names.
fn core_areas(l: &KernelLayout) -> (r: Vec<(String, MemoryStaticArea)>)
    ensures
        r@.len() == 8,
        forall|i: int| 0 <= i < 8 ==> (#[trigger] r@[i]).0@ == core_name(i) && r@[i].1 == core_area(*l, i),
        forall|i: int| 0 <= i < 8 ==> (#[trigger] r@[i]).1.vaddr_start.0 < 0x80_0000_0000 && r@[i].1.vaddr_end.0 < 0x80_0000_0000,
{
    let rx = MapPermission { bits: MAP_PERM_R }.union(MapPermission { bits: MAP_PERM_X });
    let ro = MapPermission { bits: MAP_PERM_R };
    let rw = MapPermission { bits: MAP_PERM_R }.union(MapPermission { bits: MAP_PERM_W });
    let mut r: Vec<(String, MemoryStaticArea)> = Vec::new();
    proof {
        crate::mm::address::lemma_masks(l.stext);
        crate::mm::address::lemma_masks(l.etext);
        crate::mm::address::lemma_masks(l.srodata);
        crate::mm::address::lemma_masks(l.erodata);
        crate::mm::address::lemma_masks(l.sdata);
        crate::mm::address::lemma_masks(l.ebss);
        crate::mm::address::lemma_masks(l.ekernel);
        crate::mm::address::lemma_masks(0x8400_0000);
    }
    r.push((String::from_str("text"), MemoryStaticArea::new(VirtualAddr::from(l.stext), VirtualAddr::from(l.etext), rx)));
    r.push((String::from_str("rodata"), MemoryStaticArea::new(VirtualAddr::from(l.srodata), VirtualAddr::from(l.erodata), ro)));
    r.push((String::from_str("data_bss"), MemoryStaticArea::new(VirtualAddr::from(l.sdata), VirtualAddr::from(l.ebss), rw)));
    r.push((String::from_str("frames"), MemoryStaticArea::new(VirtualAddr::from(l.ekernel), VirtualAddr::from(0x8400_0000u64), rw)));
    let mmio = board_mmio();
    let mut i: usize = 0;
    while i < mmio.len()
        invariant
            mmio@ == mmio_regions(),
            i <= 4,
            r@.len() == 4 + i,
            rw.bits == MAP_PERM_R | MAP_PERM_W,
            forall|j: int| 0 <= j < 4 + i ==> (#[trigger] r@[j]).0@ == core_name(j) && r@[j].1 == core_area(*l, j),
            forall|j: int| 0 <= j < 4 + i ==> (#[trigger] r@[j]).1.vaddr_start.0 < 0x80_0000_0000 && r@[j].1.vaddr_end.0 < 0x80_0000_0000,
        decreases 4 - i,
    {
        let (st, sz) = mmio[i];
        proof {
            crate::mm::address::lemma_masks(st);
            crate::mm::address::lemma_masks((st + sz) as u64);
        }
        let name = String::from_str("MMIO_").concat(decimal_name(i).as_str());
        r.push((name, MemoryStaticArea::new(VirtualAddr::from(st), VirtualAddr::from(st + sz), rw)));
        i = i + 1;
    }
    r
}

/// `ms[i]` and `ts[i]` become `ms[i + 1]` and `ts[i + 1]` as core area `i`
/// is mapped to itself, for each of the first `n` core areas.
pub open spec fn mapped_in_turn(l: KernelLayout, ts: Seq<StaticPageTable>, ms: Seq<PhysMemory>, n: int) -> bool {
    &&& ts.len() == n + 1
    &&& ms.len() == n + 1
    &&& forall|i: int| 0 <= i < n ==> #[trigger] normal_mapped(core_area(l, i), ts[i], ts[i + 1], ms[i], ms[i + 1])
}

/// The first boot step, while paging is off: maps each core
/// area to itself in the static table at `table` and returns the `satp`
/// value that turns paging on with it. `None` exactly where a mapping
/// stops as `map_area_normal` does (`normal_map_stops`), in the state the
/// mappings before it left.
pub fn init_first_kernel_mapping(layout: &KernelLayout, table: &mut StaticPageTable, m: &mut PhysMemory) -> (r: Option<u64>)
    requires
        old(table).table % 4096 == 0,
    ensures
        r.is_some() ==> r.unwrap() == (8u64 << 60u64) | (old(table).table >> 12u64),
        r.is_some() ==> exists|ts: Seq<StaticPageTable>, ms: Seq<PhysMemory>|
            #[trigger] mapped_in_turn(*layout, ts, ms, 8) && ts[0] == *old(table) && ms[0] == *old(m) && ts[8]
                == *final(table) && ms[8] == *final(m),
        r.is_none() ==> exists|k: int, ts: Seq<StaticPageTable>, ms: Seq<PhysMemory>|
            0 <= k < 8 && #[trigger] mapped_in_turn(*layout, ts, ms, k) && ts[0] == *old(table) && ms[0] == *old(m)
                && normal_map_stops(core_area(*layout, k), ts[k], ms[k]),
{
    let base = table.table;
    let list = core_areas(layout);
    let ghost mut ts: Seq<StaticPageTable> = seq![*table];
    let ghost mut ms: Seq<PhysMemory> = seq![*m];
    let mut i: usize = 0;
    while i < list.len()
        invariant
            list@.len() == 8,
            i <= 8,
            forall|j: int| 0 <= j < 8 ==> (#[trigger] list@[j]).1 == core_area(*layout, j),
            forall|j: int| 0 <= j < 8 ==> (#[trigger] list@[j]).1.vaddr_start.0 < 0x80_0000_0000 && list@[j].1.vaddr_end.0 < 0x80_0000_0000,
            mapped_in_turn(*layout, ts, ms, i as int),
            ts[0] == *old(table),
            ms[0] == *old(m),
            ts[i as int] == *table,
            ms[i as int] == *m,
        decreases 8 - i,
    {
        let a = list[i].1;
        assert(a == list@[i as int].1);
        if !a.map_area_normal(table, m) {
            proof {
                assert(mapped_in_turn(*layout, ts, ms, i as int));
            }
            return None;
        }
        proof {
            let ts0 = ts;
            let ms0 = ms;
            ts = ts.push(*table);
            ms = ms.push(*m);
            assert forall|j: int| 0 <= j < i + 1 implies #[trigger] normal_mapped(
                core_area(*layout, j),
                ts[j],
                ts[j + 1],
                ms[j],
                ms[j + 1],
            ) by {
                if j < i {
                    assert(normal_mapped(core_area(*layout, j), ts0[j], ts0[j + 1], ms0[j], ms0[j + 1]));
                }
            }
        }
        i = i + 1;
    }
    proof {
        assert(mapped_in_turn(*layout, ts, ms, 8));
    }
    Some((8u64 << 60u64) | (base >> 12u64))
}

/// The second boot step, once the kernel heap works: the kernel's address
/// space over the static table at `root`, with the core areas recorded by
/// name, the trap code at `strap_addr` mapped as `init_dynamic_mem` does,
/// and the store of stack ids ready.
pub fn init_second_kernel_mapping(
    layout: &KernelLayout,
    root: u64,
    alloc: &mut StackFrameAllocator,
    m: &mut PhysMemory,
    strap_addr: u64,
) -> (r: KernelMemorySets)
    requires
        strap_addr < 0x100_0000_0000_0000,
        alloc_ok(*old(alloc), *old(m)),
        table_ok(*old(m), root_ppn_of(root), old(alloc).free_frames()),
        old(alloc).free_count() >= frames_needed(*old(m), root_ppn_of(root), 0x7FF_FFFF),
        mapped(*old(m), root_ppn_of(root), 0x7FF_FFFF).is_none(),
    ensures
        r.kern_table.table == root,
        static_area_view(r.sets) == core_map_upto(*layout, 8),
        root_ppn_of(root) != 0 ==> r.dyn_memorys.table.root_ppn.0 == root_ppn_of(root),
        areas(r.dyn_memorys).dom() == set!["trap_text"@],
        areas(r.dyn_memorys)["trap_text"@].area == trap_text_area(),
        mapped(*final(m), r.dyn_memorys.table.root_ppn.0, 0x7FF_FFFF) == Some((strap_addr / 4096) as u64),
        forall|v: u64|
            !same_slot(v, 0x7FF_FFFF) ==> #[trigger] mapped(*final(m), r.dyn_memorys.table.root_ppn.0, v) == mapped(
                *old(m),
                root_ppn_of(root),
                v,
            ),
        table_ok(*final(m), r.dyn_memorys.table.root_ppn.0, final(alloc).free_frames()),
        alloc_ok(*final(alloc), *final(m)),
        r.stack_ids.avalible@ == seq![3usize, 2, 1, 0],
        r.stack_ids.max_id == 4,
{
    let mut ks = KernelMemorySets::new(root);
    let list = core_areas(layout);
    let mut i: usize = 0;
    while i < list.len()
        invariant
            list@.len() == 8,
            i <= 8,
            forall|j: int| 0 <= j < 8 ==> (#[trigger] list@[j]).0@ == core_name(j) && list@[j].1 == core_area(*layout, j),
            static_area_view(ks.sets) == core_map_upto(*layout, i as nat),
            ks.kern_table.table == root,
            ks.dyn_memorys.table.root_ppn.0 == 0,
            areas(ks.dyn_memorys).dom() == Set::<Seq<char>>::empty(),
            ks.stack_ids.max_id == 0,
            ks.stack_ids.avalible@ == Seq::<usize>::empty(),
        decreases 8 - i,
    {
        let name = list[i].0.clone();
        let a = list[i].1;
        ks.add_core_map(name, a);
        i = i + 1;
    }
    ks.init_dynamic_mem(alloc, m, strap_addr);
    proof {
        assert(areas(ks.dyn_memorys).dom() =~= set!["trap_text"@]);
        assert(ks.stack_ids.avalible@ =~= seq![3usize, 2, 1, 0]);
    }
    ks
}

/// Takes the next stack id and maps that kernel stack as
/// `add_kernel_stack` does. `None` where the mapping stops.
pub fn alloc_kernel_stack(ks: &mut KernelMemorySets, alloc: &mut StackFrameAllocator, m: &mut PhysMemory) -> (r: Option<KernelStack>)
    requires
        old(ks).stack_ids.can_alloc(),
        12288 * (old(ks).stack_ids.next_id() + 1) <= 0x4000_0000,
        alloc_ok(*old(alloc), *old(m)),
        table_ok(*old(m), old(ks).dyn_memorys.table.root_ppn.0, old(alloc).free_frames()),
    ensures
        alloc_post(old(ks).stack_ids, final(ks).stack_ids, old(ks).stack_ids.next_id()),
        r.is_some() ==> r.unwrap().stack_id == old(ks).stack_ids.next_id(),
        r.is_some() ==> user_area_added(
            old(ks).dyn_memorys,
            final(ks).dyn_memorys,
            *old(alloc),
            *final(alloc),
            *old(m),
            *final(m),
            decimal(old(ks).stack_ids.next_id() as nat),
            kernel_stack_area(old(ks).stack_ids.next_id()),
        ),
{
    let stack = ks.stack_ids.alloc_avaliabe_id();
    if ks.add_kernel_stack(alloc, m, stack) {
        Some(KernelStack { stack_id: stack })
    } else {
        None
    }
}

/// Gives stack `stack_id` back: its id returns to the store and the stack
/// is taken out as `remove_kernel_stack` does.
pub fn remove_stack(ks: &mut KernelMemorySets, alloc: &mut StackFrameAllocator, m: &mut PhysMemory, stack_id: usize) -> (r: bool)
    requires
        alloc_ok(*old(alloc), *old(m)),
        table_ok(*old(m), old(ks).dyn_memorys.table.root_ppn.0, old(alloc).free_frames()),
    ensures
        final(ks).stack_ids.avalible@ == old(ks).stack_ids.avalible@.push(stack_id),
        final(ks).stack_ids.max_id == old(ks).stack_ids.max_id,
        user_unmap_post(
            old(ks).dyn_memorys,
            final(ks).dyn_memorys,
            *old(alloc),
            *final(alloc),
            *old(m),
            *final(m),
            decimal(stack_id as nat),
            r,
        ),
{
    ks.stack_ids.recycle(stack_id);
    ks.remove_kernel_stack(alloc, m, stack_id)
}

} // verus!
