//! Sv39 physical and virtual addresses, page numbers, and the rounding
//! helpers that the memory manager uses.
use vstd::prelude::*;

verus! {

/// Mask of the 56 bits of a Sv39 physical address.
pub const SV39_PA_MASKS: u64 = 0x00FF_FFFF_FFFF_FFFF;
/// Mask of the 39 bits of a Sv39 virtual address.
pub const SV39_VA_MASKS: u64 = 0x0000_007F_FFFF_FFFF;
/// Mask of one 9-bit level index of a virtual page number.
pub const SV39_VA_PN_MASK: u64 = 0x1FF;
/// Width of one level index of a virtual page number.
pub const SV39_VA_PN_WIDTH_BITS: u64 = 9;
/// Mask of the 44 bits of a physical page number.
pub const SV39_PPN_MASKS: u64 = 0x0000_0FFF_FFFF_FFFF;
/// Mask of the 27 bits of a virtual page number.
pub const SV39_VPN_MASKS: u64 = 0x0000_0000_07FF_FFFF;
/// Largest machine word (the kernel runs on a 64-bit machine).
pub const USIZE_MAX: u64 = 0xFFFF_FFFF_FFFF_FFFF;
/// Clears the offset inside a 4 KiB page.
pub const ALIGN_4K_MASK: u64 = 0xFFFF_FFFF_FFFF_F000;
/// The offset bits inside a 4 KiB page.
pub const ALIGN_4K_LOWER_MASK: u64 = 0xFFF;
/// Clears the offset inside a 2 MiB block.
pub const ALIGN_2M_MASK: u64 = 0xFFFF_FFFF_FFE0_0000;
/// The offset bits inside a 2 MiB block.
pub const ALIGN_2M_LOWER_MASK: u64 = 0x1F_FFFF;
/// Clears the offset inside a 1 GiB block.
pub const ALIGN_1G_MASK: u64 = 0xFFFF_FFFF_C000_0000;
/// The offset bits inside a 1 GiB block.
pub const ALIGN_1G_LOWER_MASK: u64 = 0x3FFF_FFFF;

/// Size of a 4 KiB page.
pub open spec fn size_4k() -> nat {
    4096
}

/// Size of a 2 MiB block.
pub open spec fn size_2m() -> nat {
    0x20_0000
}

/// Size of a 1 GiB block.
pub open spec fn size_1g() -> nat {
    0x4000_0000
}

/// The largest multiple of `size` that is at most `addr`.
pub open spec fn align_down(addr: nat, size: nat) -> nat {
    (addr - addr % size) as nat
}

/// The smallest multiple of `size` that is at least `addr`.
pub open spec fn align_up(addr: nat, size: nat) -> nat {
    align_down((addr + size - 1) as nat, size)
}

/// A physical address.
#[derive(Copy, Clone, PartialEq, Eq, Structural, PartialOrd, Ord)]
pub struct PhysAddr(pub u64);

/// A virtual address.
#[derive(Copy, Clone, PartialEq, Eq, Structural, PartialOrd, Ord)]
pub struct VirtualAddr(pub u64);

/// A physical page number.
#[derive(Copy, Clone, PartialEq, Eq, Structural, PartialOrd, Ord)]
pub struct PhysPageNum(pub u64);

/// A virtual page number.
#[derive(Copy, Clone, PartialEq, Eq, Structural, PartialOrd, Ord, Hash)]
pub struct VirtPageNum(pub u64);

impl From<u64> for PhysAddr {
    /// Keeps the 56 address bits of `v`.
    fn from(v: u64) -> (r: Self) {
        PhysAddr(v & SV39_PA_MASKS)
    }
}

impl vstd::std_specs::convert::FromSpecImpl<u64> for PhysAddr {
    open spec fn obeys_from_spec() -> bool {
        true
    }

    open spec fn from_spec(v: u64) -> Self {
        PhysAddr(v & 0x00FF_FFFF_FFFF_FFFF)
    }
}

impl From<PhysAddr> for u64 {
    fn from(value: PhysAddr) -> (r: Self) {
        value.0
    }
}

impl vstd::std_specs::convert::FromSpecImpl<PhysAddr> for u64 {
    open spec fn obeys_from_spec() -> bool {
        true
    }

    open spec fn from_spec(v: PhysAddr) -> Self {
        v.0
    }
}

impl From<u64> for VirtualAddr {
    /// Keeps the 39 address bits of `value`.
    fn from(value: u64) -> (r: Self) {
        VirtualAddr(value & SV39_VA_MASKS)
    }
}

impl vstd::std_specs::convert::FromSpecImpl<u64> for VirtualAddr {
    open spec fn obeys_from_spec() -> bool {
        true
    }

    open spec fn from_spec(v: u64) -> Self {
        VirtualAddr(v & 0x0000_007F_FFFF_FFFF)
    }
}

/// The 64-bit form of a 39-bit virtual address: bit 38 is copied into the
/// upper bits.
pub open spec fn sign_extend_va(v: u64) -> u64 {
    if v >= 0x40_0000_0000 {
        v | 0xFFFF_FF80_0000_0000
    } else {
        v
    }
}

impl From<VirtualAddr> for u64 {
    fn from(value: VirtualAddr) -> (r: Self) {
        if value.0 >= 0x40_0000_0000u64 {
            value.0 | 0xFFFF_FF80_0000_0000u64
        } else {
            value.0
        }
    }
}

impl vstd::std_specs::convert::FromSpecImpl<VirtualAddr> for u64 {
    open spec fn obeys_from_spec() -> bool {
        true
    }

    open spec fn from_spec(v: VirtualAddr) -> Self {
        sign_extend_va(v.0)
    }
}

impl From<u64> for PhysPageNum {
    /// Keeps the 44 page-number bits of `value`.
    fn from(value: u64) -> (r: Self) {
        PhysPageNum(value & SV39_PPN_MASKS)
    }
}

impl vstd::std_specs::convert::FromSpecImpl<u64> for PhysPageNum {
    open spec fn obeys_from_spec() -> bool {
        true
    }

    open spec fn from_spec(v: u64) -> Self {
        PhysPageNum(v & 0x0000_0FFF_FFFF_FFFF)
    }
}

impl From<PhysPageNum> for u64 {
    fn from(value: PhysPageNum) -> (r: Self) {
        value.0
    }
}

impl vstd::std_specs::convert::FromSpecImpl<PhysPageNum> for u64 {
    open spec fn obeys_from_spec() -> bool {
        true
    }

    open spec fn from_spec(v: PhysPageNum) -> Self {
        v.0
    }
}

impl From<u64> for VirtPageNum {
    /// Keeps the 27 page-number bits of `value`.
    fn from(value: u64) -> (r: Self) {
        VirtPageNum(value & SV39_VPN_MASKS)
    }
}

impl vstd::std_specs::convert::FromSpecImpl<u64> for VirtPageNum {
    open spec fn obeys_from_spec() -> bool {
        true
    }

    open spec fn from_spec(v: u64) -> Self {
        VirtPageNum(v & 0x0000_0000_07FF_FFFF)
    }
}

impl From<VirtPageNum> for u64 {
    fn from(value: VirtPageNum) -> (r: Self) {
        value.0
    }
}

impl vstd::std_specs::convert::FromSpecImpl<VirtPageNum> for u64 {
    open spec fn obeys_from_spec() -> bool {
        true
    }

    open spec fn from_spec(v: VirtPageNum) -> Self {
        v.0
    }
}

impl From<PhysAddr> for PhysPageNum {
    /// The page that holds `value`.
    fn from(value: PhysAddr) -> (r: Self) {
        PhysPageNum(value.0 >> 12u64)
    }
}

impl vstd::std_specs::convert::FromSpecImpl<PhysAddr> for PhysPageNum {
    open spec fn obeys_from_spec() -> bool {
        true
    }

    open spec fn from_spec(v: PhysAddr) -> Self {
        PhysPageNum(v.0 >> 12u64)
    }
}

impl From<PhysPageNum> for PhysAddr {
    /// The first address of page `value`.
    fn from(value: PhysPageNum) -> (r: Self) {
        PhysAddr(value.0 << 12u64)
    }
}

impl vstd::std_specs::convert::FromSpecImpl<PhysPageNum> for PhysAddr {
    open spec fn obeys_from_spec() -> bool {
        true
    }

    open spec fn from_spec(v: PhysPageNum) -> Self {
        PhysAddr(v.0 << 12u64)
    }
}

impl From<VirtualAddr> for VirtPageNum {
    /// The page that holds `value`.
    fn from(value: VirtualAddr) -> (r: Self) {
        VirtPageNum(value.0 >> 12u64)
    }
}

impl vstd::std_specs::convert::FromSpecImpl<VirtualAddr> for VirtPageNum {
    open spec fn obeys_from_spec() -> bool {
        true
    }

    open spec fn from_spec(v: VirtualAddr) -> Self {
        VirtPageNum(v.0 >> 12u64)
    }
}

impl From<VirtPageNum> for VirtualAddr {
    /// The first address of page `value`.
    fn from(value: VirtPageNum) -> (r: Self) {
        VirtualAddr(value.0 << 12u64)
    }
}

impl vstd::std_specs::convert::FromSpecImpl<VirtPageNum> for VirtualAddr {
    open spec fn obeys_from_spec() -> bool {
        true
    }

    open spec fn from_spec(v: VirtPageNum) -> Self {
        VirtualAddr(v.0 << 12u64)
    }
}

/// The shift by a page width, as plain arithmetic, for the numbers that the
/// kernel uses.
pub proof fn lemma_page_shift(n: u64)
    requires
        n < 0x10_0000_0000_0000,
    ensures
        n << 12u64 == n * 4096,
        (n << 12u64) >> 12u64 == n,
        (n << 12u64) % 4096 == 0,
{
    assert(n < 0x10_0000_0000_0000 ==> n << 12u64 == n * 4096) by (bit_vector);
    assert(n < 0x10_0000_0000_0000 ==> (n << 12u64) >> 12u64 == n) by (bit_vector);
    assert((n << 12u64) % 4096 == 0) by (bit_vector);
}

/// Dividing by the page size is the shift by the page width.
pub proof fn lemma_page_unshift(a: u64)
    ensures
        a >> 12u64 == a / 4096,
{
    assert(a >> 12u64 == a / 4096) by (bit_vector);
}

/// Masks keep numbers below their width and leave smaller numbers unchanged.
pub proof fn lemma_masks(v: u64)
    ensures
        v & 0x00FF_FFFF_FFFF_FFFF == v % 0x100_0000_0000_0000,
        v & 0x0000_007F_FFFF_FFFF == v % 0x80_0000_0000,
        v & 0x0000_0FFF_FFFF_FFFF == v % 0x1000_0000_0000,
        v & 0x0000_0000_07FF_FFFF == v % 0x800_0000,
{
    assert(v & 0x00FF_FFFF_FFFF_FFFF == v % 0x100_0000_0000_0000) by (bit_vector);
    assert(v & 0x0000_007F_FFFF_FFFF == v % 0x80_0000_0000) by (bit_vector);
    assert(v & 0x0000_0FFF_FFFF_FFFF == v % 0x1000_0000_0000) by (bit_vector);
    assert(v & 0x0000_0000_07FF_FFFF == v % 0x800_0000) by (bit_vector);
}

/// Rounds `addr` down to a 4 KiB boundary.
pub fn round_down_in_4k(addr: u64) -> (r: u64)
    ensures
        r == align_down(addr as nat, size_4k()),
        r % 4096 == 0,
        r <= addr < r + 4096,
{
    assert(addr & 0xFFFF_FFFF_FFFF_F000 == addr - addr % 4096) by (bit_vector);
    addr & ALIGN_4K_MASK
}

/// Rounds `addr` up to a 4 KiB boundary.
pub fn round_up_in_4k(addr: u64) -> (r: u64)
    requires
        addr + 0xFFF <= USIZE_MAX,
    ensures
        r == align_up(addr as nat, size_4k()),
        r % 4096 == 0,
        addr <= r < addr + 4096,
{
    let a: u64 = addr + ALIGN_4K_LOWER_MASK;
    assert(a & 0xFFFF_FFFF_FFFF_F000 == a - a % 4096) by (bit_vector);
    a & ALIGN_4K_MASK
}

/// Rounds `addr` down to a 2 MiB boundary.
pub fn round_down_in_2m(addr: u64) -> (r: u64)
    ensures
        r == align_down(addr as nat, size_2m()),
        r % 0x20_0000 == 0,
        r <= addr < r + 0x20_0000,
{
    assert(addr & 0xFFFF_FFFF_FFE0_0000 == addr - addr % 0x20_0000) by (bit_vector);
    addr & ALIGN_2M_MASK
}

/// Rounds `addr` up to a 2 MiB boundary.
pub fn round_up_in_2m(addr: u64) -> (r: u64)
    requires
        addr + 0x1F_FFFF <= USIZE_MAX,
    ensures
        r == align_up(addr as nat, size_2m()),
        r % 0x20_0000 == 0,
        addr <= r < addr + 0x20_0000,
{
    let a: u64 = addr + ALIGN_2M_LOWER_MASK;
    assert(a & 0xFFFF_FFFF_FFE0_0000 == a - a % 0x20_0000) by (bit_vector);
    a & ALIGN_2M_MASK
}

/// Rounds `addr` down to a 1 GiB boundary.
pub fn round_down_in_1g(addr: u64) -> (r: u64)
    ensures
        r == align_down(addr as nat, size_1g()),
        r % 0x4000_0000 == 0,
        r <= addr < r + 0x4000_0000,
{
    assert(addr & 0xFFFF_FFFF_C000_0000 == addr - addr % 0x4000_0000) by (bit_vector);
    addr & ALIGN_1G_MASK
}

/// Rounds `addr` up to a 1 GiB boundary.
pub fn round_up_in_1g(addr: u64) -> (r: u64)
    requires
        addr + 0x3FFF_FFFF <= USIZE_MAX,
    ensures
        r == align_up(addr as nat, size_1g()),
        r % 0x4000_0000 == 0,
        addr <= r < addr + 0x4000_0000,
{
    let a: u64 = addr + ALIGN_1G_LOWER_MASK;
    assert(a & 0xFFFF_FFFF_C000_0000 == a - a % 0x4000_0000) by (bit_vector);
    a & ALIGN_1G_MASK
}

/// The offset of `addr` inside its 4 KiB page.
pub open spec fn page_offset_of(addr: u64) -> nat {
    (addr % 4096) as nat
}

fn offset_in_page(addr: u64) -> (r: u64)
    ensures
        r == addr % 4096,
{
    assert(addr & 0xFFF == addr % 4096) by (bit_vector);
    addr & (ALIGN_4K_LOWER_MASK)
}

impl PhysAddr {
    /// This address rounded down to a 4 KiB boundary.
    pub fn round_down_in_4k(&self) -> (r: PhysAddr)
        ensures
            r.0 == align_down(self.0 as nat, size_4k()),
    {
        PhysAddr(round_down_in_4k(self.0))
    }

    /// This address rounded down to a 2 MiB boundary.
    pub fn round_down_in_2m(&self) -> (r: PhysAddr)
        ensures
            r.0 == align_down(self.0 as nat, size_2m()),
    {
        PhysAddr(round_down_in_2m(self.0))
    }

    /// This address rounded down to a 1 GiB boundary.
    pub fn round_down_in_1g(&self) -> (r: PhysAddr)
        ensures
            r.0 == align_down(self.0 as nat, size_1g()),
    {
        PhysAddr(round_down_in_1g(self.0))
    }

    /// This address rounded up to a 4 KiB boundary.
    pub fn round_up_in_4k(&self) -> (r: PhysAddr)
        requires
            self.0 + 0xFFF <= USIZE_MAX,
        ensures
            r.0 == align_up(self.0 as nat, size_4k()),
    {
        PhysAddr(round_up_in_4k(self.0))
    }

    /// This address rounded up to a 2 MiB boundary.
    pub fn round_up_in_2m(&self) -> (r: PhysAddr)
        requires
            self.0 + 0x1F_FFFF <= USIZE_MAX,
        ensures
            r.0 == align_up(self.0 as nat, size_2m()),
    {
        PhysAddr(round_up_in_2m(self.0))
    }

    /// This address rounded up to a 1 GiB boundary.
    pub fn round_up_in_1g(&self) -> (r: PhysAddr)
        requires
            self.0 + 0x3FFF_FFFF <= USIZE_MAX,
        ensures
            r.0 == align_up(self.0 as nat, size_1g()),
    {
        PhysAddr(round_up_in_1g(self.0))
    }

    /// The offset of this address inside its 4 KiB page.
    pub fn page_offset(&self) -> (r: u64)
        ensures
            r == page_offset_of(self.0),
    {
        offset_in_page(self.0)
    }

    /// Whether this address is 4 KiB aligned.
    pub fn is_aligned(&self) -> (r: bool)
        ensures
            r == (self.0 % 4096 == 0),
    {
        self.page_offset() == 0
    }
}

impl VirtualAddr {
    /// This address rounded down to a 4 KiB boundary.
    pub fn round_down_in_4k(&self) -> (r: VirtualAddr)
        ensures
            r.0 == align_down(self.0 as nat, size_4k()),
    {
        VirtualAddr(round_down_in_4k(self.0))
    }

    /// This address rounded down to a 2 MiB boundary.
    pub fn round_down_in_2m(&self) -> (r: VirtualAddr)
        ensures
            r.0 == align_down(self.0 as nat, size_2m()),
    {
        VirtualAddr(round_down_in_2m(self.0))
    }

    /// This address rounded down to a 1 GiB boundary.
    pub fn round_down_in_1g(&self) -> (r: VirtualAddr)
        ensures
            r.0 == align_down(self.0 as nat, size_1g()),
    {
        VirtualAddr(round_down_in_1g(self.0))
    }

    /// This address rounded up to a 4 KiB boundary.
    pub fn round_up_in_4k(&self) -> (r: VirtualAddr)
        requires
            self.0 + 0xFFF <= USIZE_MAX,
        ensures
            r.0 == align_up(self.0 as nat, size_4k()),
    {
        VirtualAddr(round_up_in_4k(self.0))
    }

    /// This address rounded up to a 2 MiB boundary.
    pub fn round_up_in_2m(&self) -> (r: VirtualAddr)
        requires
            self.0 + 0x1F_FFFF <= USIZE_MAX,
        ensures
            r.0 == align_up(self.0 as nat, size_2m()),
    {
        VirtualAddr(round_up_in_2m(self.0))
    }

    /// This address rounded up to a 1 GiB boundary.
    pub fn round_up_in_1g(&self) -> (r: VirtualAddr)
        requires
            self.0 + 0x3FFF_FFFF <= USIZE_MAX,
        ensures
            r.0 == align_up(self.0 as nat, size_1g()),
    {
        VirtualAddr(round_up_in_1g(self.0))
    }

    /// The offset of this address inside its 4 KiB page.
    pub fn page_offset(&self) -> (r: u64)
        ensures
            r == page_offset_of(self.0),
    {
        offset_in_page(self.0)
    }

    /// Whether this address is 4 KiB aligned.
    pub fn is_aligned(&self) -> (r: bool)
        ensures
            r == (self.0 % 4096 == 0),
    {
        self.page_offset() == 0
    }
}

/// The index into the level-`level` table (0 is the leaf level) that a
/// virtual page number selects.
pub open spec fn vpn_index(vpn: u64, level: nat) -> u64 {
    if level == 0 {
        vpn & 0x1FF
    } else if level == 1 {
        (vpn >> 9u64) & 0x1FF
    } else {
        (vpn >> 18u64) & 0x1FF
    }
}

impl VirtPageNum {
    /// The three table indices of this page number, leaf level first.
    pub fn get_table_indexs(&self) -> (r: [u64; 3])
        ensures
            r[0] == vpn_index(self.0, 0),
            r[1] == vpn_index(self.0, 1),
            r[2] == vpn_index(self.0, 2),
            r[0] < 512 && r[1] < 512 && r[2] < 512,
            r[0] == self.0 % 512,
            r[1] == (self.0 / 512) % 512,
            r[2] == (self.0 / 0x4_0000) % 512,
    {
        let vpn: u64 = self.0;
        proof {
            assert(vpn & 0x1FF < 512 && (vpn >> 9u64) & 0x1FF < 512 && (vpn >> 18u64) & 0x1FF
                < 512) by (bit_vector);
            assert(vpn & 0x1FF == vpn % 512) by (bit_vector);
            assert((vpn >> 9u64) & 0x1FF == (vpn / 512) % 512) by (bit_vector);
            assert((vpn >> 18u64) & 0x1FF == (vpn / 0x4_0000) % 512) by (bit_vector);
        }
        [
            vpn & SV39_VA_PN_MASK,
            (vpn >> SV39_VA_PN_WIDTH_BITS) & SV39_VA_PN_MASK,
            (vpn >> 18u64) & SV39_VA_PN_MASK,
        ]
    }
}

/// Something that can be moved on by one.
pub trait StepByOne: Sized {
    /// The number that `step` increments.
    spec fn step_value(&self) -> nat;

    /// Adds one.
    fn step(&mut self)
        requires
            old(self).step_value() < USIZE_MAX,
        ensures
            final(self).step_value() == old(self).step_value() + 1,
    ;
}

impl StepByOne for VirtPageNum {
    open spec fn step_value(&self) -> nat {
        self.0 as nat
    }

    fn step(&mut self) {
        self.0 = self.0 + 1;
    }
}

impl StepByOne for PhysPageNum {
    open spec fn step_value(&self) -> nat {
        self.0 as nat
    }

    fn step(&mut self) {
        self.0 = self.0 + 1;
    }
}

} // verus!
