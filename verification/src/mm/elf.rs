//! What the kernel reads of an ELF file, parsed by `xmas_elf`: the entry
//! point and the program headers.
use vstd::prelude::*;
use xmas_elf::ElfFile;
use xmas_elf::program::Type;

verus! {

/// What a program header's type says of its segment.
#[derive(Copy, Clone, PartialEq, Eq, Structural)]
pub enum SegmentKind {
    /// to be loaded
    Load,
    /// any other known type
    Other,
    /// a type the format does not know
    Unknown,
}

/// A program header: its type, where its segment goes and how big it is
/// in memory, its permissions, and where its bytes lie in the file.
#[derive(Copy, Clone, PartialEq, Eq, Structural)]
pub struct ElfSegment {
    pub kind: SegmentKind,
    pub vaddr: u64,
    pub mem_size: u64,
    pub readable: bool,
    pub writable: bool,
    pub executable: bool,
    pub offset: u64,
    pub file_size: u64,
}

/// A parsed ELF file: its entry point and its program headers, in order.
pub struct ElfImage {
    pub entry: u64,
    pub segments: Vec<ElfSegment>,
}

/// The entry point and number of program headers of the ELF file `data`,
/// as `xmas_elf` reads its header, or `None` where it finds no ELF header.
pub uninterp spec fn elf_header_of(data: Seq<u8>) -> Option<(u64, u16)>;

/// Program header `i` of the ELF file `data`, as `xmas_elf` reads it, or
/// `None` where it has no such header.
pub uninterp spec fn elf_segment_of(data: Seq<u8>, i: u16) -> Option<ElfSegment>;

/// `xmas_elf::ElfFile::new`, with the entry point and the number of program
/// headers read out of the header it parsed; `None` where it refuses the
/// bytes. The contract names the result, a function of the bytes alone.
/// `xmas_elf` reads the header in place and wants it at an address aligned
/// for 64-bit fields, so the bytes are first copied to such an address.
#[verifier::external_body]
fn parse_elf_header(data: &[u8]) -> (r: Option<(u64, u16)>)
    ensures
        r == elf_header_of(data@),
{
    let mut buf = vec![0u8; data.len() + 8];
    let k = buf.as_ptr().align_offset(8);
    let b = &mut buf[k..][..data.len()];
    b.copy_from_slice(data);
    match ElfFile::new(b) {
        Ok(elf) => Some((elf.header.pt2.entry_point(), elf.header.pt2.ph_count())),
        Err(_) => None,
    }
}

/// The little-endian number in the `n` bytes of `d` from `o` on.
pub open spec fn le_bytes(d: Seq<u8>, o: int, n: nat) -> nat
    decreases n,
{
    if n == 0 {
        0
    } else {
        d[o] as nat + 256 * le_bytes(d, o + 1, (n - 1) as nat)
    }
}

/// Program header `i` of `data` lies inside `data`, at an offset aligned
/// for its fields, and its entries are large enough for the header
/// format: the conditions under which `xmas_elf` reads it without
/// stopping. The class byte says which format the header has (2: 64-bit,
/// 1: 32-bit).
pub open spec fn ph_fits(d: Seq<u8>, i: u16) -> bool {
    d.len() >= 64 && if d[4] == 2 {
        let off = le_bytes(d, 32, 8);
        let ent = le_bytes(d, 54, 2);
        ent >= 56 && off % 8 == 0 && ent % 8 == 0 && off + (i + 1) * ent <= d.len()
    } else if d[4] == 1 {
        let off = le_bytes(d, 28, 4);
        let ent = le_bytes(d, 42, 2);
        ent >= 32 && off % 4 == 0 && ent % 4 == 0 && off + (i + 1) * ent <= d.len()
    } else {
        false
    }
}

/// `xmas_elf::ElfFile::program_header`, on the file that
/// `xmas_elf::ElfFile::new` parses from `data`, with the header's fields
/// read out; `None` where either refuses. The contract names the result,
/// a function of the bytes and the index alone. `requires` leaves out the
/// headers that would be read past the end of `data` or misaligned within
/// it, on which `xmas_elf` stops. `xmas_elf` reads in place and wants the
/// file at an address aligned for 64-bit fields, so the bytes are first
/// copied to such an address.
#[verifier::external_body]
fn parse_program_header(data: &[u8], i: u16) -> (r: Option<ElfSegment>)
    requires
        ph_fits(data@, i),
    ensures
        r == elf_segment_of(data@, i),
{
    let mut buf = vec![0u8; data.len() + 8];
    let k = buf.as_ptr().align_offset(8);
    let b = &mut buf[k..][..data.len()];
    b.copy_from_slice(data);
    let ph = ElfFile::new(b).ok()?.program_header(i).ok()?;
    let kind = match ph.get_type() {
        Ok(Type::Load) => SegmentKind::Load,
        Ok(_) => SegmentKind::Other,
        Err(_) => SegmentKind::Unknown };
    let f = ph.flags();
    Some(ElfSegment {
        kind, vaddr: ph.virtual_addr(), mem_size: ph.mem_size(), readable: f.is_read(), writable: f.is_write(),
        executable: f.is_execute(), offset: ph.offset(), file_size: ph.file_size() })
}

/// The program headers `0..n` of `data`, when all of them lie inside it
/// and can be read and have a known type.
pub open spec fn segments_ok(data: Seq<u8>, n: u16) -> bool {
    forall|i: u16| #![trigger elf_segment_of(data, i)]
        i < n ==> ph_fits(data, i) && elf_segment_of(data, i) is Some && elf_segment_of(data, i).unwrap().kind
            != SegmentKind::Unknown
}

/// Whether program header `i` of `d` fits, as `ph_fits` says.
fn ph_fits_exec(d: &[u8], i: u16) -> (r: bool)
    ensures
        r == ph_fits(d@, i),
{
    if d.len() < 64 {
        return false;
    }
    proof {
        reveal_with_fuel(le_bytes, 9);
    }
    let n: u128 = d.len() as u128;
    let k: u128 = i as u128 + 1;
    if d[4] == 2 {
        let off: u128 = d[32] as u128 + 0x100 * (d[33] as u128) + 0x1_0000 * (d[34] as u128) + 0x100_0000 * (
        d[35] as u128) + 0x1_0000_0000 * (d[36] as u128) + 0x100_0000_0000 * (d[37] as u128) + 0x1_0000_0000_0000 * (
        d[38] as u128) + 0x100_0000_0000_0000 * (d[39] as u128);
        let ent: u128 = d[54] as u128 + 0x100 * (d[55] as u128);
        assert(k * ent <= 0x1_0000 * 0xFFFF) by (nonlinear_arith)
            requires
                k <= 0x1_0000,
                ent <= 0xFFFF,
        ;
        ent >= 56 && off % 8 == 0 && ent % 8 == 0 && off + k * ent <= n
    } else if d[4] == 1 {
        let off: u128 = d[28] as u128 + 0x100 * (d[29] as u128) + 0x1_0000 * (d[30] as u128) + 0x100_0000 * (
        d[31] as u128);
        let ent: u128 = d[42] as u128 + 0x100 * (d[43] as u128);
        assert(k * ent <= 0x1_0000 * 0xFFFF) by (nonlinear_arith)
            requires
                k <= 0x1_0000,
                ent <= 0xFFFF,
        ;
        ent >= 32 && off % 4 == 0 && ent % 4 == 0 && off + k * ent <= n
    } else {
        false
    }
}

/// Parses the ELF file `data`: its entry point and program headers. `None`
/// where it has no ELF header, or a program header cannot be read or has a
/// type the format does not know.
pub fn parse_elf(data: &[u8]) -> (r: Option<ElfImage>)
    ensures
        match elf_header_of(data@) {
            None => r is None,
            Some(h) => if segments_ok(data@, h.1) {
                &&& r is Some
                &&& r.unwrap().entry == h.0
                &&& r.unwrap().segments@.len() == h.1
                &&& forall|i: int|
                    0 <= i < h.1 ==> #[trigger] r.unwrap().segments@[i] == elf_segment_of(data@, i as u16).unwrap()
            } else {
                r is None
            },
        },
{
    let h = parse_elf_header(data);
    match h {
        None => None,
        Some((entry, count)) => {
            let mut segments: Vec<ElfSegment> = Vec::new();
            let mut i: u16 = 0;
            while i < count
                invariant
                    i <= count,
                    h == Some((entry, count)),
                    h == elf_header_of(data@),
                    segments@.len() == i,
                    forall|j: int| 0 <= j < i ==> #[trigger] segments@[j] == elf_segment_of(data@, j as u16).unwrap(),
                    forall|j: u16| #![trigger elf_segment_of(data@, j)]
                        j < i ==> ph_fits(data@, j) && elf_segment_of(data@, j) is Some && elf_segment_of(
                            data@,
                            j,
                        ).unwrap().kind != SegmentKind::Unknown,
                decreases count - i,
            {
                if !ph_fits_exec(data, i) {
                    proof {
                        assert(!segments_ok(data@, count));
                    }
                    return None;
                }
                match parse_program_header(data, i) {
                    Some(seg) => {
                        if seg.kind == SegmentKind::Unknown {
                            proof {
                                assert(elf_segment_of(data@, i).unwrap().kind == SegmentKind::Unknown);
                                assert(!segments_ok(data@, count));
                            assert(elf_header_of(data@) == Some((entry, count)));
                                assert(elf_header_of(data@) == Some((entry, count)));
                            }
                            return None;
                        }
                        segments.push(seg);
                    },
                    None => {
                        proof {
                            assert(elf_segment_of(data@, i) is None);
                            assert(!segments_ok(data@, count));
                            assert(elf_header_of(data@) == Some((entry, count)));
                        }
                        return None;
                    },
                }
                i = i + 1;
            }
            Some(ElfImage { entry, segments })
        },
    }
}

} // verus!
