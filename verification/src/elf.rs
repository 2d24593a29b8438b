//! Minimal ELF64 header reading: the magic number, the entry point, and
//! the program-header table, from which the loadable segments are taken.
//! All fields are little-endian integers at fixed offsets.
use vstd::prelude::*;

verus! {

/// Value of a 2-byte little-endian integer at `off`.
pub open spec fn spec_le16(s: Seq<u8>, off: int) -> int {
    s[off] + s[off + 1] * 0x100
}

/// Value of a 4-byte little-endian integer at `off`.
pub open spec fn spec_le32(s: Seq<u8>, off: int) -> int {
    s[off] + s[off + 1] * 0x100 + s[off + 2] * 0x1_0000 + s[off + 3] * 0x100_0000
}

/// Value of an 8-byte little-endian integer at `off`.
pub open spec fn spec_le64(s: Seq<u8>, off: int) -> int {
    s[off] + s[off + 1] * 0x100 + s[off + 2] * 0x1_0000 + s[off + 3] * 0x100_0000 + s[off + 4]
        * 0x1_0000_0000 + s[off + 5] * 0x100_0000_0000 + s[off + 6] * 0x1_0000_0000_0000 + s[off
        + 7] * 0x100_0000_0000_0000
}

/// The four ELF magic bytes are present.
pub open spec fn spec_elf_magic_ok(s: Seq<u8>) -> bool {
    s.len() >= 4 && s[0] == 0x7fu8 && s[1] == 0x45u8 && s[2] == 0x4cu8 && s[3] == 0x46u8
}

/// Entry-point field of the ELF64 header.
pub open spec fn spec_elf_entry(s: Seq<u8>) -> int {
    spec_le64(s, 24)
}

/// File offset of the program-header table.
pub open spec fn spec_elf_phoff(s: Seq<u8>) -> int {
    spec_le64(s, 32)
}

/// Size of one program-header entry.
pub open spec fn spec_elf_phentsize(s: Seq<u8>) -> int {
    spec_le16(s, 54)
}

/// Number of program headers.
pub open spec fn spec_elf_phnum(s: Seq<u8>) -> int {
    spec_le16(s, 56)
}

/// The ELF64 header is present and the whole program-header table lies
/// inside the file.
pub open spec fn spec_elf_header_ok(s: Seq<u8>) -> bool {
    &&& s.len() >= 64
    &&& spec_elf_phentsize(s) >= 56
    &&& spec_elf_phoff(s) <= s.len()
    &&& spec_elf_phoff(s) + spec_elf_phnum(s) * spec_elf_phentsize(s) <= s.len()
}

/// File offset of program header `i`.
pub open spec fn spec_ph_off(s: Seq<u8>, i: int) -> int {
    spec_elf_phoff(s) + i * spec_elf_phentsize(s)
}

/// One loadable segment as its program header declares it.
#[derive(Copy, Clone, PartialEq, Eq, Structural, Debug)]
pub struct Segment {
    pub vaddr: u64,
    pub mem_size: u64,
    pub offset: u64,
    pub file_size: u64,
    pub flags: u64,
}

/// The segment declared by program header `i`.
pub open spec fn spec_segment_of(s: Seq<u8>, i: int) -> Segment {
    Segment {
        vaddr: spec_le64(s, spec_ph_off(s, i) + 16) as u64,
        mem_size: spec_le64(s, spec_ph_off(s, i) + 40) as u64,
        offset: spec_le64(s, spec_ph_off(s, i) + 8) as u64,
        file_size: spec_le64(s, spec_ph_off(s, i) + 32) as u64,
        flags: spec_le32(s, spec_ph_off(s, i) + 4) as u64,
    }
}

/// The loadable segments among the first `n` program headers, in file
/// order: those whose type field is 1.
pub open spec fn spec_load_segs(s: Seq<u8>, n: int) -> Seq<Segment>
    decreases n,
{
    if n <= 0 {
        Seq::empty()
    } else {
        let rest = spec_load_segs(s, n - 1);
        if spec_le32(s, spec_ph_off(s, n - 1)) == 1 {
            rest.push(spec_segment_of(s, n - 1))
        } else {
            rest
        }
    }
}

/// What the parser extracts from an image: the entry point and the
/// loadable segments.
pub struct ElfInfo {
    pub entry: u64,
    pub segs: Vec<Segment>,
}

#[derive(Copy, Clone, PartialEq, Eq, Structural, Debug)]
pub enum ElfError {
    /// The four magic bytes are wrong or missing.
    InvalidMagic,
    /// The header or the program-header table reaches past the end of the
    /// image.
    Truncated,
    /// A loadable segment's declared sizes or placement are impossible.
    BadSegment,
    /// The frame allocator ran out of frames while building the space.
    FrameExhausted,
}

fn read_u16(data: &[u8], off: usize) -> (r: u16)
    requires
        off + 2 <= data@.len(),
    ensures
        r == spec_le16(data@, off as int),
{
    data[off] as u16 + (data[off + 1] as u16) * 0x100
}

fn read_u32(data: &[u8], off: usize) -> (r: u32)
    requires
        off + 4 <= data@.len(),
    ensures
        r == spec_le32(data@, off as int),
{
    data[off] as u32 + (data[off + 1] as u32) * 0x100 + (data[off + 2] as u32) * 0x1_0000 + (
    data[off + 3] as u32) * 0x100_0000
}

fn read_u64(data: &[u8], off: usize) -> (r: u64)
    requires
        off + 8 <= data@.len(),
    ensures
        r == spec_le64(data@, off as int),
{
    data[off] as u64 + (data[off + 1] as u64) * 0x100 + (data[off + 2] as u64) * 0x1_0000 + (
    data[off + 3] as u64) * 0x100_0000 + (data[off + 4] as u64) * 0x1_0000_0000 + (data[off
        + 5] as u64) * 0x100_0000_0000 + (data[off + 6] as u64) * 0x1_0000_0000_0000 + (data[off
        + 7] as u64) * 0x100_0000_0000_0000
}

/// Validates the magic and the program-header table, then collects the
/// loadable segments.
pub fn parse_elf(data: &[u8]) -> (r: Result<ElfInfo, ElfError>)
    ensures
        r == Err::<ElfInfo, ElfError>(ElfError::InvalidMagic) <==> !spec_elf_magic_ok(data@),
        r is Ok <==> spec_elf_magic_ok(data@) && spec_elf_header_ok(data@),
        r is Err ==> r == Err::<ElfInfo, ElfError>(ElfError::InvalidMagic) || r == Err::<
            ElfInfo,
            ElfError,
        >(ElfError::Truncated),
        r matches Ok(info) ==> {
            &&& info.entry == spec_elf_entry(data@)
            &&& info.segs@ == spec_load_segs(data@, spec_elf_phnum(data@))
        },
{
    if data.len() < 4 || data[0] != 0x7f || data[1] != 0x45 || data[2] != 0x4c || data[3] != 0x46 {
        return Err(ElfError::InvalidMagic);
    }
    if data.len() < 64 {
        return Err(ElfError::Truncated);
    }
    let phoff = read_u64(data, 32);
    let phentsize = read_u16(data, 54);
    let phnum = read_u16(data, 56);
    if phentsize < 56 {
        return Err(ElfError::Truncated);
    }
    if phoff > data.len() as u64 {
        return Err(ElfError::Truncated);
    }
    proof {
        assert((phnum as u64) * (phentsize as u64) <= 0xffffu64 * 0xffffu64) by (nonlinear_arith)
            requires
                phnum as u64 <= 0xffff,
                phentsize as u64 <= 0xffff,
        ;
    }
    let table = (phnum as u64) * (phentsize as u64);
    if table > data.len() as u64 - phoff {
        return Err(ElfError::Truncated);
    }
    proof {
        assert(data@.len() == data.len());
    }
    let entry = read_u64(data, 24);
    let mut segs: Vec<Segment> = Vec::new();
    let mut i: usize = 0;
    while i < phnum as usize
        invariant
            data@.len() <= usize::MAX,
            spec_elf_magic_ok(data@),
            spec_elf_header_ok(data@),
            phoff == spec_elf_phoff(data@),
            phentsize == spec_elf_phentsize(data@),
            phnum == spec_elf_phnum(data@),
            i <= phnum,
            segs@ == spec_load_segs(data@, i as int),
        decreases phnum - i,
    {
        proof {
            let pe = phentsize as int;
            assert((i as int) * pe + pe <= (phnum as int) * pe) by (nonlinear_arith)
                requires
                    0 <= (i as int),
                    (i as int) < (phnum as int),
                    pe >= 0,
            ;
            assert((phoff as int) + (i as int) * pe + 56 <= data@.len());
            assert((phnum as int) * pe <= data@.len() - (phoff as int));
            assert((phoff as int) <= data@.len());
        }
        let base = (phoff as usize) + i * (phentsize as usize);
        proof {
            assert(base + 56 <= data@.len());
        }
        let ptype = read_u32(data, base);
        if ptype == 1 {
            let seg = Segment {
                vaddr: read_u64(data, base + 16),
                mem_size: read_u64(data, base + 40),
                offset: read_u64(data, base + 8),
                file_size: read_u64(data, base + 32),
                flags: read_u32(data, base + 4) as u64,
            };
            segs.push(seg);
        }
        proof {
            assert(spec_ph_off(data@, i as int) == base);
            assert(segs@ == spec_load_segs(data@, i + 1));
        }
        i = i + 1;
    }
    Ok(ElfInfo { entry, segs })
}

} // verus!
