//! ELF64 header and program header parsing and validation.
//!
//! All fields are little-endian, at the offsets of the ELF64 layout.

use vstd::prelude::*;

verus! {

/// Why an ELF image was rejected.
#[derive(Clone, Copy, PartialEq, Eq, Structural, Debug)]
pub enum ElfError {
    /// Shorter than an ELF64 header.
    TooSmall,
    /// The first four bytes are not `\x7FELF`.
    BadMagic,
    /// Not a 64-bit image.
    Not64Bit,
    /// Not a little-endian image.
    NotLittleEndian,
    /// Neither an executable nor a position-independent executable.
    NotExecutable,
    /// Built for another machine.
    WrongArch,
    /// The program header entry size is not that of [`ElfPhdr`].
    BadPhentsize,
    /// The program header table does not lie inside the image.
    PhdrsOutOfBounds,
}

/// The ELF64 file header.
#[derive(Clone, Copy, Debug)]
pub struct ElfHeader {
    pub e_ident: [u8; 16],
    pub e_type: u16,
    pub e_machine: u16,
    pub e_version: u32,
    pub e_entry: u64,
    pub e_phoff: u64,
    pub e_shoff: u64,
    pub e_flags: u32,
    pub e_ehsize: u16,
    pub e_phentsize: u16,
    pub e_phnum: u16,
    pub e_shentsize: u16,
    pub e_shnum: u16,
    pub e_shstrndx: u16,
}

/// An ELF64 program header.
#[derive(Clone, Copy, PartialEq, Eq, Structural, Debug)]
pub struct ElfPhdr {
    pub p_type: u32,
    pub p_flags: u32,
    pub p_offset: u64,
    pub p_vaddr: u64,
    pub p_paddr: u64,
    pub p_filesz: u64,
    pub p_memsz: u64,
    pub p_align: u64,
}

/// Size of an ELF64 file header.
pub const ELF_HEADER_SIZE: usize = 64;

/// Size of an ELF64 program header.
pub const ELF_PHDR_SIZE: u16 = 56;

/// Executable file.
pub const ET_EXEC: u16 = 2;

/// Shared object (position-independent executable).
pub const ET_DYN: u16 = 3;

/// The x86_64 machine.
pub const EM_X86_64: u16 = 0x3E;

/// Loadable segment.
pub const PT_LOAD: u32 = 1;

/// Segment is executable.
pub const PF_X: u32 = 1;

/// Segment is writable.
pub const PF_W: u32 = 2;

/// Segment is readable.
pub const PF_R: u32 = 4;

/// The little-endian `u16` at `off`.
pub open spec fn le16(b: Seq<u8>, off: int) -> u16 {
    (b[off] as int + b[off + 1] as int * 0x100) as u16
}

/// The little-endian `u32` at `off`.
pub open spec fn le32(b: Seq<u8>, off: int) -> u32 {
    (le16(b, off) as int + le16(b, off + 2) as int * 0x1_0000) as u32
}

/// The little-endian `u64` at `off`.
pub open spec fn le64(b: Seq<u8>, off: int) -> u64 {
    (le32(b, off) as int + le32(b, off + 4) as int * 0x1_0000_0000) as u64
}

/// The little-endian number held by the `n` bytes of `b` from offset `o`: the first byte is
/// the lowest.
pub open spec fn bytes_le(b: Seq<u8>, o: int, n: nat) -> int
    decreases n,
{
    if n == 0 {
        0
    } else {
        b[o] as int + 0x100 * bytes_le(b, o + 1, (n - 1) as nat)
    }
}

/// Reading 2, 4 and 8 bytes at `o` gives the little-endian numbers they hold.
pub proof fn law_le_values(b: Seq<u8>, o: int)
    requires
        0 <= o,
        o + 8 <= b.len(),
    ensures
        le16(b, o) as int == bytes_le(b, o, 2),
        le32(b, o) as int == bytes_le(b, o, 4),
        le64(b, o) as int == bytes_le(b, o, 8),
{
    reveal_with_fuel(bytes_le, 9);
    assert(le16(b, o) as int == b[o] as int + b[o + 1] as int * 0x100);
    assert(le16(b, o + 2) as int == b[o + 2] as int + b[o + 3] as int * 0x100);
    assert(le16(b, o + 4) as int == b[o + 4] as int + b[o + 5] as int * 0x100);
    assert(le16(b, o + 6) as int == b[o + 6] as int + b[o + 7] as int * 0x100);
    assert(le32(b, o) as int == le16(b, o) as int + le16(b, o + 2) as int * 0x1_0000);
    assert(le32(b, o + 4) as int == le16(b, o + 4) as int + le16(b, o + 6) as int * 0x1_0000);
    assert(le64(b, o) as int == le32(b, o) as int + le32(b, o + 4) as int * 0x1_0000_0000);
}

/// The fields of an ELF64 image that loading uses are the little-endian numbers at their
/// offsets: the entry point at byte 24, the program header table's offset at 32 and its
/// length at 56; and program header `i`, at the table's offset plus 56 times `i`, holds
/// p_type at 0, p_flags at 4, p_offset at 8, p_vaddr at 16, p_paddr at 24, p_filesz at 32,
/// p_memsz at 40 and p_align at 48.
pub proof fn law_elf_fields(b: Seq<u8>, i: int)
    requires
        b.len() >= 64,
        0 <= i < bytes_le(b, 56, 2),
        bytes_le(b, 32, 8) + (i + 1) * 56 <= b.len(),
    ensures
        header_at(b).e_entry as int == bytes_le(b, 24, 8),
        header_at(b).e_phoff as int == bytes_le(b, 32, 8),
        header_at(b).e_phnum as int == bytes_le(b, 56, 2),
        phdrs_of(b).len() == bytes_le(b, 56, 2),
        ({
            let p = phdrs_of(b)[i];
            let o = bytes_le(b, 32, 8) + i * 56;
            &&& p.p_type as int == bytes_le(b, o, 4)
            &&& p.p_flags as int == bytes_le(b, o + 4, 4)
            &&& p.p_offset as int == bytes_le(b, o + 8, 8)
            &&& p.p_vaddr as int == bytes_le(b, o + 16, 8)
            &&& p.p_paddr as int == bytes_le(b, o + 24, 8)
            &&& p.p_filesz as int == bytes_le(b, o + 32, 8)
            &&& p.p_memsz as int == bytes_le(b, o + 40, 8)
            &&& p.p_align as int == bytes_le(b, o + 48, 8)
        }),
{
    law_le_values(b, 24);
    law_le_values(b, 32);
    law_le_values(b, 56 - 6);
    reveal_with_fuel(bytes_le, 9);
    assert(le16(b, 56) as int == b[56] as int + b[57] as int * 0x100);
    let o = bytes_le(b, 32, 8) + i * 56;
    assert(o >= 0);
    law_le_values(b, o);
    law_le_values(b, o + 8);
    law_le_values(b, o + 16);
    law_le_values(b, o + 24);
    law_le_values(b, o + 32);
    law_le_values(b, o + 40);
    law_le_values(b, o + 48);
    assert(le32(b, o + 4) as int == bytes_le(b, o + 4, 4)) by {
        law_le_values(b, o + 4 - 4);
        assert(le16(b, o + 4) as int == b[o + 4] as int + b[o + 5] as int * 0x100);
        assert(le16(b, o + 6) as int == b[o + 6] as int + b[o + 7] as int * 0x100);
    }
    assert(phdrs_of(b)[i] == phdr_at(b, le64(b, 32) as int + i * ELF_PHDR_SIZE as int));
}

/// The header checks accept exactly the images of at least 64 bytes that start with the
/// magic `7F 'E' 'L' 'F'`, are 64-bit (byte 4 is 2) and little-endian (byte 5 is 1), are an
/// executable or shared object (type 2 or 3 at byte 16), are for x86_64 (machine 62 at byte
/// 18) and have 56-byte program headers (at byte 54); such an image's program header table
/// is in bounds exactly when its offset (byte 32) plus 56 times its length (byte 56) is at
/// most the image's size.
pub proof fn law_header_checks(b: Seq<u8>)
    ensures
        header_error(b) is None <==> {
            &&& b.len() >= 64
            &&& b[0] == 0x7F && b[1] == 0x45 && b[2] == 0x4C && b[3] == 0x46
            &&& b[4] == 2
            &&& b[5] == 1
            &&& bytes_le(b, 16, 2) == 2 || bytes_le(b, 16, 2) == 3
            &&& bytes_le(b, 18, 2) == 62
            &&& bytes_le(b, 54, 2) == 56
        },
        b.len() >= 64 ==> (phdrs_in_bounds(b) <==> bytes_le(b, 32, 8) + bytes_le(b, 56, 2) * 56
            <= b.len()),
{
    if b.len() >= 64 {
        law_le_values(b, 16);
        law_le_values(b, 18);
        law_le_values(b, 32);
        law_le_values(b, 54);
        law_le_values(b, 56);
    }
}

/// The header at the start of `b`.
pub open spec fn header_at(b: Seq<u8>) -> ElfHeader {
    ElfHeader {
        e_ident: [
            b[0], b[1], b[2], b[3], b[4], b[5], b[6], b[7],
            b[8], b[9], b[10], b[11], b[12], b[13], b[14], b[15],
        ],
        e_type: le16(b, 16),
        e_machine: le16(b, 18),
        e_version: le32(b, 20),
        e_entry: le64(b, 24),
        e_phoff: le64(b, 32),
        e_shoff: le64(b, 40),
        e_flags: le32(b, 48),
        e_ehsize: le16(b, 52),
        e_phentsize: le16(b, 54),
        e_phnum: le16(b, 56),
        e_shentsize: le16(b, 58),
        e_shnum: le16(b, 60),
        e_shstrndx: le16(b, 62),
    }
}

/// The program header at byte offset `off`.
pub open spec fn phdr_at(b: Seq<u8>, off: int) -> ElfPhdr {
    ElfPhdr {
        p_type: le32(b, off),
        p_flags: le32(b, off + 4),
        p_offset: le64(b, off + 8),
        p_vaddr: le64(b, off + 16),
        p_paddr: le64(b, off + 24),
        p_filesz: le64(b, off + 32),
        p_memsz: le64(b, off + 40),
        p_align: le64(b, off + 48),
    }
}

/// The first check of the ELF header that `b` fails, in the order they are made, or
/// `None` if it passes them all.
pub open spec fn header_error(b: Seq<u8>) -> Option<ElfError> {
    if b.len() < 64 {
        Some(ElfError::TooSmall)
    } else if b[0] != 0x7Fu8 || b[1] != 0x45u8 || b[2] != 0x4Cu8 || b[3] != 0x46u8 {
        Some(ElfError::BadMagic)
    } else if b[4] != 2u8 {
        Some(ElfError::Not64Bit)
    } else if b[5] != 1u8 {
        Some(ElfError::NotLittleEndian)
    } else if le16(b, 16) != ET_EXEC && le16(b, 16) != ET_DYN {
        Some(ElfError::NotExecutable)
    } else if le16(b, 18) != EM_X86_64 {
        Some(ElfError::WrongArch)
    } else if le16(b, 54) != ELF_PHDR_SIZE {
        Some(ElfError::BadPhentsize)
    } else {
        None
    }
}

/// The program header table of `b` lies inside `b`.
pub open spec fn phdrs_in_bounds(b: Seq<u8>) -> bool {
    le64(b, 32) as int + le16(b, 56) as int * ELF_PHDR_SIZE as int <= b.len()
}

/// The program headers of `b`.
pub open spec fn phdrs_of(b: Seq<u8>) -> Seq<ElfPhdr> {
    Seq::new(
        le16(b, 56) as nat,
        |i: int| phdr_at(b, le64(b, 32) as int + i * ELF_PHDR_SIZE as int),
    )
}

fn read_u16(b: &[u8], off: usize) -> (r: u16)
    requires
        off + 2 <= b@.len(),
    ensures
        r == le16(b@, off as int),
{
    b[off] as u16 + (b[off + 1] as u16) * 0x100
}

fn read_u32(b: &[u8], off: usize) -> (r: u32)
    requires
        off + 4 <= b@.len(),
        b@.len() <= usize::MAX,
    ensures
        r == le32(b@, off as int),
{
    let lo: u32 = read_u16(b, off) as u32;
    let hi: u32 = read_u16(b, off + 2) as u32;
    assert(hi * 0x1_0000 <= 0xffff_0000) by (nonlinear_arith)
        requires
            hi <= 0xffff,
    ;
    lo + hi * 0x1_0000
}

fn read_u64(b: &[u8], off: usize) -> (r: u64)
    requires
        off + 8 <= b@.len(),
        b@.len() <= usize::MAX,
    ensures
        r == le64(b@, off as int),
{
    let lo: u64 = read_u32(b, off) as u64;
    let hi: u64 = read_u32(b, off + 4) as u64;
    assert(hi * 0x1_0000_0000 <= 0xffff_ffff_0000_0000) by (nonlinear_arith)
        requires
            hi <= 0xffff_ffff,
    ;
    lo + hi * 0x1_0000_0000
}

impl ElfHeader {
    /// The ELF magic number.
    pub const ELF_MAGIC: [u8; 4] = [0x7F, 0x45, 0x4C, 0x46];

    /// Read the ELF header at the start of `elf`.
    pub fn new(elf: &[u8]) -> (r: Self)
        requires
            elf@.len() >= 64,
        ensures
            r == header_at(elf@),
    {
        assert(elf@.len() == elf.len());
        ElfHeader {
            e_ident: [
                elf[0], elf[1], elf[2], elf[3], elf[4], elf[5], elf[6], elf[7],
                elf[8], elf[9], elf[10], elf[11], elf[12], elf[13], elf[14], elf[15],
            ],
            e_type: read_u16(elf, 16),
            e_machine: read_u16(elf, 18),
            e_version: read_u32(elf, 20),
            e_entry: read_u64(elf, 24),
            e_phoff: read_u64(elf, 32),
            e_shoff: read_u64(elf, 40),
            e_flags: read_u32(elf, 48),
            e_ehsize: read_u16(elf, 52),
            e_phentsize: read_u16(elf, 54),
            e_phnum: read_u16(elf, 56),
            e_shentsize: read_u16(elf, 58),
            e_shnum: read_u16(elf, 60),
            e_shstrndx: read_u16(elf, 62),
        }
    }
}

/// Check that `elf` starts with an ELF header of a 64-bit little-endian x86_64
/// executable with ELF64 program headers, and return that header.
pub fn validate_header(elf: &[u8]) -> (r: Result<ElfHeader, ElfError>)
    ensures
        match header_error(elf@) {
            Some(e) => r == Err::<ElfHeader, ElfError>(e),
            None => r == Ok::<ElfHeader, ElfError>(header_at(elf@)),
        },
{
    if elf.len() < ELF_HEADER_SIZE {
        return Err(ElfError::TooSmall);
    }
    let header = ElfHeader::new(elf);
    let magic = ElfHeader::ELF_MAGIC;
    let mut i: usize = 0;
    while i < 4
        invariant
            i <= 4,
            elf@.len() >= 64,
            header == header_at(elf@),
            magic@ == seq![0x7Fu8, 0x45u8, 0x4Cu8, 0x46u8],
            forall|j: int| 0 <= j < i ==> elf@[j] == magic@[j],
        decreases 4 - i,
    {
        if header.e_ident[i] != magic[i] {
            return Err(ElfError::BadMagic);
        }
        i += 1;
    }
    if header.e_ident[4] != 0x02 {
        return Err(ElfError::Not64Bit);
    }
    if header.e_ident[5] != 0x01 {
        return Err(ElfError::NotLittleEndian);
    }
    if header.e_type != ET_EXEC && header.e_type != ET_DYN {
        return Err(ElfError::NotExecutable);
    }
    if header.e_machine != EM_X86_64 {
        return Err(ElfError::WrongArch);
    }
    if header.e_phentsize != ELF_PHDR_SIZE {
        return Err(ElfError::BadPhentsize);
    }
    Ok(header)
}

/// Read the program header table that `header` describes.
///
/// Returns [`ElfError::PhdrsOutOfBounds`] if the table does not lie inside `elf`.
pub fn parse_phdrs(elf: &[u8], header: &ElfHeader) -> (r: Result<Vec<ElfPhdr>, ElfError>)
    requires
        header_error(elf@) is None,
        *header == header_at(elf@),
    ensures
        phdrs_in_bounds(elf@) ==> (r matches Ok(v) && v@ == phdrs_of(elf@)),
        !phdrs_in_bounds(elf@) ==> r == Err::<Vec<ElfPhdr>, ElfError>(ElfError::PhdrsOutOfBounds),
{
    let n = header.e_phnum as u64;
    let off = header.e_phoff;
    let len = elf.len() as u64;
    if off > len || n * (ELF_PHDR_SIZE as u64) > len - off {
        return Err(ElfError::PhdrsOutOfBounds);
    }
    assert(elf@.len() == elf.len());
    let mut phdrs: Vec<ElfPhdr> = Vec::new();
    let mut i: u64 = 0;
    while i < n
        invariant
            n == le16(elf@, 56),
            off == le64(elf@, 32),
            off + n * 56 <= elf@.len(),
            len == elf@.len(),
            elf@.len() <= usize::MAX,
            i <= n,
            phdrs@ == phdrs_of(elf@).take(i as int),
        decreases n - i,
    {
        proof {
            assert(i * 56 + 56 <= n * 56) by (nonlinear_arith)
                requires
                    i < n,
            ;
        }
        let base = (off + i * 56) as usize;
        let phdr = ElfPhdr {
            p_type: read_u32(elf, base),
            p_flags: read_u32(elf, base + 4),
            p_offset: read_u64(elf, base + 8),
            p_vaddr: read_u64(elf, base + 16),
            p_paddr: read_u64(elf, base + 24),
            p_filesz: read_u64(elf, base + 32),
            p_memsz: read_u64(elf, base + 40),
            p_align: read_u64(elf, base + 48),
        };
        phdrs.push(phdr);
        i += 1;
        assert(phdrs@ =~= phdrs_of(elf@).take(i as int));
    }
    assert(phdrs@ =~= phdrs_of(elf@));
    Ok(phdrs)
}

/// Validate a given ELF image: its header, then its program header table. Returns the
/// program headers and the entry point.
pub fn validate_elf(elf: &[u8]) -> (r: Result<(Vec<ElfPhdr>, u64), ElfError>)
    ensures
        header_error(elf@) matches Some(e) ==> r == Err::<(Vec<ElfPhdr>, u64), ElfError>(e),
        header_error(elf@) is None && !phdrs_in_bounds(elf@) ==> r == Err::<
            (Vec<ElfPhdr>, u64),
            ElfError,
        >(ElfError::PhdrsOutOfBounds),
        header_error(elf@) is None && phdrs_in_bounds(elf@) ==> (r matches Ok(t) && t.0@
            == phdrs_of(elf@) && t.1 == le64(elf@, 24)),
{
    let header = match validate_header(elf) {
        Ok(h) => h,
        Err(e) => {
            return Err(e);
        },
    };
    let phdrs = match parse_phdrs(elf, &header) {
        Ok(p) => p,
        Err(e) => {
            return Err(e);
        },
    };
    Ok((phdrs, header.e_entry))
}

} // verus!
