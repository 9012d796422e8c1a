//! Copying the file part of a loadable segment into the frames that map it: the segment is
//! cut at page boundaries, and each piece goes to the frame its page translates to.

use crate::mm::paging::{tables_ok, translation, walk_ok, PageTableMemory};
use crate::mm::vmm::Vmm;
use crate::sched::elf::ElfPhdr;
use vstd::prelude::*;

verus! {

/// One piece of a segment copy: `len` bytes from `file_offset` in the ELF file to the
/// physical address `phys`.
#[derive(Clone, Copy, PartialEq, Eq, Structural, Debug)]
pub struct SegmentChunk {
    pub phys: u64,
    pub file_offset: u64,
    pub len: u64,
}

/// The length of the piece that starts `copied` bytes into the segment: up to the end of
/// its page, or of the file part of the segment if that comes first.
pub open spec fn chunk_len(p: ElfPhdr, copied: int) -> int {
    let off = (p.p_vaddr + copied) % 4096;
    if 4096 - off <= p.p_filesz - copied {
        4096 - off
    } else {
        p.p_filesz - copied
    }
}

/// The page that holds the byte `copied` bytes into the segment.
pub open spec fn chunk_page(p: ElfPhdr, copied: int) -> u64 {
    (p.p_vaddr + copied - (p.p_vaddr + copied) % 4096) as u64
}

/// The piece that starts `copied` bytes into the segment.
pub open spec fn chunk_at(m: Map<u64, Seq<u64>>, h: u64, root: u64, p: ElfPhdr, copied: int) -> SegmentChunk {
    SegmentChunk {
        phys: (translation(m, h, root, chunk_page(p, copied)).unwrap().0 + (p.p_vaddr + copied)
            % 4096) as u64,
        file_offset: (p.p_offset + copied) as u64,
        len: chunk_len(p, copied) as u64,
    }
}

/// The pieces of the segment from `copied` bytes into it to the end of its file part.
pub open spec fn copy_chunks(m: Map<u64, Seq<u64>>, h: u64, root: u64, p: ElfPhdr, copied: int) -> Seq<SegmentChunk>
    decreases p.p_filesz - copied,
{
    if copied < 0 || copied >= p.p_filesz {
        Seq::empty()
    } else {
        seq![chunk_at(m, h, root, p, copied)] + copy_chunks(m, h, root, p, copied + chunk_len(p, copied))
    }
}

/// Every page the file part of the segment touches, from `copied` bytes into it on, is
/// mapped.
pub open spec fn pages_mapped(m: Map<u64, Seq<u64>>, h: u64, root: u64, p: ElfPhdr, copied: int) -> bool
    decreases p.p_filesz - copied,
{
    if copied < 0 || copied >= p.p_filesz {
        true
    } else {
        translation(m, h, root, chunk_page(p, copied)) is Some && pages_mapped(
            m,
            h,
            root,
            p,
            copied + chunk_len(p, copied),
        )
    }
}

/// The pieces in which the file part of the segment is copied into the frames that map it,
/// or `None` if one of its pages is not mapped.
pub fn segment_copy_chunks(mem: &PageTableMemory, root: u64, phdr: &ElfPhdr) -> (r: Option<Vec<SegmentChunk>>)
    requires
        mem.wf(),
        tables_ok(mem.tables(), mem.hhdm(), root),
        phdr.p_vaddr + phdr.p_filesz <= u64::MAX,
        phdr.p_offset + phdr.p_filesz <= u64::MAX,
    ensures
        r is Some <==> pages_mapped(mem.tables(), mem.hhdm(), root, *phdr, 0),
        r matches Some(v) ==> v@ == copy_chunks(mem.tables(), mem.hhdm(), root, *phdr, 0),
{
    let ghost m = mem.tables();
    let ghost h = mem.hhdm();
    let ghost p = *phdr;
    let mut out: Vec<SegmentChunk> = Vec::new();
    let mut copied: u64 = 0;
    while copied < phdr.p_filesz
        invariant
            mem.wf(),
            m == mem.tables(),
            h == mem.hhdm(),
            p == *phdr,
            tables_ok(m, h, root),
            p.p_vaddr + p.p_filesz <= u64::MAX,
            p.p_offset + p.p_filesz <= u64::MAX,
            copied <= p.p_filesz,
            copy_chunks(m, h, root, p, 0) == out@ + copy_chunks(m, h, root, p, copied as int),
            pages_mapped(m, h, root, p, 0) == pages_mapped(m, h, root, p, copied as int),
        decreases p.p_filesz - copied,
    {
        let dst_vaddr = phdr.p_vaddr + copied;
        let offset_in_page = dst_vaddr % 4096;
        let page_base = dst_vaddr - offset_in_page;
        assert(walk_ok(m, h, root, page_base));
        let phys = match Vmm::translate(mem, root, page_base) {
            Some(a) => a,
            None => {
                return None;
            },
        };
        let remaining_space_in_page = 4096 - offset_in_page;
        let remaining_to_copy = phdr.p_filesz - copied;
        let chunk = if remaining_space_in_page <= remaining_to_copy {
            remaining_space_in_page
        } else {
            remaining_to_copy
        };
        proof {
            assert(page_base == chunk_page(p, copied as int));
            assert(chunk == chunk_len(p, copied as int));
            assert(translation(m, h, root, page_base).unwrap().0 + offset_in_page <= u64::MAX) by {
                crate::mm::paging::lemma_translation_bound(m, h, root, page_base);
            }
        }
        let c = SegmentChunk { phys: phys + offset_in_page, file_offset: phdr.p_offset + copied, len: chunk };
        proof {
            assert(c == chunk_at(m, h, root, p, copied as int));
            assert(copy_chunks(m, h, root, p, copied as int) == seq![c] + copy_chunks(
                m,
                h,
                root,
                p,
                copied + chunk,
            ));
        }
        out.push(c);
        copied = copied + chunk;
        proof {
            assert(copy_chunks(m, h, root, p, 0) =~= out@ + copy_chunks(m, h, root, p, copied as int));
        }
    }
    proof {
        assert(out@ + copy_chunks(m, h, root, p, copied as int) =~= out@);
    }
    Some(out)
}

} // verus!
