//! Placing a program in an address space: the areas of its loadable segments and its stack.

use crate::mm::address_space::{insert_all, insert_outcome, lemma_insert_all_push, AddressSpace};
use crate::mm::layout::USER_STACK_TOP;
use crate::mm::mm_error::MmError;
use crate::mm::vma::{Vma, VmaFlags};
use crate::mm::vmm::{Vmm, VmmError};
use crate::sched::elf::{ElfPhdr, PF_R, PF_W, PF_X, PT_LOAD};
use vstd::prelude::*;

verus! {

/// Size of a user stack.
pub const USER_STACK_SIZE: u64 = 4096 * 4;

/// `a` rounded down to a frame boundary.
pub open spec fn frame_align_down(a: u64) -> u64 {
    (a - a % 4096) as u64
}

/// `a` rounded up to a frame boundary.
pub open spec fn frame_align_up(a: u64) -> u64 {
    if a % 4096 == 0 {
        a
    } else {
        (a - a % 4096 + 4096) as u64
    }
}

/// The VMA flags of a segment: user-accessible, with read, write and execute as the
/// segment flags say.
pub open spec fn segment_flags(p_flags: u32) -> VmaFlags {
    let f0 = VmaFlags(8);
    let f1 = if p_flags & PF_R != 0 {
        VmaFlags(f0.0 | 1u8)
    } else {
        f0
    };
    let f2 = if p_flags & PF_W != 0 {
        VmaFlags(f1.0 | 2u8)
    } else {
        f1
    };
    if p_flags & PF_X != 0 {
        VmaFlags(f2.0 | 4u8)
    } else {
        f2
    }
}

/// The VMA flags of a segment with ELF flags `p_flags`: always USER (8); READ (1) exactly
/// when the segment is readable (PF_R, 4); WRITE (2) exactly when it is writable (PF_W, 2);
/// EXEC (4) exactly when it is executable (PF_X, 1); no other flag.
pub proof fn law_segment_flags(p_flags: u32)
    ensures
        segment_flags(p_flags).0 & 8 == 8,
        (segment_flags(p_flags).0 & 1 == 1) == (p_flags & 4 != 0),
        (segment_flags(p_flags).0 & 2 == 2) == (p_flags & 2 != 0),
        (segment_flags(p_flags).0 & 4 == 4) == (p_flags & 1 != 0),
        segment_flags(p_flags).0 & 0xf0 == 0,
{
    let r: u8 = if p_flags & 4 != 0 { 1 } else { 0 };
    let w: u8 = if p_flags & 2 != 0 { 2 } else { 0 };
    let x: u8 = if p_flags & 1 != 0 { 4 } else { 0 };
    assert(forall|a: u8| #[trigger] (a | 0u8) == a) by (bit_vector);
    assert(segment_flags(p_flags).0 == 8u8 | r | w | x);
    assert((r == 0 || r == 1) && (w == 0 || w == 2) && (x == 0 || x == 4) ==> (8u8 | r | w | x) & 8
        == 8 && ((8u8 | r | w | x) & 1 == 1) == (r == 1) && ((8u8 | r | w | x) & 2 == 2) == (w == 2)
        && ((8u8 | r | w | x) & 4 == 4) == (x == 4) && (8u8 | r | w | x) & 0xf0 == 0) by (bit_vector);
}

/// The area a loadable segment occupies: its memory image widened to whole frames.
pub open spec fn segment_vma(p: ElfPhdr) -> Vma {
    Vma {
        start_addr: frame_align_down(p.p_vaddr),
        end_addr: frame_align_up((p.p_vaddr + p.p_memsz) as u64),
        flags: segment_flags(p.p_flags),
    }
}

/// The area of a loadable segment starts at the frame boundary at or below its virtual
/// address and ends at the first frame boundary at or above the end of its memory image,
/// with the flags [`law_segment_flags`] gives.
pub proof fn law_segment_vma(p: ElfPhdr)
    requires
        p.p_vaddr + p.p_memsz + 4095 <= u64::MAX,
    ensures
        segment_vma(p).start_addr % 4096 == 0,
        segment_vma(p).start_addr <= p.p_vaddr < segment_vma(p).start_addr + 4096,
        segment_vma(p).end_addr % 4096 == 0,
        p.p_vaddr + p.p_memsz <= segment_vma(p).end_addr < p.p_vaddr + p.p_memsz + 4096,
        segment_vma(p).flags == segment_flags(p.p_flags),
{
    law_segment_flags(p.p_flags);
}

/// The areas of the loadable segments among `phdrs`, in order.
pub open spec fn load_vmas(phdrs: Seq<ElfPhdr>) -> Seq<Vma>
    decreases phdrs.len(),
{
    if phdrs.len() == 0 {
        Seq::empty()
    } else if phdrs.last().p_type == PT_LOAD {
        load_vmas(phdrs.drop_last()).push(segment_vma(phdrs.last()))
    } else {
        load_vmas(phdrs.drop_last())
    }
}

/// No loadable segment reaches the last frame of the address range.
pub open spec fn segments_in_range(phdrs: Seq<ElfPhdr>) -> bool {
    forall|i: int|
        0 <= i < phdrs.len() && (#[trigger] phdrs[i]).p_type == PT_LOAD ==> phdrs[i].p_vaddr
            + phdrs[i].p_memsz + 4095 <= u64::MAX
}

/// The areas of `phdrs` are the areas of its loadable (type 1) headers, one each, in the
/// order of the headers; the other headers give none.
pub proof fn law_load_vmas(phdrs: Seq<ElfPhdr>)
    ensures
        load_vmas(phdrs) == phdrs.filter(|p: ElfPhdr| p.p_type == 1).map_values(
            |p: ElfPhdr| segment_vma(p),
        ),
    decreases phdrs.len(),
{
    reveal(Seq::filter);
    let pred = |p: ElfPhdr| p.p_type == 1;
    let f = |p: ElfPhdr| segment_vma(p);
    if phdrs.len() > 0 {
        law_load_vmas(phdrs.drop_last());
        let sub = phdrs.drop_last().filter(pred);
        if pred(phdrs.last()) {
            assert(phdrs.filter(pred) == sub.push(phdrs.last()));
            assert(sub.push(phdrs.last()).map_values(f) =~= sub.map_values(f).push(f(phdrs.last())));
        } else {
            assert(phdrs.filter(pred) == sub);
        }
    } else {
        assert(phdrs.filter(pred).map_values(f) =~= Seq::<Vma>::empty());
    }
}

/// The stack area of a user process, right below [`USER_STACK_TOP`].
pub open spec fn user_stack_vma() -> Vma {
    Vma {
        start_addr: (USER_STACK_TOP - USER_STACK_SIZE) as u64,
        end_addr: USER_STACK_TOP,
        flags: VmaFlags(8u8 | 1u8 | 2u8),
    }
}

/// The memory management error of a failed region mapping.
fn mm_error(e: VmmError) -> (r: MmError)
    ensures
        r == crate::mm::mm_error::mm_error_of(e),
{
    MmError::from(e)
}

/// Create the areas of the loadable segments in `phdrs`, in order, each widened to whole
/// frames and flagged user-accessible plus what its segment flags allow. Stops at the
/// first area that overlaps an existing one, with [`MmError::Overlap`]; the areas created
/// before it stay.
pub fn map_phdrs(addr_space: &mut AddressSpace, phdrs: &[ElfPhdr]) -> (r: Result<(), MmError>)
    requires
        old(addr_space).wf(),
        segments_in_range(phdrs@),
    ensures
        final(addr_space).wf(),
        final(addr_space).root() == old(addr_space).root(),
        ({
            let (t, ok) = insert_all(old(addr_space).areas(), load_vmas(phdrs@));
            &&& final(addr_space).areas() == t
            &&& ok <==> r is Ok
            &&& !ok ==> r == Err::<(), MmError>(MmError::Overlap)
        }),
{
    let mut i: usize = 0;
    while i < phdrs.len()
        invariant
            addr_space.wf(),
            addr_space.root() == old(addr_space).root(),
            segments_in_range(phdrs@),
            i <= phdrs@.len(),
            insert_all(old(addr_space).areas(), load_vmas(phdrs@.take(i as int))) == (
                addr_space.areas(),
                true,
            ),
        decreases phdrs@.len() - i,
    {
        let phdr = phdrs[i];
        proof {
            assert(phdrs@.take(i + 1).drop_last() =~= phdrs@.take(i as int));
            assert(phdrs@.take(i + 1).last() == phdr);
        }
        if phdr.p_type == PT_LOAD {
            let vaddr_start = phdr.p_vaddr - phdr.p_vaddr % 4096;
            let end = phdr.p_vaddr + phdr.p_memsz;
            let vaddr_end = if end % 4096 == 0 {
                end
            } else {
                end - end % 4096 + 4096
            };
            let size = vaddr_end - vaddr_start;
            let mut vma_flags = VmaFlags::user();
            if phdr.p_flags & PF_R != 0 {
                vma_flags = vma_flags | VmaFlags::read();
            }
            if phdr.p_flags & PF_W != 0 {
                vma_flags = vma_flags | VmaFlags::write();
            }
            if phdr.p_flags & PF_X != 0 {
                vma_flags = vma_flags | VmaFlags::exec();
            }
            proof {
                lemma_insert_all_push(
                    old(addr_space).areas(),
                    load_vmas(phdrs@.take(i as int)),
                    segment_vma(phdr),
                );
                assert(Vma { start_addr: vaddr_start, end_addr: (vaddr_start + size) as u64, flags: vma_flags } == segment_vma(phdr));
            }
            match Vmm::map_region(addr_space, vaddr_start, size, vma_flags) {
                Ok(()) => {},
                Err(e) => {
                    proof {
                        lemma_insert_all_rest_fails(
                            old(addr_space).areas(),
                            phdrs@,
                            i as int + 1,
                        );
                    }
                    return Err(mm_error(e));
                },
            }
        }
        i += 1;
    }
    assert(phdrs@.take(phdrs@.len() as int) =~= phdrs@);
    Ok(())
}

/// Once adding the areas of a prefix of the segments fails, adding those of all of them
/// fails at the same point.
proof fn lemma_insert_all_rest_fails(s: Set<Vma>, phdrs: Seq<ElfPhdr>, k: int)
    requires
        0 <= k <= phdrs.len(),
        !insert_all(s, load_vmas(phdrs.take(k))).1,
    ensures
        insert_all(s, load_vmas(phdrs)) == insert_all(s, load_vmas(phdrs.take(k))),
    decreases phdrs.len() - k,
{
    if k < phdrs.len() {
        let p = phdrs.take(k + 1);
        assert(p.drop_last() =~= phdrs.take(k));
        lemma_insert_all_push(s, load_vmas(phdrs.take(k)), segment_vma(phdrs[k]));
        lemma_insert_all_rest_fails(s, phdrs, k + 1);
    } else {
        assert(phdrs.take(k) =~= phdrs);
    }
}

/// Create the stack area of a user process, [`USER_STACK_SIZE`] bytes right below
/// [`USER_STACK_TOP`], readable and writable from user mode, and return the stack top.
/// Returns [`MmError::Overlap`] if the area overlaps an existing one.
pub fn setup_user_stack(addr_space: &mut AddressSpace) -> (r: Result<u64, MmError>)
    requires
        old(addr_space).wf(),
    ensures
        final(addr_space).wf(),
        final(addr_space).root() == old(addr_space).root(),
        match insert_outcome(old(addr_space).areas(), user_stack_vma()) {
            None => r == Err::<u64, MmError>(MmError::Overlap) && final(addr_space)@ == old(
                addr_space,
            )@,
            Some(s) => r == Ok::<u64, MmError>(USER_STACK_TOP) && final(addr_space).areas() == s,
        },
{
    let stack_size = USER_STACK_SIZE;
    let stack_top = USER_STACK_TOP;
    let stack_bottom = stack_top - stack_size;
    let flags = VmaFlags::user() | VmaFlags::read() | VmaFlags::write();
    match Vmm::map_region(addr_space, stack_bottom, stack_size, flags) {
        Ok(()) => Ok(stack_top),
        Err(e) => Err(mm_error(e)),
    }
}

} // verus!
