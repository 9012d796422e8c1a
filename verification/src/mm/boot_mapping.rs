//! A datatype which describes a region of memory, used when memory only gets mapped in paging
//! early on and later receives VMAs.

use crate::mm::layout;
use crate::mm::vma::VmaFlags;
use vstd::prelude::*;

verus! {

/// Where the sections of the kernel image lie, virtually and physically.
#[derive(Clone, Copy)]
pub struct KernelSectionInfo {
    pub kernel_phys_start: u64,
    pub kernel_start: u64,
    pub kernel_text_end: u64,
    pub kernel_rodata_end: u64,
    pub kernel_end: u64,
}

/// A memory mapping whose definition needs to be remembered briefly (like when VMAs and pages
/// get built at different times).
#[derive(Clone, Copy)]
pub struct BootMapping {
    pub virt: u64,
    pub phys: u64,
    pub size: u64,
    pub flags: VmaFlags,
    pub can_overmap: bool,
}

/// The mappings the kernel needs from the start: the direct map of all physical memory
/// (read/write, may be overmapped) and the kernel's `.text` (read/exec), `.rodata` (read) and
/// `.data`/`.bss` (read/write) sections at their physical location.
pub fn build_boot_mappings(sections: &KernelSectionInfo, total_mem: u64) -> (r: [BootMapping; 4])
    requires
        sections.kernel_start <= sections.kernel_text_end <= sections.kernel_rodata_end
            <= sections.kernel_end,
    ensures
        ({
            let image_offset = sections.kernel_phys_start.wrapping_sub(layout::KERNEL_IMAGE_BASE);
            &&& r[0] == BootMapping {
                virt: layout::KERNEL_HHDM_BASE,
                phys: 0,
                size: total_mem,
                flags: VmaFlags(3),
                can_overmap: true,
            }
            &&& r[1] == BootMapping {
                virt: sections.kernel_start,
                phys: sections.kernel_start.wrapping_add(image_offset),
                size: (sections.kernel_text_end - sections.kernel_start) as u64,
                flags: VmaFlags(5),
                can_overmap: false,
            }
            &&& r[2] == BootMapping {
                virt: sections.kernel_text_end,
                phys: sections.kernel_text_end.wrapping_add(image_offset),
                size: (sections.kernel_rodata_end - sections.kernel_text_end) as u64,
                flags: VmaFlags(1),
                can_overmap: false,
            }
            &&& r[3] == BootMapping {
                virt: sections.kernel_rodata_end,
                phys: sections.kernel_rodata_end.wrapping_add(image_offset),
                size: (sections.kernel_end - sections.kernel_rodata_end) as u64,
                flags: VmaFlags(3),
                can_overmap: false,
            }
        }),
{
    let image_offset = sections.kernel_phys_start.wrapping_sub(layout::KERNEL_IMAGE_BASE);
    let read = VmaFlags::read();
    let write = VmaFlags::write();
    let exec = VmaFlags::exec();
    assert(1u8 | 2u8 == 3u8 && 1u8 | 4u8 == 5u8) by (bit_vector);
    [
        BootMapping {
            virt: layout::KERNEL_HHDM_BASE,
            phys: 0,
            size: total_mem,
            flags: read | write,
            can_overmap: true,
        },
        BootMapping {
            virt: sections.kernel_start,
            phys: sections.kernel_start.wrapping_add(image_offset),
            size: sections.kernel_text_end - sections.kernel_start,
            flags: read | exec,
            can_overmap: false,
        },
        BootMapping {
            virt: sections.kernel_text_end,
            phys: sections.kernel_text_end.wrapping_add(image_offset),
            size: sections.kernel_rodata_end - sections.kernel_text_end,
            flags: read,
            can_overmap: false,
        },
        BootMapping {
            virt: sections.kernel_rodata_end,
            phys: sections.kernel_rodata_end.wrapping_add(image_offset),
            size: sections.kernel_end - sections.kernel_rodata_end,
            flags: read | write,
            can_overmap: false,
        },
    ]
}

} // verus!
