//! x86_64 four-level paging: mapping, unmapping, remapping and translating pages.
//!
//! The page tables are held in a [`PageTableMemory`]: the 512-entry tables the walk can
//! reach, keyed by the virtual address through which the kernel accesses them (their physical
//! address plus the direct-map offset). An entry holds a physical address in bits 12..52 and
//! flags in the other bits.

pub mod entry;
pub mod memory;
pub mod walk;
pub mod page;
pub mod map;
pub mod region;
pub mod root;
pub mod sound;

pub use self::entry::{ADDRESS_MASK, ENTRIES, GLOBAL, HUGE_PAGE, HUGE_PAGE_SIZE_1GIB, HUGE_PAGE_SIZE_2MIB, NO_EXECUTE, PHYS_LIMIT, PRESENT, PageType, USER_ACCESSIBLE, WRITABLE, advance_current_pagetable, entry_addr, entry_at, huge, is_huge_page, is_present, lemma_entry_addr_bound, next_table, page_size, present, table_index};
pub use self::memory::{PageTableMemory, zero_table};
pub use self::walk::{agree_except, leaf_entry, leaf_index, leaf_table, lemma_clear_write, lemma_same_shape_write, lemma_translation_bound, lemma_same_shape_write_all, page_flags_for, path_distinct_to, pd_entry, pd_table, pdpt_entry, pdpt_table, pml4_entry, pt_entry, pt_table, same_shape, tables_ok, translation, walk_ok, walk_reads};
pub use self::page::remapped_entry;
pub use self::map::{alloc_zeroed_frame, canonical, frames_owned, leaf_level, map_slot, map_walk_ok, new_tables_clean, new_tables_sparse, out_of_frames, slot_level, tables_needed};
pub use self::region::{frame_is_free, region_frames_ok};
pub use self::root::kernel_half;
pub use self::sound::{entry_fits, lemma_empty_root_sound, lemma_sound_add_table, lemma_sound_leaf_write, lemma_sound_tables_ok, lemma_sound_walks, lemma_sound_write, links_unique, sound_with, tables_sound, tables_tree};
