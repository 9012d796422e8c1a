use ferrite::mm::address_space::AddressSpace;
use ferrite::mm::layout::{KERNEL_STACKS_BASE, KERNEL_STACK_SIZE, KERNEL_STACK_SLOT_SIZE};
use ferrite::mm::pmm::{MemmapEntry, Pmm, MEMMAP_USABLE};
use ferrite::state::mm::Mm;
use ferrite::screen::font::{Psf2Font, MAGIC_NUMBER};
use ferrite::screen::framebuffer::BasicFramebuffer;
use ferrite::state::cpu::{Cpu, GlobalCpuState};
use ferrite::state::simple_state::SimpleKernelState;

#[test]
fn simple_state_initialization_flags() {
    let mut st = SimpleKernelState::new();
    assert!(!st.is_basic_fb_initialized());
    assert!(!st.is_basic_fb_psf2_font_initialized());
    st.init_basic_fb(BasicFramebuffer::new(4, 4, 4));
    assert!(st.is_basic_fb_initialized());
    assert!(!st.is_basic_fb_psf2_font_initialized());
    let mut b = Vec::new();
    for v in [MAGIC_NUMBER, 0, 32, 0, 1, 1, 1, 8] {
        b.extend_from_slice(&v.to_le_bytes());
    }
    b.push(0);
    st.init_basic_fb_psf2_font(Psf2Font::init(b));
    assert!(st.is_basic_fb_psf2_font_initialized());
    assert_eq!(st.basic_fb_psf2_font().glyph_height(), 1);
    st.basic_fb().pixels[0] = 7;
    assert_eq!(st.basic_fb().pixels[0], 7);
    assert_eq!(st.basic_fb().width, 4);
}

#[test]
fn cpu_selectors() {
    let mut g = GlobalCpuState::new();
    assert_eq!((g.user_code_selector(), g.user_data_selector()), (0, 0));
    g.set_user_selectors(0x1b, 0x23);
    assert_eq!((g.user_code_selector(), g.user_data_selector()), (0x1b, 0x23));
    let mut c = Cpu::new();
    c.set_user_selectors(0x2b, 0x33);
    assert_eq!(c.user_code_selector(), 0x2b);
    assert_eq!(c.user_data_selector(), 0x33);
    assert_eq!(c.global_cpu_state().user_code_selector(), 0x2b);
}

#[test]
fn mm_state_starts_empty_and_takes_values() {
    let mut mm = Mm::new();
    assert_eq!(mm.hhdm_offset(), 0);
    mm.set_hhdm_offset(0xffff_8000_0000_0000);
    assert_eq!(mm.hhdm_offset(), 0xffff_8000_0000_0000);
    mm.init_pmm(Pmm::init(&[MemmapEntry { base: 0x10000, length: 0x1000, type_: MEMMAP_USABLE }]));
    assert_eq!(mm.pmm().alloc_frame(), Some(0x10000));
    assert_eq!(mm.pmm().alloc_frame(), None);
    mm.init_kernel_addr_space(AddressSpace::empty(0x7000));
    assert_eq!(mm.kernel_addr_space().page_ptr(), 0x7000);
}

#[test]
fn mm_kernel_stack_slots_are_consecutive() {
    let mut mm = Mm::new();
    mm.init();
    let a = mm.alloc_kernel_stack_slot();
    let b = mm.alloc_kernel_stack_slot();
    assert_eq!(a, KERNEL_STACKS_BASE);
    assert_eq!(b, KERNEL_STACKS_BASE + KERNEL_STACK_SLOT_SIZE);
    assert!(KERNEL_STACK_SLOT_SIZE >= KERNEL_STACK_SIZE + 0x1000);
}

#[test]
fn selectors_are_the_last_pair_set() {
    let mut g = GlobalCpuState::new();
    assert_eq!((g.user_code_selector(), g.user_data_selector()), (0, 0));
    g.set_user_selectors(0x1b, 0x23);
    assert_eq!(g.user_code_selector(), 0x1b);
    g.set_user_selectors(0x2b, 0x33);
    assert_eq!((g.user_code_selector(), g.user_data_selector()), (0x2b, 0x33));
}

#[test]
fn uart_is_moved_in_once_and_kept() {
    let mut st = SimpleKernelState::new();
    assert!(!st.is_uart_initialized());
    st.init_uart(0x3f8);
    assert!(st.is_uart_initialized());
    assert_eq!(st.uart(), 0x3f8);
    assert!(!st.is_basic_fb_initialized());
    st.init_basic_fb(BasicFramebuffer::new(4, 4, 4));
    assert!(st.is_uart_initialized());
    assert_eq!(st.uart(), 0x3f8);
}
