//! CPU state shared by all CPUs: the user code and data segment selectors.

use crate::state::setting::{lemma_value_after, run_of, value_after};
use vstd::prelude::*;

verus! {

/// Global CPU state: the user code and data selectors.
pub struct GlobalCpuState {
    user_code_selector: u16,
    user_data_selector: u16,
}

impl GlobalCpuState {
    /// The user code selector.
    pub closed spec fn code(&self) -> u16 {
        self.user_code_selector
    }

    /// The user data selector.
    pub closed spec fn data(&self) -> u16 {
        self.user_data_selector
    }

    /// Zeroed selectors.
    pub fn new() -> (r: Self)
        ensures
            r.code() == 0,
            r.data() == 0,
    {
        GlobalCpuState { user_code_selector: 0, user_data_selector: 0 }
    }

    /// Set the user code and data selectors.
    pub fn set_user_selectors(&mut self, code: u16, data: u16)
        ensures
            final(self).code() == code,
            final(self).data() == data,
    {
        self.user_code_selector = code;
        self.user_data_selector = data;
    }

    /// Getter for the user code selector.
    pub fn user_code_selector(&self) -> (r: u16)
        ensures
            r == self.code(),
    {
        self.user_code_selector
    }

    /// Getter for the user data selector.
    pub fn user_data_selector(&self) -> (r: u16)
        ensures
            r == self.data(),
    {
        self.user_data_selector
    }
}

/// Over a run of calls on a [`GlobalCpuState`], the selectors are the pair the last
/// `set_user_selectors(code, data)` set, code as code and data as data, and stay as they
/// started where no call set them (zero after [`GlobalCpuState::new`]). In `calls`,
/// `Some((code, data))` stands for `set_user_selectors(code, data)` and `None` for any
/// other call, which keeps both selectors.
pub proof fn law_selectors_last_set(states: Seq<GlobalCpuState>, calls: Seq<Option<(u16, u16)>>)
    requires
        states.len() == calls.len() + 1,
        forall|i: int|
            #![trigger calls[i]]
            0 <= i < calls.len() ==> (states[i + 1].code(), states[i + 1].data()) == match calls[i] {
                Some(sel) => sel,
                None => (states[i].code(), states[i].data()),
            },
    ensures
        (states.last().code(), states.last().data()) == value_after(
            (states[0].code(), states[0].data()),
            calls,
        ),
        (forall|i: int| 0 <= i < calls.len() ==> #[trigger] calls[i] is None) ==> states.last().code()
            == states[0].code() && states.last().data() == states[0].data(),
        forall|i: int|
            #![trigger calls[i]]
            0 <= i < calls.len() && calls[i] is Some && (forall|j: int|
                i < j < calls.len() ==> #[trigger] calls[j] is None) ==> calls[i] == Some(
                (states.last().code(), states.last().data()),
            ),
{
    let values = Seq::new(states.len(), |i: int| (states[i].code(), states[i].data()));
    assert(run_of(values, calls));
    lemma_value_after(values, calls);
    assert(values.last() == (states.last().code(), states.last().data()));
}

/// The CPU state of the kernel.
pub struct Cpu {
    global_cpu_state: GlobalCpuState,
}

impl Cpu {
    /// The global CPU state.
    pub closed spec fn global(&self) -> GlobalCpuState {
        self.global_cpu_state
    }

    /// Construct with zeroed selectors.
    pub fn new() -> (r: Self)
        ensures
            r.global().code() == 0,
            r.global().data() == 0,
    {
        Cpu { global_cpu_state: GlobalCpuState::new() }
    }

    /// Getter for the global CPU state.
    pub fn global_cpu_state(&self) -> (r: &GlobalCpuState)
        ensures
            *r == self.global(),
    {
        &self.global_cpu_state
    }

    /// Set the user data and code selectors.
    pub fn set_user_selectors(&mut self, code: u16, data: u16)
        ensures
            final(self).global().code() == code,
            final(self).global().data() == data,
    {
        self.global_cpu_state.set_user_selectors(code, data);
    }

    /// Getter for the user code selector.
    pub fn user_code_selector(&self) -> (r: u16)
        ensures
            r == self.global().code(),
    {
        self.global_cpu_state.user_code_selector()
    }

    /// Getter for the user data selector.
    pub fn user_data_selector(&self) -> (r: u16)
        ensures
            r == self.global().data(),
    {
        self.global_cpu_state.user_data_selector()
    }
}

} // verus!
