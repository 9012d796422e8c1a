//! Why the kernel stopped: the panic codes and the texts shown for them.

use vstd::prelude::*;

verus! {

/// Why the kernel stopped.
#[derive(Clone, Copy, PartialEq, Eq, Structural, Debug)]
pub enum PanicCode {
    OutOfMemory,
    OutOfVirtualMemory,
    InvalidPageOperation,
    MisalignedAddress,
    InvalidPsf2MagicNumber,
    DoubleInitialization,
    UninitializedAccess,
    InitFailure,
}

/// The name of a panic code.
pub open spec fn code_name(c: PanicCode) -> Seq<char> {
    match c {
        PanicCode::OutOfMemory => "OutOfMemory"@,
        PanicCode::OutOfVirtualMemory => "OutOfVirtualMemory"@,
        PanicCode::InvalidPageOperation => "InvalidPageOperation"@,
        PanicCode::MisalignedAddress => "MisalignedAddress"@,
        PanicCode::InvalidPsf2MagicNumber => "InvalidPsf2MagicNumber"@,
        PanicCode::DoubleInitialization => "DoubleInitialization"@,
        PanicCode::UninitializedAccess => "UninitializedAccess"@,
        PanicCode::InitFailure => "InitFailure"@,
    }
}

/// The kind of error a panic code stands for.
pub open spec fn code_error_type(c: PanicCode) -> Seq<char> {
    match c {
        PanicCode::OutOfMemory | PanicCode::OutOfVirtualMemory => "Resource exhaustion"@,
        PanicCode::InvalidPageOperation | PanicCode::MisalignedAddress => "Memory management"@,
        PanicCode::InvalidPsf2MagicNumber => "Invalid data"@,
        PanicCode::DoubleInitialization | PanicCode::UninitializedAccess | PanicCode::InitFailure => "Initialization"@,
    }
}

impl PanicCode {
    /// The code's name.
    pub fn as_str(&self) -> (r: &'static str)
        ensures
            r@ == code_name(*self),
    {
        match self {
            PanicCode::OutOfMemory => "OutOfMemory",
            PanicCode::OutOfVirtualMemory => "OutOfVirtualMemory",
            PanicCode::InvalidPageOperation => "InvalidPageOperation",
            PanicCode::MisalignedAddress => "MisalignedAddress",
            PanicCode::InvalidPsf2MagicNumber => "InvalidPsf2MagicNumber",
            PanicCode::DoubleInitialization => "DoubleInitialization",
            PanicCode::UninitializedAccess => "UninitializedAccess",
            PanicCode::InitFailure => "InitFailure",
        }
    }

    /// The kind of error the code stands for.
    pub fn get_error_type_str(&self) -> (r: &'static str)
        ensures
            r@ == code_error_type(*self),
    {
        match self {
            PanicCode::OutOfMemory | PanicCode::OutOfVirtualMemory => "Resource exhaustion",
            PanicCode::InvalidPageOperation | PanicCode::MisalignedAddress => "Memory management",
            PanicCode::InvalidPsf2MagicNumber => "Invalid data",
            PanicCode::DoubleInitialization | PanicCode::UninitializedAccess | PanicCode::InitFailure => {
                "Initialization"
            },
        }
    }
}

} // verus!
