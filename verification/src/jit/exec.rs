//! Machine code that is ready to be mapped as executable memory.

use crate::codegen::backend::MachineCode;
use vstd::prelude::*;

verus! {

/// Why a region could not be set up.
#[derive(Debug)]
pub enum ExecError {
    /// The platform has no executable memory to give.
    NotImplemented,
}

impl ExecError {
    /// The message shown to the user.
    pub open spec fn text(&self) -> Seq<char> {
        match self {
            ExecError::NotImplemented => "executable memory allocation not implemented yet"@,
        }
    }

    /// The message shown to the user.
    pub fn message(&self) -> (m: String)
        ensures
            m@ == self.text(),
    {
        match self {
            ExecError::NotImplemented => {
                "executable memory allocation not implemented yet".to_string()
            },
        }
    }
}

/// The image of a region of executable memory: the bytes of a function, and
/// where it is entered. Whoever maps it copies the bytes to fresh pages, and
/// makes these executable once they are no longer writable.
#[derive(Debug)]
pub struct ExecRegion {
    bytes: Vec<u8>,
    entry_offset: usize,
}

impl ExecRegion {
    /// The bytes of the region.
    pub closed spec fn image(&self) -> Seq<u8> {
        self.bytes@
    }

    /// Where the code is entered.
    pub closed spec fn entry(&self) -> nat {
        self.entry_offset as nat
    }

    /// The region of some machine code.
    pub fn from_machine_code(code: &MachineCode) -> (r: Result<Self, ExecError>)
        ensures
            r matches Ok(region) && region.image() == code.bytes@ && region.entry()
                == code.entry_offset,
    {
        Ok(ExecRegion { bytes: code.bytes.clone(), entry_offset: code.entry_offset })
    }

    /// The bytes of the region.
    pub fn bytes(&self) -> (b: &[u8])
        ensures
            b@ == self.image(),
    {
        self.bytes.as_slice()
    }

    /// Where the code is entered.
    pub fn entry_offset(&self) -> (n: usize)
        ensures
            n == self.entry(),
    {
        self.entry_offset
    }
}

} // verus!
