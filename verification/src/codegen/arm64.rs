//! ARM64 (AArch64) backend. It recognizes no module yet.

use crate::codegen::backend::{
    Backend, Capabilities, CodegenError, CodegenFault, CodegenOpts, Lowering, MachineCode,
};
use crate::ir::module::IrModule;
use vstd::prelude::*;

verus! {

/// The arm64 backend.
pub struct Arm64;

impl Backend for Arm64 {
    open spec fn lowering(&self, ir: &IrModule, opts: &CodegenOpts) -> Lowering {
        Lowering::Fails(CodegenFault::NotImplemented)
    }

    fn name(&self) -> (s: &'static str)
        ensures
            s@ == "arm64"@,
    {
        "arm64"
    }

    fn capabilities(&self) -> (c: Capabilities)
        ensures
            c == (Capabilities {
                avx2: false,
                avx512f: false,
                neon: false,
                cuda: false,
                cores: 0,
                l1d_bytes: 0,
            }),
    {
        Capabilities::default()
    }

    fn lower(&self, _ir: &IrModule, _opts: &CodegenOpts) -> (r: Result<MachineCode, CodegenError>) {
        Err(CodegenError::NotImplemented)
    }
}

} // verus!
