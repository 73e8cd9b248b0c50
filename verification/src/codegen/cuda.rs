//! CUDA backend. It recognizes no module yet.

use crate::codegen::backend::{
    Backend, Capabilities, CodegenError, CodegenFault, CodegenOpts, Lowering, MachineCode,
};
use crate::ir::module::IrModule;
use vstd::prelude::*;

verus! {

/// The cuda backend.
pub struct Cuda;

impl Backend for Cuda {
    open spec fn lowering(&self, ir: &IrModule, opts: &CodegenOpts) -> Lowering {
        Lowering::Fails(CodegenFault::NotImplemented)
    }

    fn name(&self) -> (s: &'static str)
        ensures
            s@ == "cuda"@,
    {
        "cuda"
    }

    fn capabilities(&self) -> (c: Capabilities)
        ensures
            c == (Capabilities {
                avx2: false,
                avx512f: false,
                neon: false,
                cuda: false,
                cores: 0,
                l1d_bytes: 0,
            }),
    {
        Capabilities::default()
    }

    fn lower(&self, _ir: &IrModule, _opts: &CodegenOpts) -> (r: Result<MachineCode, CodegenError>) {
        Err(CodegenError::NotImplemented)
    }
}

} // verus!
