//! Common backend trait.

use crate::codegen::x86_64::VnniForm;
use crate::ir::module::IrModule;
use crate::ir::op::{quoted, quoted_text};
use crate::text::push_text;
use vstd::prelude::*;

verus! {

/// What the hardware offers.
#[derive(Clone, Debug)]
pub struct Capabilities {
    pub avx2: bool,
    pub avx512f: bool,
    pub neon: bool,
    pub cuda: bool,
    /// Logical cores.
    pub cores: u32,
    /// L1 data cache per core, bytes.
    pub l1d_bytes: u32,
}

impl Default for Capabilities {
    fn default() -> (c: Self)
        ensures
            c == (Capabilities {
                avx2: false,
                avx512f: false,
                neon: false,
                cuda: false,
                cores: 0,
                l1d_bytes: 0,
            }),
    {
        Capabilities { avx2: false, avx512f: false, neon: false, cuda: false, cores: 0, l1d_bytes: 0 }
    }
}

/// Options of one compilation.
#[derive(Clone, Debug)]
pub struct CodegenOpts {
    /// 0..=3
    pub opt_level: u8,
    pub dump_asm: bool,
    /// If set, the Q8 x Q8 fused matmul kernel emits `vpdpbusd` in either VEX
    /// (AVX-VNNI) or EVEX (AVX-512 VNNI) form instead of the
    /// `vpsignb` + `vpmaddubsw` + `vpmaddwd` chain.
    pub vnni: Option<VnniForm>,
    /// If true, the Q8 x F32 fused matmul kernel emits ZMM-wide (16 fp32 lane)
    /// inner loops instead of YMM-wide (8 fp32 lane). Requires AVX-512F and
    /// AVX-512BW.
    pub use_avx512: bool,
}

impl Default for CodegenOpts {
    fn default() -> (o: Self)
        ensures
            o.opt_level == 0,
            !o.dump_asm,
            o.vnni is None,
            !o.use_avx512,
    {
        CodegenOpts {
            opt_level: 0,
            dump_asm: false,
            vnni: None,
            use_avx512: false,
        }
    }
}

/// A buffer of native machine code.
pub struct MachineCode {
    pub bytes: Vec<u8>,
    pub entry_offset: usize,
}

/// Why a module could not be compiled.
#[derive(Debug)]
pub enum CodegenError {
    UnsupportedOp(String),
    ShapeError(String),
    NotImplemented,
}

/// What a [`CodegenError`] says.
pub enum CodegenFault {
    UnsupportedOp(Seq<char>),
    ShapeError(Seq<char>),
    NotImplemented,
}

impl View for CodegenError {
    type V = CodegenFault;

    open spec fn view(&self) -> CodegenFault {
        match self {
            CodegenError::UnsupportedOp(s) => CodegenFault::UnsupportedOp(s@),
            CodegenError::ShapeError(s) => CodegenFault::ShapeError(s@),
            CodegenError::NotImplemented => CodegenFault::NotImplemented,
        }
    }
}

impl CodegenFault {
    /// The message shown to the user.
    pub open spec fn text(self) -> Seq<char> {
        match self {
            CodegenFault::UnsupportedOp(s) => "unsupported op: "@ + s,
            CodegenFault::ShapeError(s) => "shape constraint violated: "@ + s,
            CodegenFault::NotImplemented => "backend not implemented yet"@,
        }
    }
}

impl CodegenFault {
    /// The error with its name and its text in quotes, for diagnostics.
    pub open spec fn debug(self) -> Seq<char> {
        match self {
            CodegenFault::UnsupportedOp(s) => "UnsupportedOp("@ + quoted_text(s) + ")"@,
            CodegenFault::ShapeError(s) => "ShapeError("@ + quoted_text(s) + ")"@,
            CodegenFault::NotImplemented => "NotImplemented"@,
        }
    }
}

impl CodegenError {
    /// The error with its name and its text in quotes, for diagnostics.
    pub fn debug_text(&self) -> (m: String)
        ensures
            m@ == self@.debug(),
    {
        match self {
            CodegenError::UnsupportedOp(s) => {
                let mut m: String = "UnsupportedOp(".to_string();
                let q = quoted(s.as_str());
                push_text(&mut m, q.as_str());
                push_text(&mut m, ")");
                m
            },
            CodegenError::ShapeError(s) => {
                let mut m: String = "ShapeError(".to_string();
                let q = quoted(s.as_str());
                push_text(&mut m, q.as_str());
                push_text(&mut m, ")");
                m
            },
            CodegenError::NotImplemented => "NotImplemented".to_string(),
        }
    }

    /// The message shown to the user.
    pub fn message(&self) -> (m: String)
        ensures
            m@ == self@.text(),
    {
        match self {
            CodegenError::UnsupportedOp(s) => {
                let mut m: String = "unsupported op: ".to_string();
                push_text(&mut m, s.as_str());
                m
            },
            CodegenError::ShapeError(s) => {
                let mut m: String = "shape constraint violated: ".to_string();
                push_text(&mut m, s.as_str());
                m
            },
            CodegenError::NotImplemented => "backend not implemented yet".to_string(),
        }
    }
}

/// What compiling a module comes to.
pub enum Lowering {
    /// Machine code, entered at its first byte.
    Emits(Seq<u8>),
    Fails(CodegenFault),
    /// The module is outside of what the backend is defined on: an operand
    /// that is no value of the function, more parameters than fit in
    /// registers, or a dimension that no 32-bit immediate holds.
    Undefined,
}

/// `r` is what `l` says.
pub open spec fn lowers_to(l: Lowering, r: Result<MachineCode, CodegenError>) -> bool {
    match l {
        Lowering::Emits(bytes) => r matches Ok(code) && code.bytes@ == bytes && code.entry_offset
            == 0,
        Lowering::Fails(e) => r matches Err(err) && err@ == e,
        Lowering::Undefined => false,
    }
}

/// A code generator for one target.
pub trait Backend {
    /// What [`Backend::lower`] comes to.
    spec fn lowering(&self, ir: &IrModule, opts: &CodegenOpts) -> Lowering;

    fn name(&self) -> (s: &'static str);

    fn capabilities(&self) -> (c: Capabilities);

    fn lower(&self, ir: &IrModule, opts: &CodegenOpts) -> (r: Result<MachineCode, CodegenError>)
        requires
            !(self.lowering(ir, opts) is Undefined),
        ensures
            lowers_to(self.lowering(ir, opts), r),
    ;
}

} // verus!
