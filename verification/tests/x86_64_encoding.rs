//! Bytes of the integer and scalar instruction encoders, and the registers of
//! the calling conventions.

use lumen::codegen::emit::Emitter;
use lumen::codegen::x86_64::Abi;
use lumen::codegen::x86_64_enc::{
    cmp_ri32, inc_r, jmp_rel32_placeholder, mov_rr, movss_load, movss_store, patch_rel32, ret,
    xor_rr, Reg, Xmm,
};

fn enc<F: Fn(&mut Emitter)>(f: F) -> Vec<u8> {
    let mut em = Emitter::new();
    f(&mut em);
    em.buf
}

#[test]
fn encodes_ret() {
    assert_eq!(enc(ret), vec![0xC3]);
}

#[test]
fn encodes_xor_rax_rax() {
    // 48 31 C0
    assert_eq!(enc(|e| xor_rr(e, Reg::RAX)), vec![0x48, 0x31, 0xC0]);
}

#[test]
fn encodes_mov_rax_rcx() {
    // 48 89 C8  (mov rax, rcx — src is reg, dst is r/m)
    assert_eq!(
        enc(|e| mov_rr(e, Reg::RAX, Reg::RCX)),
        vec![0x48, 0x89, 0xC8]
    );
}

#[test]
fn encodes_inc_rax() {
    assert_eq!(enc(|e| inc_r(e, Reg::RAX)), vec![0x48, 0xFF, 0xC0]);
}

#[test]
fn encodes_cmp_rax_42() {
    // 48 81 F8 2A 00 00 00
    assert_eq!(
        enc(|e| cmp_ri32(e, Reg::RAX, 42)),
        vec![0x48, 0x81, 0xF8, 0x2A, 0x00, 0x00, 0x00]
    );
}

#[test]
fn encodes_movss_load_rcx() {
    // movss xmm0, [rcx+0]; expected (no REX needed): F3 0F 10 81 00 00 00 00
    // We always emit disp32 form -> ModR/M=10 000 001
    assert_eq!(
        enc(|e| movss_load(e, Xmm(0), Reg::RCX, None, 0)),
        vec![0xF3, 0x0F, 0x10, 0x81, 0x00, 0x00, 0x00, 0x00]
    );
}

#[test]
fn encodes_movss_store_r8() {
    // movss [r8+0], xmm0; needs REX.B for R8 base
    // F3 41 0F 11 80 00 00 00 00
    assert_eq!(
        enc(|e| movss_store(e, Xmm(0), Reg::R8, None, 0)),
        vec![0xF3, 0x41, 0x0F, 0x11, 0x80, 0x00, 0x00, 0x00, 0x00]
    );
}

#[test]
fn encodes_jmp_rel32_placeholder_and_patch() {
    let mut em = Emitter::new();
    let off = jmp_rel32_placeholder(&mut em);
    let target = em.len();
    patch_rel32(&mut em, off, target); // jump to next instruction = 0 rel
                                       // E9 00 00 00 00
    assert_eq!(em.buf, vec![0xE9, 0x00, 0x00, 0x00, 0x00]);
}

#[test]
fn abi_param_regs() {
    assert_eq!(Abi::WinX64.param_reg(0), Reg::RCX);
    assert_eq!(Abi::WinX64.param_reg(1), Reg::RDX);
    assert_eq!(Abi::WinX64.param_reg(2), Reg::R8);
    assert_eq!(Abi::SysV.param_reg(0), Reg::RDI);
    assert_eq!(Abi::SysV.param_reg(1), Reg::RSI);
    assert_eq!(Abi::SysV.param_reg(2), Reg::RDX);
}
