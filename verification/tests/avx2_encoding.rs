//! Bytes of the AVX2 instruction encoders.

use lumen::codegen::avx2_enc::{
    vaddss_xmm, vbroadcastss, vbroadcastss_xmm, vcvtdq2ps, vcvtph2ps_xmm, vcvtsi2ss_xmm_r32,
    vdivss_xmm, vextractf128_xmm, vfmadd231ps_mem, vhaddps_ymm, vmovd_load, vmovdqu_load,
    vmovups_load, vmulps_reg, vmulss_xmm, vpaddd_reg, vpcmpeqd_reg, vpmaddubsw_reg, vpmaddwd_reg,
    vpmovsxbd_load, vpsignb_reg, vpsrlw_imm8, vsqrtss_xmm, vxorps_zero, Ymm,
};
use lumen::codegen::emit::Emitter;
use lumen::codegen::x86_64_enc::{Reg, Scale};

fn enc<F: Fn(&mut Emitter)>(f: F) -> Vec<u8> {
    let mut em = Emitter::new();
    f(&mut em);
    em.buf
}

/// `vxorps ymm0, ymm0, ymm0` — 2-byte VEX form because all extension bits are 0.
/// Expected: C5 FC 57 C0
///   C5 FC: 2-byte VEX with vvvv=0000 inverted to 1111, L=1, pp=00, R̄=1
///   57   : opcode
///   C0   : ModR/M (mod=11, reg=000, rm=000)
#[test]
fn encodes_vxorps_ymm0() {
    assert_eq!(
        enc(|e| vxorps_zero(e, Ymm(0))),
        vec![0xC5, 0xFC, 0x57, 0xC0]
    );
}

/// `vmulps ymm0, ymm0, ymm1` — 2-byte VEX, dst=ymm0, src1=ymm0, src2=ymm1.
/// Expected: C5 FC 59 C1
#[test]
fn encodes_vmulps_ymm0_ymm0_ymm1() {
    assert_eq!(
        enc(|e| vmulps_reg(e, Ymm(0), Ymm(0), Ymm(1))),
        vec![0xC5, 0xFC, 0x59, 0xC1]
    );
}

/// `vbroadcastss ymm0, [rcx + 0]` — 3-byte VEX (opcode map 0F 38).
/// Expected: C4 E2 7D 18 81 00 00 00 00
#[test]
fn encodes_vbroadcastss_xmm0_from_rcx() {
    assert_eq!(
        enc(|e| vbroadcastss(e, Ymm(0), Reg::RCX, None, 0)),
        vec![0xC4, 0xE2, 0x7D, 0x18, 0x81, 0x00, 0x00, 0x00, 0x00]
    );
}

/// `vmovups ymm0, [rdx + 0]` — 2-byte VEX, opcode map 0F.
/// Expected: C5 FC 10 82 00 00 00 00
#[test]
fn encodes_vmovups_load_from_rdx() {
    assert_eq!(
        enc(|e| vmovups_load(e, Ymm(0), Reg::RDX, None, 0)),
        vec![0xC5, 0xFC, 0x10, 0x82, 0x00, 0x00, 0x00, 0x00]
    );
}

/// `vfmadd231ps ymm2, ymm0, [r13 + rax*4 + 0]` — 3-byte VEX, REX.B set
/// because r13 base is in the upper bank.
#[test]
fn encodes_vfmadd231ps_with_sib() {
    // Sanity: just make sure it produces a non-empty buffer with 0xB8 opcode.
    let bytes =
        enc(|e| vfmadd231ps_mem(e, Ymm(2), Ymm(0), Reg::R13, Some((Reg::RAX, Scale::S4)), 0));
    assert_eq!(bytes[0], 0xC4); // 3-byte VEX
    assert!(bytes.contains(&0xB8));
}

#[test]
fn encodes_vcvtph2ps_xmm() {
    let bytes = enc(|e| vcvtph2ps_xmm(e, Ymm(0), Ymm(0)));
    assert_eq!(bytes[0], 0xC4); // 3-byte VEX (0F 38 map)
    assert!(bytes.contains(&0x13));
}

#[test]
fn encodes_vpmovsxbd_load() {
    let bytes = enc(|e| vpmovsxbd_load(e, Ymm(1), Reg::RDX, None, 0));
    assert_eq!(bytes[0], 0xC4);
    assert!(bytes.contains(&0x21));
}

#[test]
fn encodes_vcvtdq2ps() {
    let bytes = enc(|e| vcvtdq2ps(e, Ymm(1), Ymm(1)));
    assert!(bytes.contains(&0x5B));
}

#[test]
fn encodes_vmovd_load() {
    let bytes = enc(|e| vmovd_load(e, Ymm(0), Reg::RCX, None, 0));
    assert!(bytes.contains(&0x6E));
}

#[test]
fn encodes_vbroadcastss_xmm_to_ymm() {
    let bytes = enc(|e| vbroadcastss_xmm(e, Ymm(0), Ymm(0)));
    assert_eq!(bytes[0], 0xC4);
    assert!(bytes.contains(&0x18));
    // last byte is ModR/M with mod=11
    assert!(bytes[bytes.len() - 1] & 0b1100_0000 == 0b1100_0000);
}

#[test]
fn encodes_vcvtsi2ss_xmm_r32() {
    // vcvtsi2ss xmm0, xmm0, eax
    let bytes = enc(|e| vcvtsi2ss_xmm_r32(e, Ymm(0), Ymm(0), Reg::RAX));
    // 2-byte VEX: C5 [R̄=1 vvvv=1111(~0) L=0 pp=10(F3)] = C5 FA, opcode 2A, ModR/M
    assert_eq!(bytes[0], 0xC5);
    assert!(bytes.contains(&0x2A));
}

#[test]
fn encodes_vmulss_xmm() {
    // vmulss xmm0, xmm0, xmm0
    let bytes = enc(|e| vmulss_xmm(e, Ymm(0), Ymm(0), Ymm(0)));
    assert_eq!(bytes[0], 0xC5);
    assert!(bytes.contains(&0x59));
}

#[test]
fn encodes_vhaddps_ymm() {
    // vhaddps ymm0, ymm0, ymm0
    let bytes = enc(|e| vhaddps_ymm(e, Ymm(0), Ymm(0), Ymm(0)));
    assert_eq!(bytes[0], 0xC5);
    assert!(bytes.contains(&0x7C));
}

#[test]
fn encodes_vextractf128_xmm() {
    // vextractf128 xmm1, ymm0, 1
    let bytes = enc(|e| vextractf128_xmm(e, Ymm(1), Ymm(0), 1));
    assert_eq!(bytes[0], 0xC4); // 3-byte VEX (0F 3A)
    assert!(bytes.contains(&0x19));
    assert_eq!(*bytes.last().unwrap(), 1);
}

#[test]
fn encodes_vsqrtss_xmm() {
    let bytes = enc(|e| vsqrtss_xmm(e, Ymm(0), Ymm(0), Ymm(0)));
    assert_eq!(bytes[0], 0xC5);
    assert!(bytes.contains(&0x51));
}

#[test]
fn encodes_vdivss_xmm() {
    let bytes = enc(|e| vdivss_xmm(e, Ymm(0), Ymm(0), Ymm(0)));
    assert_eq!(bytes[0], 0xC5);
    assert!(bytes.contains(&0x5E));
}

#[test]
fn encodes_vaddss_xmm() {
    let bytes = enc(|e| vaddss_xmm(e, Ymm(0), Ymm(0), Ymm(0)));
    assert_eq!(bytes[0], 0xC5);
    assert!(bytes.contains(&0x58));
}

#[test]
fn encodes_vmovdqu_load() {
    // `vmovdqu ymm0, [rdx + 0]` — F3.0F map, opcode 6F.
    let bytes = enc(|e| vmovdqu_load(e, Ymm(0), Reg::RDX, None, 0));
    assert!(bytes[0] == 0xC5 || bytes[0] == 0xC4);
    assert!(bytes.contains(&0x6F));
}

#[test]
fn encodes_vpsignb_reg() {
    // `vpsignb ymm0, ymm0, ymm0` — 66.0F38 map, opcode 08.
    let bytes = enc(|e| vpsignb_reg(e, Ymm(0), Ymm(0), Ymm(0)));
    assert_eq!(bytes[0], 0xC4); // 3-byte VEX (0F 38 map)
    assert!(bytes.contains(&0x08));
}

#[test]
fn encodes_vpmaddubsw_reg() {
    // `vpmaddubsw ymm0, ymm0, ymm0` — 66.0F38 map, opcode 04.
    let bytes = enc(|e| vpmaddubsw_reg(e, Ymm(0), Ymm(0), Ymm(0)));
    assert_eq!(bytes[0], 0xC4); // 3-byte VEX (0F 38 map)
    assert!(bytes.contains(&0x04));
}

#[test]
fn encodes_vpmaddwd_reg() {
    // `vpmaddwd ymm0, ymm0, ymm0` — 66.0F map, opcode F5.
    let bytes = enc(|e| vpmaddwd_reg(e, Ymm(0), Ymm(0), Ymm(0)));
    assert!(bytes[0] == 0xC5 || bytes[0] == 0xC4);
    assert!(bytes.contains(&0xF5));
}

#[test]
fn encodes_vpaddd_reg() {
    // `vpaddd ymm0, ymm0, ymm0` — 66.0F map, opcode FE.
    let bytes = enc(|e| vpaddd_reg(e, Ymm(0), Ymm(0), Ymm(0)));
    assert!(bytes[0] == 0xC5 || bytes[0] == 0xC4);
    assert!(bytes.contains(&0xFE));
}

#[test]
fn encodes_vpcmpeqd_reg() {
    // `vpcmpeqd ymm0, ymm0, ymm0` — 66.0F map, opcode 76.
    let bytes = enc(|e| vpcmpeqd_reg(e, Ymm(0), Ymm(0), Ymm(0)));
    assert!(bytes[0] == 0xC5 || bytes[0] == 0xC4);
    assert!(bytes.contains(&0x76));
}

#[test]
fn encodes_vpsrlw_imm8() {
    // `vpsrlw ymm0, ymm0, 15` — 66.0F map, opcode 71 with /2 extension.
    let bytes = enc(|e| vpsrlw_imm8(e, Ymm(0), Ymm(0), 15));
    assert!(bytes[0] == 0xC5 || bytes[0] == 0xC4);
    assert!(bytes.contains(&0x71));
    assert_eq!(*bytes.last().unwrap(), 15);
}
