//! Instructions read back: the bytes of every instruction are taken apart by the
//! formats of the instruction set, and give its opcode and its operands.

use crate::bytes::{le_bytes, le_value, lemma_le_value_of_le_bytes, lemma_pow256_values, wrap32};
use crate::codegen::assembler::{
    inst_bytes, ByteInst, ConvInst, FloatInst, IntInst, MemInst, SseInst, ZmmInst, Inst, Mem,
};
use crate::codegen::avx2_enc::{
    enc_vaddps_reg, enc_vaddps_zmm_reg, enc_vaddss_xmm, enc_vbroadcastss, enc_vbroadcastss_xmm,
    enc_vbroadcastss_zmm_xmm, enc_vcvtdq2ps, enc_vcvtdq2ps_zmm, enc_vcvtph2ps_xmm,
    enc_vcvtsi2ss_xmm_r32, enc_vdivss_xmm, enc_vextractf128_xmm, enc_vextractf32x8_zmm,
    enc_vfmadd231ps_mem, enc_vfmadd231ps_reg, enc_vfmadd231ps_zmm_mem, enc_vhaddps_ymm,
    enc_vmovd_load, enc_vmovd_load_reg, enc_vmovdqu_load, enc_vmovups_load, enc_vmovups_store,
    enc_vmulps_reg, enc_vmulps_zmm_reg, enc_vmulss_xmm, enc_vpaddd_reg, enc_vpcmpeqd_reg,
    enc_vpdpbusd_evex_reg, enc_vpdpbusd_vex_reg, enc_vpmaddubsw_reg, enc_vpmaddwd_reg,
    enc_vpmovsxbd_load, enc_vpmovsxbd_zmm_load, enc_vpsignb_reg, enc_vpsrlw_imm8, enc_vsqrtss_xmm,
    enc_vxorps_zero, enc_vxorps_zmm_zero, evex_bytes, vex_bytes, OpcodeMap, Prefix, Ymm, Zmm,
};
use crate::codegen::x86_64_enc::{
    enc_add_ri32, enc_add_rr, enc_addss_load, enc_addss_xmm, enc_cmp_ri32, enc_imul_rri32,
    enc_inc_r, enc_jcc_rel32, enc_jmp_rel32, enc_mov_ri32, enc_mov_ri64, enc_mov_rr,
    enc_movss_load, enc_movss_store, enc_movsx_r32_m8, enc_mulss_load, enc_mulss_xmm, enc_pop_r64,
    enc_push_r64, enc_ret, enc_sub_ri32, enc_xor_rr, enc_xorps_self, imm32, index_high, mem_bytes,
    mem_ok, modrm_byte, opt_rex, rex_byte, sib_byte, Cond, Reg, Scale, Xmm,
};
use vstd::prelude::*;

verus! {

// ---- reading ----------------------------------------------------------------------------

/// What comes before the operands of an instruction.
pub struct Read {
    /// 0: none, 1: `66`, 2: `F3`, 3: `F2`.
    pub prefix: int,
    /// 0: one-byte opcodes, 1: `0F`, 2: `0F 38`, 3: `0F 3A`.
    pub map: int,
    /// The size bit.
    pub w: int,
    /// 0: 128 bits, 1: 256 bits, 2: 512 bits.
    pub ll: int,
    /// The register beside the operands.
    pub beside: int,
    /// What extends the `reg` field, the index and the `rm` field or the base.
    pub r: int,
    pub x: int,
    pub b: int,
    pub op: u8,
    /// ModR/M and what follows.
    pub rest: Seq<u8>,
}

/// A VEX instruction. Register bits are stored inverted.
pub open spec fn read_vex(s: Seq<u8>) -> Option<Read> {
    if s.len() >= 3 && s[0] == 0xC5 {
        let p = s[1] as int;
        Some(
            Read {
                prefix: p % 4,
                map: 1,
                w: 0,
                ll: p / 4 % 2,
                beside: 15 - p / 8 % 16,
                r: 1 - p / 128,
                x: 0,
                b: 0,
                op: s[2],
                rest: s.skip(3),
            },
        )
    } else if s.len() >= 4 && s[0] == 0xC4 {
        let p = s[1] as int;
        let q = s[2] as int;
        Some(
            Read {
                prefix: q % 4,
                map: p % 32,
                w: q / 128,
                ll: q / 4 % 2,
                beside: 15 - q / 8 % 16,
                r: 1 - p / 128,
                x: 1 - p / 64 % 2,
                b: 1 - p / 32 % 2,
                op: s[3],
                rest: s.skip(4),
            },
        )
    } else {
        None
    }
}

/// An EVEX instruction without mask, zeroing and broadcast.
pub open spec fn read_evex(s: Seq<u8>) -> Option<Read> {
    if s.len() >= 5 && s[0] == 0x62 {
        let p = s[1] as int;
        let q = s[2] as int;
        let o = s[3] as int;
        if p / 4 % 4 == 0 && q / 4 % 2 == 1 && o / 128 == 0 && o / 16 % 2 == 0 && o % 8 == 0 {
            Some(
                Read {
                    prefix: q % 4,
                    map: p % 4,
                    w: q / 128,
                    ll: o / 32 % 4,
                    beside: 15 - q / 8 % 16 + 16 * (1 - o / 8 % 2),
                    r: (1 - p / 128) + 2 * (1 - p / 16 % 2),
                    x: 1 - p / 64 % 2,
                    b: 1 - p / 32 % 2,
                    op: s[4],
                    rest: s.skip(5),
                },
            )
        } else {
            None
        }
    } else {
        None
    }
}

/// An instruction with an optional `F3` and an optional REX prefix.
pub open spec fn read_legacy(s: Seq<u8>) -> Option<Read> {
    let f3 = s.len() > 0 && s[0] == 0xF3;
    let t = if f3 {
        s.skip(1)
    } else {
        s
    };
    let rex = t.len() > 0 && t[0] / 16 == 4;
    let e = if rex {
        t[0] as int
    } else {
        0int
    };
    let u = if rex {
        t.skip(1)
    } else {
        t
    };
    let wide = u.len() > 1 && u[0] == 0x0F;
    let v = if wide {
        u.skip(1)
    } else {
        u
    };
    if v.len() > 0 {
        Some(
            Read {
                prefix: if f3 {
                    2int
                } else {
                    0int
                },
                map: if wide {
                    1int
                } else {
                    0int
                },
                w: e / 8 % 2,
                ll: 0,
                beside: 0,
                r: e / 4 % 2,
                x: e / 2 % 2,
                b: e % 2,
                op: v[0],
                rest: v.skip(1),
            },
        )
    } else {
        None
    }
}

/// The number of a general-purpose register.
pub open spec fn number(r: Reg) -> u8 {
    match r {
        Reg::RAX => 0,
        Reg::RCX => 1,
        Reg::RDX => 2,
        Reg::RBX => 3,
        Reg::RSP => 4,
        Reg::RBP => 5,
        Reg::RSI => 6,
        Reg::RDI => 7,
        Reg::R8 => 8,
        Reg::R9 => 9,
        Reg::R10 => 10,
        Reg::R11 => 11,
        Reg::R12 => 12,
        Reg::R13 => 13,
        Reg::R14 => 14,
        Reg::R15 => 15,
    }
}

/// The two bits of a scale.
pub open spec fn scale_bits(s: Scale) -> int {
    match s {
        Scale::S1 => 0,
        Scale::S2 => 1,
        Scale::S4 => 2,
        Scale::S8 => 3,
    }
}

/// Four bytes as a signed number.
pub open spec fn signed32(s: Seq<u8>) -> int {
    let v = s[0] + 0x100 * s[1] + 0x1_0000 * s[2] + 0x100_0000 * s[3];
    if v >= 0x8000_0000 {
        v - 0x1_0000_0000
    } else {
        v
    }
}

/// ModR/M names two registers, and `imm` follows.
pub open spec fn two_registers(k: Read, reg: u8, rm: u8, imm: Seq<u8>) -> bool {
    &&& k.rest.len() >= 1
    &&& k.rest[0] / 64 == 3
    &&& 8 * k.r + k.rest[0] / 8 % 8 == reg
    &&& 16 * k.x + 8 * k.b + k.rest[0] % 8 == rm
    &&& k.rest.skip(1) == imm
}

/// ModR/M names a register and `[base + index * scale + disp]`.
pub open spec fn register_and_memory(
    k: Read,
    reg: u8,
    base: Reg,
    index: Option<(Reg, Scale)>,
    disp: i32,
) -> bool {
    &&& k.rest.len() >= 1
    &&& k.rest[0] / 64 == 2
    &&& 8 * k.r + k.rest[0] / 8 % 8 == reg
    &&& match index {
        None => {
            &&& k.rest.len() == 5
            &&& k.rest[0] % 8 != 4
            &&& k.x == 0
            &&& 8 * k.b + k.rest[0] % 8 == number(base)
            &&& signed32(k.rest.skip(1)) == disp
        },
        Some((i, scale)) => {
            &&& k.rest.len() == 6
            &&& k.rest[0] % 8 == 4
            &&& k.rest[1] / 64 == scale_bits(scale)
            &&& 8 * k.x + k.rest[1] / 8 % 8 == number(i)
            &&& 8 * k.b + k.rest[1] % 8 == number(base)
            &&& signed32(k.rest.skip(2)) == disp
        },
    }
}

/// The opcode and what goes with it, with the size bit clear.
pub open spec fn named(k: Read, prefix: int, map: int, ll: int, op: u8, beside: u8) -> bool {
    k.prefix == prefix && k.map == map && k.w == 0 && k.ll == ll && k.op == op && k.beside == beside
}

// ---- proofs of the formats ----------------------------------------------------------------

proof fn lemma_signed(v: i32)
    ensures
        imm32(v).len() == 4,
        signed32(imm32(v)) == v,
{
    lemma_signed_wrap(v as int);
}

proof fn lemma_signed_wrap(v: int)
    requires
        -0x8000_0000 <= v < 0x8000_0000,
    ensures
        le_bytes(wrap32(v), 4).len() == 4,
        signed32(le_bytes(wrap32(v), 4)) == v,
{
    let n = wrap32(v);
    reveal_with_fuel(le_bytes, 5);
    let s = le_bytes(n, 4);
    assert(s =~= seq![
        (n % 256) as u8,
        (n / 256 % 256) as u8,
        (n / 256 / 256 % 256) as u8,
        (n / 256 / 256 / 256 % 256) as u8,
    ]);
}

/// The fields of the bytes of a VEX prefix.
proof fn lemma_vex_fields(r: int, x: int, b: int, m: int, v: int, l: int, pp: int)
    requires
        0 <= r <= 1,
        0 <= x <= 1,
        0 <= b <= 1,
        0 <= m < 4,
        0 <= v < 16,
        0 <= l <= 1,
        0 <= pp < 4,
    ensures
        ({
            let p = 128 * (1 - r) + 64 * (1 - x) + 32 * (1 - b) + m;
            let q = 8 * (15 - v) + 4 * l + pp;
            let c = 128 * (1 - r) + q;
            &&& 0 <= p < 256
            &&& p / 128 == 1 - r
            &&& p / 64 % 2 == 1 - x
            &&& p / 32 % 2 == 1 - b
            &&& p % 32 == m
            &&& 0 <= q < 128
            &&& q / 128 == 0
            &&& q / 8 % 16 == 15 - v
            &&& q / 4 % 2 == l
            &&& q % 4 == pp
            &&& 0 <= c < 256
            &&& c / 128 == 1 - r
            &&& c / 8 % 16 == 15 - v
            &&& c / 4 % 2 == l
            &&& c % 4 == pp
        }),
{
}

/// The fields of a ModR/M or SIB byte.
proof fn lemma_byte_fields(a: int, b: int, c: int)
    requires
        0 <= a < 4,
        0 <= b < 8,
        0 <= c < 8,
    ensures
        ({
            let p = 64 * a + 8 * b + c;
            0 <= p < 256 && p / 64 == a && p / 8 % 8 == b && p % 8 == c
        }),
{
}

proof fn lemma_vex(
    r: u8,
    x: u8,
    b: u8,
    map: OpcodeMap,
    vvvv: u8,
    wide: bool,
    pp: Prefix,
    op: u8,
    rest: Seq<u8>,
)
    requires
        r <= 1,
        x <= 1,
        b <= 1,
        vvvv < 16,
    ensures
        read_vex(vex_bytes(r, x, b, map, vvvv, wide, pp) + seq![op] + rest) matches Some(k)
            && k.prefix == pp.num() && k.map == map.num() && k.w == 0 && k.ll == (if wide {
            1int
        } else {
            0int
        }) && k.beside == vvvv && k.r == r && k.x == x && k.b == b && k.op == op && k.rest == rest,
{
    let l: int = if wide {
        1
    } else {
        0
    };
    lemma_vex_fields(
        r as int,
        x as int,
        b as int,
        map.num() as int,
        vvvv as int,
        l,
        pp.num() as int,
    );
    let v = vex_bytes(r, x, b, map, vvvv, wide, pp);
    assert(v.len() == 3 || v.len() == 2);
    let s = v + seq![op] + rest;
    assert(s.skip(v.len() as int + 1) =~= rest);
    assert(s[v.len() as int] == op);
    assert(s[0] == v[0] && s[1] == v[1]);
    if v.len() == 3 {
        assert(s[2] == v[2]);
    }
}

proof fn lemma_evex(
    reg: u8,
    x: u8,
    b: u8,
    map: OpcodeMap,
    vvvv: u8,
    ll: u8,
    pp: Prefix,
    op: u8,
    rest: Seq<u8>,
)
    requires
        reg < 32,
        vvvv < 32,
        ll < 4,
    ensures
        read_evex(evex_bytes(reg, x, b, map, vvvv, ll, pp) + seq![op] + rest) matches Some(k)
            && k.prefix == pp.num() && k.map == map.num() && k.w == 0 && k.ll == ll && k.beside
            == vvvv && k.r == reg / 8 && k.x == x % 2 && k.b == b % 2 && k.op == op && k.rest == rest,
{
    let v = evex_bytes(reg, x, b, map, vvvv, ll, pp);
    let s = v + seq![op] + rest;
    assert(s.skip(5) =~= rest);
    assert(s[4] == op);
    assert(s[0] == v[0] && s[1] == v[1] && s[2] == v[2] && s[3] == v[3]);
}

proof fn lemma_legacy(f3: bool, rex: Seq<u8>, w: bool, r: u8, x: u8, b: u8, op: u8, rest: Seq<u8>)
    requires
        r <= 1,
        x <= 1,
        b <= 1,
        rex == seq![rex_byte(w, r, x, b)] || (rex == Seq::<u8>::empty() && !w && r == 0 && x == 0
            && b == 0),
    ensures
        ({
            let head = if f3 {
                seq![0xF3u8]
            } else {
                Seq::empty()
            };
            &&& read_legacy(head + rex + seq![0x0Fu8, op] + rest) matches Some(k) && k.prefix == (
            if f3 {
                2int
            } else {
                0int
            }) && k.map == 1 && k.w == (if w {
                1int
            } else {
                0int
            }) && k.ll == 0 && k.beside == 0 && k.r == r && k.x == x && k.b == b && k.op == op
                && k.rest == rest
            &&& !f3 && op != 0x0F && op != 0xF3 && op / 16 != 4 ==> (read_legacy(
                rex + seq![op] + rest,
            ) matches Some(k) && k.prefix == 0 && k.map == 0 && k.w == (if w {
                1int
            } else {
                0int
            }) && k.ll == 0 && k.beside == 0 && k.r == r && k.x == x && k.b == b && k.op == op
                && k.rest == rest)
        }),
{
    let head = if f3 {
        seq![0xF3u8]
    } else {
        Seq::empty()
    };
    let s = head + rex + seq![0x0Fu8, op] + rest;
    let t = rex + seq![0x0Fu8, op] + rest;
    let u = seq![0x0Fu8, op] + rest;
    if f3 {
        assert(s.skip(1) =~= t);
    } else {
        assert(s =~= t);
    }
    if rex.len() > 0 {
        assert(t.skip(1) =~= u);
        assert(t[0] == rex[0]);
    } else {
        assert(t =~= u);
    }
    assert(u[0] == 0x0F && u[1] == op);
    assert(u.skip(1).skip(1) =~= rest);
    assert(u.skip(1)[0] == op);
    let p = rex + seq![op] + rest;
    let q = seq![op] + rest;
    if rex.len() > 0 {
        assert(p.skip(1) =~= q);
        assert(p[0] == rex[0]);
    } else {
        assert(p =~= q);
    }
    assert(q[0] == op);
    assert(q.skip(1) =~= rest);
}

proof fn lemma_numbers(r: Reg)
    ensures
        number(r) == r.num(),
        number(r) == 8 * (r.num() / 8) + r.num() % 8,
        r.num() / 8 <= 1,
{
}

/// Two register numbers in ModR/M.
proof fn lemma_two(k: Read, reg: u8, rm: u8, imm: Seq<u8>)
    requires
        k.rest == seq![modrm_byte(0b11, reg, rm)] + imm,
        k.r == reg / 8,
        16 * k.x + 8 * k.b == 8 * (rm / 8),
    ensures
        two_registers(k, reg, rm, imm),
{
    assert(k.rest.skip(1) =~= imm);
    assert(k.rest[0] == modrm_byte(0b11, reg, rm));
}

/// A register number and a place in memory in ModR/M.
proof fn lemma_memory(k: Read, reg: u8, base: Reg, index: Option<(Reg, Scale)>, disp: i32)
    requires
        mem_ok(base, index),
        k.rest == mem_bytes((reg % 8) as u8, base, index, disp),
        k.r == reg / 8,
        k.x == index_high(index),
        k.b == base.num() / 8,
    ensures
        register_and_memory(k, reg, base, index, disp),
{
    lemma_signed(disp);
    lemma_numbers(base);
    let low = (reg % 8) as u8;
    match index {
        Some((i, scale)) => {
            lemma_numbers(i);
            lemma_byte_fields(2, low as int, 4);
            lemma_byte_fields(
                scale_bits(scale),
                (i.num() % 8) as int,
                (base.num() % 8) as int,
            );
            assert(k.rest[0] == modrm_byte(0b10, low, 0b100));
            assert(k.rest[1] == sib_byte(scale, i.num(), base.num()));
            assert(k.rest.skip(2) =~= imm32(disp));
        },
        None => {
            lemma_byte_fields(2, low as int, (base.num() % 8) as int);
            assert(k.rest[0] == modrm_byte(0b10, low, base.num()));
            assert(k.rest.skip(1) =~= imm32(disp));
        },
    }
}

// ---- the instructions ---------------------------------------------------------------------

/// A VEX instruction on registers.
pub open spec fn vex_registers(
    s: Seq<u8>,
    prefix: int,
    map: int,
    ll: int,
    op: u8,
    reg: u8,
    beside: u8,
    rm: u8,
    imm: Seq<u8>,
) -> bool {
    read_vex(s) matches Some(k) && named(k, prefix, map, ll, op, beside) && two_registers(
        k,
        reg,
        rm,
        imm,
    )
}

/// A VEX instruction with an operand in memory.
pub open spec fn vex_memory(
    s: Seq<u8>,
    prefix: int,
    map: int,
    ll: int,
    op: u8,
    reg: u8,
    beside: u8,
    base: Reg,
    index: Option<(Reg, Scale)>,
    disp: i32,
) -> bool {
    read_vex(s) matches Some(k) && named(k, prefix, map, ll, op, beside) && register_and_memory(
        k,
        reg,
        base,
        index,
        disp,
    )
}

/// An EVEX instruction on registers.
pub open spec fn evex_registers(
    s: Seq<u8>,
    prefix: int,
    map: int,
    ll: int,
    op: u8,
    reg: u8,
    beside: u8,
    rm: u8,
    imm: Seq<u8>,
) -> bool {
    read_evex(s) matches Some(k) && named(k, prefix, map, ll, op, beside) && two_registers(
        k,
        reg,
        rm,
        imm,
    )
}

/// An EVEX instruction with an operand in memory.
pub open spec fn evex_memory(
    s: Seq<u8>,
    prefix: int,
    map: int,
    ll: int,
    op: u8,
    reg: u8,
    beside: u8,
    base: Reg,
    index: Option<(Reg, Scale)>,
    disp: i32,
) -> bool {
    read_evex(s) matches Some(k) && named(k, prefix, map, ll, op, beside) && register_and_memory(
        k,
        reg,
        base,
        index,
        disp,
    )
}

/// An instruction of the older formats: its prefix, its opcode map, its size bit
/// and its opcode.
pub open spec fn legacy(k: Read, prefix: int, map: int, w: int, op: u8) -> bool {
    k.prefix == prefix && k.map == map && k.w == w && k.op == op
}

proof fn lemma_vex_registers(
    s: Seq<u8>,
    map: OpcodeMap,
    pp: Prefix,
    wide: bool,
    op: u8,
    reg: u8,
    vvvv: u8,
    rm: u8,
    imm: Seq<u8>,
)
    requires
        s =~= vex_bytes((reg / 8) as u8, 0, (rm / 8) as u8, map, vvvv, wide, pp) + (seq![
            op,
            modrm_byte(0b11, reg, rm),
        ] + imm),
        reg < 16,
        vvvv < 16,
        rm < 16,
    ensures
        vex_registers(
            s,
            pp.num() as int,
            map.num() as int,
            if wide {
                1int
            } else {
                0int
            },
            op,
            reg,
            vvvv,
            rm,
            imm,
        ),
{
    let rest = seq![modrm_byte(0b11, reg, rm)] + imm;
    let v = vex_bytes((reg / 8) as u8, 0, (rm / 8) as u8, map, vvvv, wide, pp);
    assert(s =~= v + seq![op] + rest);
    lemma_vex((reg / 8) as u8, 0, (rm / 8) as u8, map, vvvv, wide, pp, op, rest);
    lemma_two(read_vex(s)->0, reg, rm, imm);
}

proof fn lemma_vex_memory(
    s: Seq<u8>,
    map: OpcodeMap,
    pp: Prefix,
    wide: bool,
    op: u8,
    reg: u8,
    vvvv: u8,
    base: Reg,
    index: Option<(Reg, Scale)>,
    disp: i32,
)
    requires
        s =~= vex_bytes((reg / 8) as u8, index_high(index), (base.num() / 8) as u8, map, vvvv, wide, pp)
            + seq![op] + mem_bytes((reg % 8) as u8, base, index, disp),
        mem_ok(base, index),
        reg < 16,
        vvvv < 16,
    ensures
        vex_memory(
            s,
            pp.num() as int,
            map.num() as int,
            if wide {
                1int
            } else {
                0int
            },
            op,
            reg,
            vvvv,
            base,
            index,
            disp,
        ),
{
    let rest = mem_bytes((reg % 8) as u8, base, index, disp);
    lemma_numbers(base);
    if let Some((i, _)) = index {
        lemma_numbers(i);
    }
    lemma_vex(
        (reg / 8) as u8,
        index_high(index),
        (base.num() / 8) as u8,
        map,
        vvvv,
        wide,
        pp,
        op,
        rest,
    );
    lemma_memory(read_vex(s)->0, reg, base, index, disp);
}

proof fn lemma_evex_registers(
    s: Seq<u8>,
    map: OpcodeMap,
    pp: Prefix,
    ll: u8,
    op: u8,
    reg: u8,
    vvvv: u8,
    rm: u8,
    imm: Seq<u8>,
)
    requires
        s =~= evex_bytes(reg, (rm / 16) as u8, (rm / 8) as u8, map, vvvv, ll, pp) + (seq![
            op,
            modrm_byte(0b11, reg, rm),
        ] + imm),
        reg < 32,
        vvvv < 32,
        rm < 32,
        ll < 4,
    ensures
        evex_registers(
            s,
            pp.num() as int,
            map.num() as int,
            ll as int,
            op,
            reg,
            vvvv,
            rm,
            imm,
        ),
{
    let rest = seq![modrm_byte(0b11, reg, rm)] + imm;
    let v = evex_bytes(reg, (rm / 16) as u8, (rm / 8) as u8, map, vvvv, ll, pp);
    assert(s =~= v + seq![op] + rest);
    lemma_evex(reg, (rm / 16) as u8, (rm / 8) as u8, map, vvvv, ll, pp, op, rest);
    lemma_two(read_evex(s)->0, reg, rm, imm);
}

proof fn lemma_evex_memory(
    s: Seq<u8>,
    map: OpcodeMap,
    pp: Prefix,
    ll: u8,
    op: u8,
    reg: u8,
    vvvv: u8,
    base: Reg,
    index: Option<(Reg, Scale)>,
    disp: i32,
)
    requires
        s =~= evex_bytes(reg, index_high(index), (base.num() / 8) as u8, map, vvvv, ll, pp) + seq![op]
            + mem_bytes((reg % 8) as u8, base, index, disp),
        mem_ok(base, index),
        reg < 32,
        vvvv < 32,
        ll < 4,
    ensures
        evex_memory(
            s,
            pp.num() as int,
            map.num() as int,
            ll as int,
            op,
            reg,
            vvvv,
            base,
            index,
            disp,
        ),
{
    let rest = mem_bytes((reg % 8) as u8, base, index, disp);
    lemma_numbers(base);
    if let Some((i, _)) = index {
        lemma_numbers(i);
    }
    lemma_evex(reg, index_high(index), (base.num() / 8) as u8, map, vvvv, ll, pp, op, rest);
    lemma_memory(read_evex(s)->0, reg, base, index, disp);
}

/// The bytes of the instructions on packed floats: prefix, opcode map, width, opcode,
/// and the registers `d`, `a` and `b` in this order where there are three.
#[verifier::spinoff_prover]
#[verifier::rlimit(60)]
pub proof fn lemma_packed_float_codes(d: Ymm, a: Ymm, b: Ymm)
    requires
        d.0 < 16,
        a.0 < 16,
        b.0 < 16,
    ensures
        vex_registers(enc_vxorps_zero(d), 0, 1, 1, 0x57, d.0, d.0, d.0, Seq::<u8>::empty()),
        vex_registers(enc_vmulps_reg(d, a, b), 0, 1, 1, 0x59, d.0, a.0, b.0, Seq::<u8>::empty()),
        vex_registers(enc_vaddps_reg(d, a, b), 0, 1, 1, 0x58, d.0, a.0, b.0, Seq::<u8>::empty()),
        vex_registers(enc_vhaddps_ymm(d, a, b), 3, 1, 1, 0x7C, d.0, a.0, b.0, Seq::<u8>::empty()),
        vex_registers(enc_vfmadd231ps_reg(d, a, b), 1, 2, 1, 0xB8, d.0, a.0, b.0, Seq::<u8>::empty()),
        vex_registers(enc_vcvtdq2ps(d, a), 0, 1, 1, 0x5B, d.0, 0u8, a.0, Seq::<u8>::empty()),
        vex_registers(enc_vbroadcastss_xmm(d, a), 1, 2, 1, 0x18, d.0, 0u8, a.0, Seq::<u8>::empty()),
{
    assert(vex_registers(enc_vxorps_zero(d), 0, 1, 1, 0x57, d.0, d.0, d.0, Seq::<u8>::empty())) by {
        reveal(enc_vxorps_zero);
        lemma_vex_registers(enc_vxorps_zero(d), OpcodeMap::M0F, Prefix::NP, true, 0x57, d.0, d.0, d.0, Seq::<u8>::empty());
    }
    assert(vex_registers(enc_vmulps_reg(d, a, b), 0, 1, 1, 0x59, d.0, a.0, b.0, Seq::<u8>::empty())) by {
        reveal(enc_vmulps_reg);
        lemma_vex_registers(enc_vmulps_reg(d, a, b), OpcodeMap::M0F, Prefix::NP, true, 0x59, d.0, a.0, b.0, Seq::<u8>::empty());
    }
    assert(vex_registers(enc_vaddps_reg(d, a, b), 0, 1, 1, 0x58, d.0, a.0, b.0, Seq::<u8>::empty())) by {
        reveal(enc_vaddps_reg);
        lemma_vex_registers(enc_vaddps_reg(d, a, b), OpcodeMap::M0F, Prefix::NP, true, 0x58, d.0, a.0, b.0, Seq::<u8>::empty());
    }
    assert(vex_registers(enc_vhaddps_ymm(d, a, b), 3, 1, 1, 0x7C, d.0, a.0, b.0, Seq::<u8>::empty())) by {
        reveal(enc_vhaddps_ymm);
        lemma_vex_registers(enc_vhaddps_ymm(d, a, b), OpcodeMap::M0F, Prefix::PF2, true, 0x7C, d.0, a.0, b.0, Seq::<u8>::empty());
    }
    assert(vex_registers(enc_vfmadd231ps_reg(d, a, b), 1, 2, 1, 0xB8, d.0, a.0, b.0, Seq::<u8>::empty())) by {
        reveal(enc_vfmadd231ps_reg);
        lemma_vex_registers(enc_vfmadd231ps_reg(d, a, b), OpcodeMap::M0F38, Prefix::P66, true, 0xB8, d.0, a.0, b.0, Seq::<u8>::empty());
    }
    assert(vex_registers(enc_vcvtdq2ps(d, a), 0, 1, 1, 0x5B, d.0, 0u8, a.0, Seq::<u8>::empty())) by {
        reveal(enc_vcvtdq2ps);
        lemma_vex_registers(enc_vcvtdq2ps(d, a), OpcodeMap::M0F, Prefix::NP, true, 0x5B, d.0, 0u8, a.0, Seq::<u8>::empty());
    }
    assert(vex_registers(enc_vbroadcastss_xmm(d, a), 1, 2, 1, 0x18, d.0, 0u8, a.0, Seq::<u8>::empty())) by {
        reveal(enc_vbroadcastss_xmm);
        lemma_vex_registers(enc_vbroadcastss_xmm(d, a), OpcodeMap::M0F38, Prefix::P66, true, 0x18, d.0, 0u8, a.0, Seq::<u8>::empty());
    }
}

/// The bytes of the instructions on single floats and of the moves into them.
#[verifier::spinoff_prover]
#[verifier::rlimit(60)]
pub proof fn lemma_scalar_float_codes(d: Ymm, a: Ymm, b: Ymm, g: Reg, imm: u8)
    requires
        d.0 < 16,
        a.0 < 16,
        b.0 < 16,
    ensures
        vex_registers(enc_vsqrtss_xmm(d, a, b), 2, 1, 0, 0x51, d.0, a.0, b.0, Seq::<u8>::empty()),
        vex_registers(enc_vdivss_xmm(d, a, b), 2, 1, 0, 0x5E, d.0, a.0, b.0, Seq::<u8>::empty()),
        vex_registers(enc_vaddss_xmm(d, a, b), 2, 1, 0, 0x58, d.0, a.0, b.0, Seq::<u8>::empty()),
        vex_registers(enc_vmulss_xmm(d, a, b), 2, 1, 0, 0x59, d.0, a.0, b.0, Seq::<u8>::empty()),
        vex_registers(enc_vcvtph2ps_xmm(d, a), 1, 2, 0, 0x13, d.0, 0u8, a.0, Seq::<u8>::empty()),
        vex_registers(enc_vmovd_load_reg(d, g), 1, 1, 0, 0x6E, d.0, 0u8, number(g), Seq::<u8>::empty()),
        vex_registers(enc_vcvtsi2ss_xmm_r32(d, a, g), 2, 1, 0, 0x2A, d.0, a.0, number(g), Seq::<u8>::empty()),
        vex_registers(enc_vextractf128_xmm(d, a, imm), 1, 3, 1, 0x19, a.0, 0u8, d.0, seq![imm]),
{
    assert(vex_registers(enc_vsqrtss_xmm(d, a, b), 2, 1, 0, 0x51, d.0, a.0, b.0, Seq::<u8>::empty())) by {
        reveal(enc_vsqrtss_xmm);
        lemma_vex_registers(enc_vsqrtss_xmm(d, a, b), OpcodeMap::M0F, Prefix::PF3, false, 0x51, d.0, a.0, b.0, Seq::<u8>::empty());
    }
    assert(vex_registers(enc_vdivss_xmm(d, a, b), 2, 1, 0, 0x5E, d.0, a.0, b.0, Seq::<u8>::empty())) by {
        reveal(enc_vdivss_xmm);
        lemma_vex_registers(enc_vdivss_xmm(d, a, b), OpcodeMap::M0F, Prefix::PF3, false, 0x5E, d.0, a.0, b.0, Seq::<u8>::empty());
    }
    assert(vex_registers(enc_vaddss_xmm(d, a, b), 2, 1, 0, 0x58, d.0, a.0, b.0, Seq::<u8>::empty())) by {
        reveal(enc_vaddss_xmm);
        lemma_vex_registers(enc_vaddss_xmm(d, a, b), OpcodeMap::M0F, Prefix::PF3, false, 0x58, d.0, a.0, b.0, Seq::<u8>::empty());
    }
    assert(vex_registers(enc_vmulss_xmm(d, a, b), 2, 1, 0, 0x59, d.0, a.0, b.0, Seq::<u8>::empty())) by {
        reveal(enc_vmulss_xmm);
        lemma_vex_registers(enc_vmulss_xmm(d, a, b), OpcodeMap::M0F, Prefix::PF3, false, 0x59, d.0, a.0, b.0, Seq::<u8>::empty());
    }
    assert(vex_registers(enc_vcvtph2ps_xmm(d, a), 1, 2, 0, 0x13, d.0, 0u8, a.0, Seq::<u8>::empty())) by {
        reveal(enc_vcvtph2ps_xmm);
        lemma_vex_registers(enc_vcvtph2ps_xmm(d, a), OpcodeMap::M0F38, Prefix::P66, false, 0x13, d.0, 0u8, a.0, Seq::<u8>::empty());
    }
    assert(vex_registers(enc_vmovd_load_reg(d, g), 1, 1, 0, 0x6E, d.0, 0u8, number(g), Seq::<u8>::empty())) by {
        reveal(enc_vmovd_load_reg);
        lemma_numbers(g);
        lemma_vex_registers(enc_vmovd_load_reg(d, g), OpcodeMap::M0F, Prefix::P66, false, 0x6E, d.0, 0u8, g.num(), Seq::<u8>::empty());
    }
    assert(vex_registers(enc_vcvtsi2ss_xmm_r32(d, a, g), 2, 1, 0, 0x2A, d.0, a.0, number(g), Seq::<u8>::empty())) by {
        reveal(enc_vcvtsi2ss_xmm_r32);
        lemma_numbers(g);
        lemma_vex_registers(enc_vcvtsi2ss_xmm_r32(d, a, g), OpcodeMap::M0F, Prefix::PF3, false, 0x2A, d.0, a.0, g.num(), Seq::<u8>::empty());
    }
    assert(vex_registers(enc_vextractf128_xmm(d, a, imm), 1, 3, 1, 0x19, a.0, 0u8, d.0, seq![imm])) by {
        reveal(enc_vextractf128_xmm);
        lemma_vex_registers(enc_vextractf128_xmm(d, a, imm), OpcodeMap::M0F3A, Prefix::P66, true, 0x19, a.0, 0u8, d.0, seq![imm]);
    }
}

/// The bytes of the instructions on packed integers.
#[verifier::spinoff_prover]
#[verifier::rlimit(60)]
pub proof fn lemma_packed_integer_codes(d: Ymm, a: Ymm, b: Ymm, imm: u8)
    requires
        d.0 < 16,
        a.0 < 16,
        b.0 < 16,
    ensures
        vex_registers(enc_vpsignb_reg(d, a, b), 1, 2, 1, 0x08, d.0, a.0, b.0, Seq::<u8>::empty()),
        vex_registers(enc_vpmaddubsw_reg(d, a, b), 1, 2, 1, 0x04, d.0, a.0, b.0, Seq::<u8>::empty()),
        vex_registers(enc_vpmaddwd_reg(d, a, b), 1, 1, 1, 0xF5, d.0, a.0, b.0, Seq::<u8>::empty()),
        vex_registers(enc_vpaddd_reg(d, a, b), 1, 1, 1, 0xFE, d.0, a.0, b.0, Seq::<u8>::empty()),
        vex_registers(enc_vpcmpeqd_reg(d, a, b), 1, 1, 1, 0x76, d.0, a.0, b.0, Seq::<u8>::empty()),
        vex_registers(enc_vpsrlw_imm8(d, a, imm), 1, 1, 1, 0x71, 2u8, d.0, a.0, seq![imm]),
        vex_registers(enc_vpdpbusd_vex_reg(d, a, b), 1, 2, 1, 0x50, d.0, a.0, b.0, Seq::<u8>::empty()),
        evex_registers(enc_vpdpbusd_evex_reg(d, a, b), 1, 2, 1, 0x50, d.0, a.0, b.0, Seq::<u8>::empty()),
{
    assert(vex_registers(enc_vpsignb_reg(d, a, b), 1, 2, 1, 0x08, d.0, a.0, b.0, Seq::<u8>::empty())) by {
        reveal(enc_vpsignb_reg);
        lemma_vex_registers(enc_vpsignb_reg(d, a, b), OpcodeMap::M0F38, Prefix::P66, true, 0x08, d.0, a.0, b.0, Seq::<u8>::empty());
    }
    assert(vex_registers(enc_vpmaddubsw_reg(d, a, b), 1, 2, 1, 0x04, d.0, a.0, b.0, Seq::<u8>::empty())) by {
        reveal(enc_vpmaddubsw_reg);
        lemma_vex_registers(enc_vpmaddubsw_reg(d, a, b), OpcodeMap::M0F38, Prefix::P66, true, 0x04, d.0, a.0, b.0, Seq::<u8>::empty());
    }
    assert(vex_registers(enc_vpmaddwd_reg(d, a, b), 1, 1, 1, 0xF5, d.0, a.0, b.0, Seq::<u8>::empty())) by {
        reveal(enc_vpmaddwd_reg);
        lemma_vex_registers(enc_vpmaddwd_reg(d, a, b), OpcodeMap::M0F, Prefix::P66, true, 0xF5, d.0, a.0, b.0, Seq::<u8>::empty());
    }
    assert(vex_registers(enc_vpaddd_reg(d, a, b), 1, 1, 1, 0xFE, d.0, a.0, b.0, Seq::<u8>::empty())) by {
        reveal(enc_vpaddd_reg);
        lemma_vex_registers(enc_vpaddd_reg(d, a, b), OpcodeMap::M0F, Prefix::P66, true, 0xFE, d.0, a.0, b.0, Seq::<u8>::empty());
    }
    assert(vex_registers(enc_vpcmpeqd_reg(d, a, b), 1, 1, 1, 0x76, d.0, a.0, b.0, Seq::<u8>::empty())) by {
        reveal(enc_vpcmpeqd_reg);
        lemma_vex_registers(enc_vpcmpeqd_reg(d, a, b), OpcodeMap::M0F, Prefix::P66, true, 0x76, d.0, a.0, b.0, Seq::<u8>::empty());
    }
    assert(vex_registers(enc_vpsrlw_imm8(d, a, imm), 1, 1, 1, 0x71, 2u8, d.0, a.0, seq![imm])) by {
        reveal(enc_vpsrlw_imm8);
        lemma_vex_registers(enc_vpsrlw_imm8(d, a, imm), OpcodeMap::M0F, Prefix::P66, true, 0x71, 2u8, d.0, a.0, seq![imm]);
    }
    assert(vex_registers(enc_vpdpbusd_vex_reg(d, a, b), 1, 2, 1, 0x50, d.0, a.0, b.0, Seq::<u8>::empty())) by {
        reveal(enc_vpdpbusd_vex_reg);
        lemma_vex_registers(enc_vpdpbusd_vex_reg(d, a, b), OpcodeMap::M0F38, Prefix::P66, true, 0x50, d.0, a.0, b.0, Seq::<u8>::empty());
    }
    assert(evex_registers(enc_vpdpbusd_evex_reg(d, a, b), 1, 2, 1, 0x50, d.0, a.0, b.0, Seq::<u8>::empty())) by {
        reveal(enc_vpdpbusd_evex_reg);
        lemma_evex_registers(enc_vpdpbusd_evex_reg(d, a, b), OpcodeMap::M0F38, Prefix::P66, 1, 0x50, d.0, a.0, b.0, Seq::<u8>::empty());
    }
}

/// The bytes of the packed instructions with an operand in memory.
#[verifier::spinoff_prover]
#[verifier::rlimit(60)]
pub proof fn lemma_packed_memory_codes(d: Ymm, a: Ymm, base: Reg, index: Option<(Reg, Scale)>, disp: i32)
    requires
        d.0 < 16,
        a.0 < 16,
        mem_ok(base, index),
    ensures
        vex_memory(enc_vmovups_load(d, base, index, disp), 0, 1, 1, 0x10, d.0, 0u8, base, index, disp),
        vex_memory(enc_vmovups_store(d, base, index, disp), 0, 1, 1, 0x11, d.0, 0u8, base, index, disp),
        vex_memory(enc_vbroadcastss(d, base, index, disp), 1, 2, 1, 0x18, d.0, 0u8, base, index, disp),
        vex_memory(enc_vfmadd231ps_mem(d, a, base, index, disp), 1, 2, 1, 0xB8, d.0, a.0, base, index, disp),
        vex_memory(enc_vmovd_load(d, base, index, disp), 1, 1, 0, 0x6E, d.0, 0u8, base, index, disp),
        vex_memory(enc_vpmovsxbd_load(d, base, index, disp), 1, 2, 1, 0x21, d.0, 0u8, base, index, disp),
        vex_memory(enc_vmovdqu_load(d, base, index, disp), 2, 1, 1, 0x6F, d.0, 0u8, base, index, disp),
{
    assert(vex_memory(enc_vmovups_load(d, base, index, disp), 0, 1, 1, 0x10, d.0, 0u8, base, index, disp)) by {
        reveal(enc_vmovups_load);
        lemma_vex_memory(enc_vmovups_load(d, base, index, disp), OpcodeMap::M0F, Prefix::NP, true, 0x10, d.0, 0u8, base, index, disp);
    }
    assert(vex_memory(enc_vmovups_store(d, base, index, disp), 0, 1, 1, 0x11, d.0, 0u8, base, index, disp)) by {
        reveal(enc_vmovups_store);
        lemma_vex_memory(enc_vmovups_store(d, base, index, disp), OpcodeMap::M0F, Prefix::NP, true, 0x11, d.0, 0u8, base, index, disp);
    }
    assert(vex_memory(enc_vbroadcastss(d, base, index, disp), 1, 2, 1, 0x18, d.0, 0u8, base, index, disp)) by {
        reveal(enc_vbroadcastss);
        lemma_vex_memory(enc_vbroadcastss(d, base, index, disp), OpcodeMap::M0F38, Prefix::P66, true, 0x18, d.0, 0u8, base, index, disp);
    }
    assert(vex_memory(enc_vfmadd231ps_mem(d, a, base, index, disp), 1, 2, 1, 0xB8, d.0, a.0, base, index, disp)) by {
        reveal(enc_vfmadd231ps_mem);
        lemma_vex_memory(enc_vfmadd231ps_mem(d, a, base, index, disp), OpcodeMap::M0F38, Prefix::P66, true, 0xB8, d.0, a.0, base, index, disp);
    }
    assert(vex_memory(enc_vmovd_load(d, base, index, disp), 1, 1, 0, 0x6E, d.0, 0u8, base, index, disp)) by {
        reveal(enc_vmovd_load);
        lemma_vex_memory(enc_vmovd_load(d, base, index, disp), OpcodeMap::M0F, Prefix::P66, false, 0x6E, d.0, 0u8, base, index, disp);
    }
    assert(vex_memory(enc_vpmovsxbd_load(d, base, index, disp), 1, 2, 1, 0x21, d.0, 0u8, base, index, disp)) by {
        reveal(enc_vpmovsxbd_load);
        lemma_vex_memory(enc_vpmovsxbd_load(d, base, index, disp), OpcodeMap::M0F38, Prefix::P66, true, 0x21, d.0, 0u8, base, index, disp);
    }
    assert(vex_memory(enc_vmovdqu_load(d, base, index, disp), 2, 1, 1, 0x6F, d.0, 0u8, base, index, disp)) by {
        reveal(enc_vmovdqu_load);
        lemma_vex_memory(enc_vmovdqu_load(d, base, index, disp), OpcodeMap::M0F, Prefix::PF3, true, 0x6F, d.0, 0u8, base, index, disp);
    }
}

/// The bytes of the instructions on registers of sixteen floats.
#[verifier::spinoff_prover]
#[verifier::rlimit(60)]
pub proof fn lemma_wide_codes(d: Zmm, a: Zmm, b: Zmm, y: Ymm, imm: u8)
    requires
        d.0 < 32,
        a.0 < 32,
        b.0 < 32,
        y.0 < 16,
    ensures
        evex_registers(enc_vxorps_zmm_zero(d), 0, 1, 2, 0x57, d.0, d.0, d.0, Seq::<u8>::empty()),
        evex_registers(enc_vaddps_zmm_reg(d, a, b), 0, 1, 2, 0x58, d.0, a.0, b.0, Seq::<u8>::empty()),
        evex_registers(enc_vmulps_zmm_reg(d, a, b), 0, 1, 2, 0x59, d.0, a.0, b.0, Seq::<u8>::empty()),
        evex_registers(enc_vcvtdq2ps_zmm(d, a), 0, 1, 2, 0x5B, d.0, 0u8, a.0, Seq::<u8>::empty()),
        evex_registers(enc_vbroadcastss_zmm_xmm(d, a), 1, 2, 2, 0x18, d.0, 0u8, a.0, Seq::<u8>::empty()),
        evex_registers(enc_vextractf32x8_zmm(y, a, imm), 1, 3, 2, 0x1B, a.0, 0u8, y.0, seq![imm]),
{
    assert(evex_registers(enc_vxorps_zmm_zero(d), 0, 1, 2, 0x57, d.0, d.0, d.0, Seq::<u8>::empty())) by {
        reveal(enc_vxorps_zmm_zero);
        lemma_evex_registers(enc_vxorps_zmm_zero(d), OpcodeMap::M0F, Prefix::NP, 2, 0x57, d.0, d.0, d.0, Seq::<u8>::empty());
    }
    assert(evex_registers(enc_vaddps_zmm_reg(d, a, b), 0, 1, 2, 0x58, d.0, a.0, b.0, Seq::<u8>::empty())) by {
        reveal(enc_vaddps_zmm_reg);
        lemma_evex_registers(enc_vaddps_zmm_reg(d, a, b), OpcodeMap::M0F, Prefix::NP, 2, 0x58, d.0, a.0, b.0, Seq::<u8>::empty());
    }
    assert(evex_registers(enc_vmulps_zmm_reg(d, a, b), 0, 1, 2, 0x59, d.0, a.0, b.0, Seq::<u8>::empty())) by {
        reveal(enc_vmulps_zmm_reg);
        lemma_evex_registers(enc_vmulps_zmm_reg(d, a, b), OpcodeMap::M0F, Prefix::NP, 2, 0x59, d.0, a.0, b.0, Seq::<u8>::empty());
    }
    assert(evex_registers(enc_vcvtdq2ps_zmm(d, a), 0, 1, 2, 0x5B, d.0, 0u8, a.0, Seq::<u8>::empty())) by {
        reveal(enc_vcvtdq2ps_zmm);
        lemma_evex_registers(enc_vcvtdq2ps_zmm(d, a), OpcodeMap::M0F, Prefix::NP, 2, 0x5B, d.0, 0u8, a.0, Seq::<u8>::empty());
    }
    assert(evex_registers(enc_vbroadcastss_zmm_xmm(d, a), 1, 2, 2, 0x18, d.0, 0u8, a.0, Seq::<u8>::empty())) by {
        reveal(enc_vbroadcastss_zmm_xmm);
        lemma_evex_registers(enc_vbroadcastss_zmm_xmm(d, a), OpcodeMap::M0F38, Prefix::P66, 2, 0x18, d.0, 0u8, a.0, Seq::<u8>::empty());
    }
    assert(evex_registers(enc_vextractf32x8_zmm(y, a, imm), 1, 3, 2, 0x1B, a.0, 0u8, y.0, seq![imm])) by {
        reveal(enc_vextractf32x8_zmm);
        lemma_evex_registers(enc_vextractf32x8_zmm(y, a, imm), OpcodeMap::M0F3A, Prefix::P66, 2, 0x1B, a.0, 0u8, y.0, seq![imm]);
    }
}

/// The bytes of these with an operand in memory.
pub proof fn lemma_wide_memory_codes(d: Zmm, a: Zmm, base: Reg, index: Option<(Reg, Scale)>, disp: i32)
    requires
        d.0 < 32,
        a.0 < 32,
        mem_ok(base, index),
    ensures
        evex_memory(enc_vpmovsxbd_zmm_load(d, base, index, disp), 1, 2, 2, 0x21, d.0, 0u8, base, index, disp),
        evex_memory(enc_vfmadd231ps_zmm_mem(d, a, base, index, disp), 1, 2, 2, 0xB8, d.0, a.0, base, index, disp),
{
    assert(evex_memory(enc_vpmovsxbd_zmm_load(d, base, index, disp), 1, 2, 2, 0x21, d.0, 0u8, base, index, disp)) by {
        reveal(enc_vpmovsxbd_zmm_load);
        lemma_evex_memory(enc_vpmovsxbd_zmm_load(d, base, index, disp), OpcodeMap::M0F38, Prefix::P66, 2, 0x21, d.0, 0u8, base, index, disp);
    }
    assert(evex_memory(enc_vfmadd231ps_zmm_mem(d, a, base, index, disp), 1, 2, 2, 0xB8, d.0, a.0, base, index, disp)) by {
        reveal(enc_vfmadd231ps_zmm_mem);
        lemma_evex_memory(enc_vfmadd231ps_zmm_mem(d, a, base, index, disp), OpcodeMap::M0F38, Prefix::P66, 2, 0xB8, d.0, a.0, base, index, disp);
    }
}

proof fn lemma_rex_registers(s: Seq<u8>, op: u8, reg: u8, rm: u8, imm: Seq<u8>)
    requires
        s =~= seq![
            rex_byte(true, (reg / 8) as u8, 0, (rm / 8) as u8),
            op,
            modrm_byte(0b11, reg, rm),
        ] + imm,
        reg < 16,
        rm < 16,
        op != 0x0F,
        op != 0xF3,
        op / 16 != 4,
    ensures
        read_legacy(s) matches Some(k) && legacy(k, 0, 0, 1, op) && two_registers(
            k,
            reg,
            rm,
            imm,
        ),
{
    let e = seq![rex_byte(true, (reg / 8) as u8, 0, (rm / 8) as u8)];
    let rest = seq![modrm_byte(0b11, reg, rm)] + imm;
    assert(s =~= e + seq![op] + rest);
    lemma_legacy(false, e, true, (reg / 8) as u8, 0, (rm / 8) as u8, op, rest);
    lemma_two(read_legacy(s)->0, reg, rm, imm);
}

/// A 64-bit instruction on two registers.
pub open spec fn wide_registers(s: Seq<u8>, op: u8, reg: u8, rm: u8, imm: Seq<u8>) -> bool {
    read_legacy(s) matches Some(k) && legacy(k, 0, 0, 1, op) && two_registers(k, reg, rm, imm)
}

/// A 64-bit instruction on a register, chosen by the other field, and a number.
pub open spec fn wide_immediate(s: Seq<u8>, op: u8, reg: u8, rm: u8, v: i32) -> bool {
    &&& read_legacy(s) matches Some(k)
    &&& legacy(k, 0, 0, 1, op)
    &&& two_registers(k, reg, rm, k.rest.skip(1))
    &&& k.rest.len() == 5
    &&& signed32(k.rest.skip(1)) == v
}

/// The bytes of the instructions on general-purpose registers.
#[verifier::spinoff_prover]
#[verifier::rlimit(60)]
pub proof fn lemma_integer_codes(d: Reg, a: Reg, v: i32)
    ensures
        wide_registers(enc_mov_rr(d, a), 0x89, number(a), number(d), Seq::empty()),
        wide_registers(enc_add_rr(d, a), 0x01, number(a), number(d), Seq::empty()),
        wide_registers(enc_xor_rr(d), 0x31, number(d), number(d), Seq::empty()),
        wide_registers(enc_inc_r(d), 0xFF, 0, number(d), Seq::empty()),
        wide_immediate(enc_add_ri32(d, v), 0x81, 0, number(d), v),
        wide_immediate(enc_sub_ri32(d, v), 0x81, 5, number(d), v),
        wide_immediate(enc_cmp_ri32(d, v), 0x81, 7, number(d), v),
        wide_immediate(enc_imul_rri32(d, a, v), 0x69, number(d), number(a), v),
{
    lemma_numbers(d);
    lemma_numbers(a);
    lemma_signed(v);
    let (m, n) = (d.num(), a.num());
    let none = Seq::<u8>::empty();
    assert(wide_registers(enc_mov_rr(d, a), 0x89, number(a), number(d), none)) by {
        reveal(enc_mov_rr);
        lemma_rex_registers(enc_mov_rr(d, a), 0x89, n, m, none);
    }
    assert(wide_registers(enc_add_rr(d, a), 0x01, number(a), number(d), none)) by {
        reveal(enc_add_rr);
        lemma_rex_registers(enc_add_rr(d, a), 0x01, n, m, none);
    }
    assert(wide_registers(enc_xor_rr(d), 0x31, number(d), number(d), none)) by {
        reveal(enc_xor_rr);
        lemma_rex_registers(enc_xor_rr(d), 0x31, m, m, none);
    }
    assert(wide_registers(enc_inc_r(d), 0xFF, 0, number(d), none)) by {
        reveal(enc_inc_r);
        lemma_rex_registers(enc_inc_r(d), 0xFF, 0, m, none);
    }
    assert(wide_immediate(enc_add_ri32(d, v), 0x81, 0, number(d), v)) by {
        reveal(enc_add_ri32);
        lemma_rex_registers(enc_add_ri32(d, v), 0x81, 0, m, imm32(v));
    }
    assert(wide_immediate(enc_sub_ri32(d, v), 0x81, 5, number(d), v)) by {
        reveal(enc_sub_ri32);
        lemma_rex_registers(enc_sub_ri32(d, v), 0x81, 5, m, imm32(v));
    }
    assert(wide_immediate(enc_cmp_ri32(d, v), 0x81, 7, number(d), v)) by {
        reveal(enc_cmp_ri32);
        lemma_rex_registers(enc_cmp_ri32(d, v), 0x81, 7, m, imm32(v));
    }
    assert(wide_immediate(enc_imul_rri32(d, a, v), 0x69, number(d), number(a), v)) by {
        reveal(enc_imul_rri32);
        lemma_rex_registers(enc_imul_rri32(d, a, v), 0x69, m, n, imm32(v));
    }
}

/// An instruction with its register in the opcode.
pub open spec fn in_opcode(s: Seq<u8>, w: int, op: int, r: Reg, rest: Seq<u8>) -> bool {
    &&& read_legacy(s) matches Some(k)
    &&& k.prefix == 0
    &&& k.map == 0
    &&& k.w == w
    &&& k.op - k.op % 8 == op
    &&& 8 * k.b + k.op % 8 == number(r)
    &&& k.rest == rest
}

/// The bytes of the pushes, the pops, the moves of a number, and the return.
#[verifier::spinoff_prover]
#[verifier::rlimit(60)]
pub proof fn lemma_stack_codes(r: Reg, v: u32, long: u64)
    ensures
        in_opcode(enc_push_r64(r), 0, 0x50, r, Seq::empty()),
        in_opcode(enc_pop_r64(r), 0, 0x58, r, Seq::empty()),
        in_opcode(enc_mov_ri32(r, v), 0, 0xB8, r, le_bytes(v as nat, 4)),
        in_opcode(enc_mov_ri64(r, long), 1, 0xB8, r, le_bytes(long as nat, 8)),
        le_value(le_bytes(v as nat, 4)) == v,
        le_value(le_bytes(long as nat, 8)) == long,
        enc_ret() == seq![0xC3u8],
{
    lemma_numbers(r);
    lemma_pow256_values();
    lemma_le_value_of_le_bytes(v as nat, 4);
    lemma_le_value_of_le_bytes(long as nat, 8);
    let hi = (r.num() / 8) as u8;
    let lo = (r.num() % 8) as u8;
    let none = Seq::<u8>::empty();
    assert(in_opcode(enc_push_r64(r), 0, 0x50, r, none)) by {
        reveal(enc_push_r64);
        let op = (0x50 + lo) as u8;
        lemma_legacy(false, opt_rex(0, 0, hi), false, 0, 0, hi, op, none);
        assert(enc_push_r64(r) =~= opt_rex(0, 0, hi) + seq![op] + none);
    }
    assert(in_opcode(enc_pop_r64(r), 0, 0x58, r, none)) by {
        reveal(enc_pop_r64);
        let op = (0x58 + lo) as u8;
        lemma_legacy(false, opt_rex(0, 0, hi), false, 0, 0, hi, op, none);
        assert(enc_pop_r64(r) =~= opt_rex(0, 0, hi) + seq![op] + none);
    }
    assert(in_opcode(enc_mov_ri32(r, v), 0, 0xB8, r, le_bytes(v as nat, 4))) by {
        reveal(enc_mov_ri32);
        let op = (0xB8 + lo) as u8;
        lemma_legacy(false, opt_rex(0, 0, hi), false, 0, 0, hi, op, le_bytes(v as nat, 4));
    }
    assert(in_opcode(enc_mov_ri64(r, long), 1, 0xB8, r, le_bytes(long as nat, 8))) by {
        reveal(enc_mov_ri64);
        let op = (0xB8 + lo) as u8;
        let e = seq![rex_byte(true, 0, 0, hi)];
        lemma_legacy(false, e, true, 0, 0, hi, op, le_bytes(long as nat, 8));
        assert(enc_mov_ri64(r, long) =~= e + seq![op] + le_bytes(long as nat, 8));
    }
    assert(enc_ret() == seq![0xC3u8]) by {
        reveal(enc_ret);
    }
}

/// The four bits of a condition.
pub open spec fn condition_bits(c: Cond) -> int {
    match c {
        Cond::Below => 0x2,
        Cond::AboveOrEqual => 0x3,
        Cond::Equal => 0x4,
        Cond::NotEqual => 0x5,
        Cond::Less => 0xC,
        Cond::GreaterOrEqual => 0xD,
        Cond::LessOrEqual => 0xE,
        Cond::Greater => 0xF,
    }
}

/// The bytes of the jumps over `delta` bytes.
pub proof fn lemma_jump_codes(c: Cond, delta: int)
    requires
        -0x8000_0000 <= delta < 0x8000_0000,
    ensures
        enc_jcc_rel32(c, delta).len() == 6,
        enc_jcc_rel32(c, delta)[0] == 0x0F,
        enc_jcc_rel32(c, delta)[1] == 0x80 + condition_bits(c),
        signed32(enc_jcc_rel32(c, delta).skip(2)) == delta,
        enc_jmp_rel32(delta).len() == 5,
        enc_jmp_rel32(delta)[0] == 0xE9,
        signed32(enc_jmp_rel32(delta).skip(1)) == delta,
{
    lemma_signed_wrap(delta);
    assert(enc_jcc_rel32(c, delta).skip(2) =~= le_bytes(wrap32(delta), 4));
    assert(enc_jmp_rel32(delta).skip(1) =~= le_bytes(wrap32(delta), 4));
}

/// An instruction of map `0F` on two registers.
pub open spec fn sse_registers(s: Seq<u8>, prefix: int, op: u8, reg: u8, rm: u8) -> bool {
    read_legacy(s) matches Some(k) && legacy(k, prefix, 1, 0, op) && two_registers(
        k,
        reg,
        rm,
        Seq::empty(),
    )
}

/// An instruction of map `0F` with an operand in memory.
pub open spec fn sse_memory(
    s: Seq<u8>,
    prefix: int,
    op: u8,
    reg: u8,
    base: Reg,
    index: Option<(Reg, Scale)>,
    disp: i32,
) -> bool {
    read_legacy(s) matches Some(k) && legacy(k, prefix, 1, 0, op) && register_and_memory(
        k,
        reg,
        base,
        index,
        disp,
    )
}

proof fn lemma_sse_memory(
    s: Seq<u8>,
    f3: bool,
    op: u8,
    reg: u8,
    base: Reg,
    index: Option<(Reg, Scale)>,
    disp: i32,
)
    requires
        s =~= (if f3 {
            seq![0xF3u8]
        } else {
            Seq::empty()
        }) + opt_rex((reg / 8) as u8, index_high(index), (base.num() / 8) as u8) + seq![0x0Fu8, op]
            + mem_bytes((reg % 8) as u8, base, index, disp),
        mem_ok(base, index),
        reg < 16,
    ensures
        sse_memory(
            s,
            if f3 {
                2int
            } else {
                0int
            },
            op,
            reg,
            base,
            index,
            disp,
        ),
{
    lemma_numbers(base);
    if let Some((i, _)) = index {
        lemma_numbers(i);
    }
    let (r, x, b) = ((reg / 8) as u8, index_high(index), (base.num() / 8) as u8);
    lemma_legacy(
        f3,
        opt_rex(r, x, b),
        false,
        r,
        x,
        b,
        op,
        mem_bytes((reg % 8) as u8, base, index, disp),
    );
    lemma_memory(read_legacy(s)->0, reg, base, index, disp);
}

proof fn lemma_sse_registers(s: Seq<u8>, f3: bool, op: u8, reg: u8, rm: u8)
    requires
        s =~= (if f3 {
            seq![0xF3u8]
        } else {
            Seq::empty()
        }) + opt_rex((reg / 8) as u8, 0, (rm / 8) as u8) + seq![
            0x0Fu8,
            op,
            modrm_byte(0b11, reg, rm),
        ],
        reg < 16,
        rm < 16,
    ensures
        sse_registers(
            s,
            if f3 {
                2int
            } else {
                0int
            },
            op,
            reg,
            rm,
        ),
{
    let (r, b) = ((reg / 8) as u8, (rm / 8) as u8);
    let head = if f3 {
        seq![0xF3u8]
    } else {
        Seq::empty()
    };
    let rest = seq![modrm_byte(0b11, reg, rm)];
    lemma_legacy(f3, opt_rex(r, 0, b), false, r, 0, b, op, rest);
    assert(s =~= head + opt_rex(r, 0, b) + seq![0x0Fu8, op] + rest);
    assert(rest =~= rest + Seq::<u8>::empty());
    lemma_two(read_legacy(s)->0, reg, rm, Seq::empty());
}

/// The bytes of the scalar instructions of the older formats.
#[verifier::spinoff_prover]
#[verifier::rlimit(60)]
pub proof fn lemma_scalar_codes(d: Xmm, a: Xmm, g: Reg, base: Reg, index: Option<(Reg, Scale)>, disp: i32)
    requires
        d.0 < 16,
        a.0 < 16,
        mem_ok(base, index),
    ensures
        sse_memory(enc_movss_load(d, base, index, disp), 2, 0x10, d.0, base, index, disp),
        sse_memory(enc_movss_store(d, base, index, disp), 2, 0x11, d.0, base, index, disp),
        sse_memory(enc_addss_load(d, base, index, disp), 2, 0x58, d.0, base, index, disp),
        sse_memory(enc_mulss_load(d, base, index, disp), 2, 0x59, d.0, base, index, disp),
        sse_memory(enc_movsx_r32_m8(g, base, index, disp), 0, 0xBE, number(g), base, index, disp),
        sse_registers(enc_xorps_self(d), 0, 0x57, d.0, d.0),
        sse_registers(enc_mulss_xmm(d, a), 2, 0x59, d.0, a.0),
        sse_registers(enc_addss_xmm(d, a), 2, 0x58, d.0, a.0),
{
    assert(sse_memory(enc_movss_load(d, base, index, disp), 2, 0x10, d.0, base, index, disp)) by {
        reveal(enc_movss_load);
        lemma_sse_memory(enc_movss_load(d, base, index, disp), true, 0x10, d.0, base, index, disp);
    }
    assert(sse_memory(enc_movss_store(d, base, index, disp), 2, 0x11, d.0, base, index, disp)) by {
        reveal(enc_movss_store);
        lemma_sse_memory(enc_movss_store(d, base, index, disp), true, 0x11, d.0, base, index, disp);
    }
    assert(sse_memory(enc_addss_load(d, base, index, disp), 2, 0x58, d.0, base, index, disp)) by {
        reveal(enc_addss_load);
        lemma_sse_memory(enc_addss_load(d, base, index, disp), true, 0x58, d.0, base, index, disp);
    }
    assert(sse_memory(enc_mulss_load(d, base, index, disp), 2, 0x59, d.0, base, index, disp)) by {
        reveal(enc_mulss_load);
        lemma_sse_memory(enc_mulss_load(d, base, index, disp), true, 0x59, d.0, base, index, disp);
    }
    assert(sse_memory(enc_movsx_r32_m8(g, base, index, disp), 0, 0xBE, number(g), base, index, disp)) by {
        reveal(enc_movsx_r32_m8);
        lemma_numbers(g);
        lemma_sse_memory(enc_movsx_r32_m8(g, base, index, disp), false, 0xBE, g.num(), base, index, disp);
    }
    assert(sse_registers(enc_xorps_self(d), 0, 0x57, d.0, d.0)) by {
        reveal(enc_xorps_self);
        lemma_sse_registers(enc_xorps_self(d), false, 0x57, d.0, d.0);
    }
    assert(sse_registers(enc_mulss_xmm(d, a), 2, 0x59, d.0, a.0)) by {
        reveal(enc_mulss_xmm);
        lemma_sse_registers(enc_mulss_xmm(d, a), true, 0x59, d.0, a.0);
    }
    assert(sse_registers(enc_addss_xmm(d, a), 2, 0x58, d.0, a.0)) by {
        reveal(enc_addss_xmm);
        lemma_sse_registers(enc_addss_xmm(d, a), true, 0x58, d.0, a.0);
    }
}

// ---- the assembler ------------------------------------------------------------------------

/// Each of these instructions is assembled to its own bytes.
pub proof fn lemma_int_assembled(g1: Reg, g2: Reg, m1: Mem, u1: u32, v1: i32)
    ensures
        inst_bytes(Inst::Int(IntInst::Push(g1))) == enc_push_r64(g1),
        inst_bytes(Inst::Int(IntInst::Pop(g1))) == enc_pop_r64(g1),
        inst_bytes(Inst::Int(IntInst::Ret)) == enc_ret(),
        inst_bytes(Inst::Int(IntInst::MovRR(g1, g2))) == enc_mov_rr(g1, g2),
        inst_bytes(Inst::Int(IntInst::MovRI32(g1, u1))) == enc_mov_ri32(g1, u1),
        inst_bytes(Inst::Int(IntInst::AddRR(g1, g2))) == enc_add_rr(g1, g2),
        inst_bytes(Inst::Int(IntInst::AddRI(g1, v1))) == enc_add_ri32(g1, v1),
        inst_bytes(Inst::Int(IntInst::SubRI(g1, v1))) == enc_sub_ri32(g1, v1),
        inst_bytes(Inst::Int(IntInst::ImulRRI(g1, g2, v1))) == enc_imul_rri32(g1, g2, v1),
        inst_bytes(Inst::Int(IntInst::MovsxR32M8(g1, m1))) == enc_movsx_r32_m8(g1, m1.base, Some((m1.idx, m1.scale)), m1.disp),
{
}

/// Each of these instructions is assembled to its own bytes.
pub proof fn lemma_sse_assembled(m1: Mem, x1: Xmm, x2: Xmm)
    ensures
        inst_bytes(Inst::Sse(SseInst::MovssLoad(x1, m1))) == enc_movss_load(x1, m1.base, Some((m1.idx, m1.scale)), m1.disp),
        inst_bytes(Inst::Sse(SseInst::MovssStore(x1, m1))) == enc_movss_store(x1, m1.base, Some((m1.idx, m1.scale)), m1.disp),
        inst_bytes(Inst::Sse(SseInst::MulssLoad(x1, m1))) == enc_mulss_load(x1, m1.base, Some((m1.idx, m1.scale)), m1.disp),
        inst_bytes(Inst::Sse(SseInst::AddssXmm(x1, x2))) == enc_addss_xmm(x1, x2),
        inst_bytes(Inst::Sse(SseInst::XorpsSelf(x1))) == enc_xorps_self(x1),
{
}

/// Each of these instructions is assembled to its own bytes.
pub proof fn lemma_mem_assembled(m1: Mem, y1: Ymm, y2: Ymm)
    ensures
        inst_bytes(Inst::Mem(MemInst::VmovupsLoad(y1, m1))) == enc_vmovups_load(y1, m1.base, Some((m1.idx, m1.scale)), m1.disp),
        inst_bytes(Inst::Mem(MemInst::VmovupsStore(y1, m1))) == enc_vmovups_store(y1, m1.base, Some((m1.idx, m1.scale)), m1.disp),
        inst_bytes(Inst::Mem(MemInst::Vbroadcastss(y1, m1))) == enc_vbroadcastss(y1, m1.base, Some((m1.idx, m1.scale)), m1.disp),
        inst_bytes(Inst::Mem(MemInst::Vfmadd231psMem(y1, y2, m1))) == enc_vfmadd231ps_mem(y1, y2, m1.base, Some((m1.idx, m1.scale)), m1.disp),
        inst_bytes(Inst::Mem(MemInst::VmovdLoad(y1, m1))) == enc_vmovd_load(y1, m1.base, Some((m1.idx, m1.scale)), m1.disp),
        inst_bytes(Inst::Mem(MemInst::VpmovsxbdLoad(y1, m1))) == enc_vpmovsxbd_load(y1, m1.base, Some((m1.idx, m1.scale)), m1.disp),
        inst_bytes(Inst::Mem(MemInst::VmovdquLoad(y1, m1))) == enc_vmovdqu_load(y1, m1.base, Some((m1.idx, m1.scale)), m1.disp),
{
}

/// Each of these instructions is assembled to its own bytes.
pub proof fn lemma_float_assembled(n1: u8, y1: Ymm, y2: Ymm, y3: Ymm)
    ensures
        inst_bytes(Inst::Float(FloatInst::VxorpsZero(y1))) == enc_vxorps_zero(y1),
        inst_bytes(Inst::Float(FloatInst::VbroadcastssXmm(y1, y2))) == enc_vbroadcastss_xmm(y1, y2),
        inst_bytes(Inst::Float(FloatInst::Vfmadd231psReg(y1, y2, y3))) == enc_vfmadd231ps_reg(y1, y2, y3),
        inst_bytes(Inst::Float(FloatInst::VmulpsReg(y1, y2, y3))) == enc_vmulps_reg(y1, y2, y3),
        inst_bytes(Inst::Float(FloatInst::VaddpsReg(y1, y2, y3))) == enc_vaddps_reg(y1, y2, y3),
        inst_bytes(Inst::Float(FloatInst::VhaddpsYmm(y1, y2, y3))) == enc_vhaddps_ymm(y1, y2, y3),
        inst_bytes(Inst::Float(FloatInst::Vextractf128Xmm(y1, y2, n1))) == enc_vextractf128_xmm(y1, y2, n1),
        inst_bytes(Inst::Float(FloatInst::VsqrtssXmm(y1, y2, y3))) == enc_vsqrtss_xmm(y1, y2, y3),
        inst_bytes(Inst::Float(FloatInst::VdivssXmm(y1, y2, y3))) == enc_vdivss_xmm(y1, y2, y3),
        inst_bytes(Inst::Float(FloatInst::VaddssXmm(y1, y2, y3))) == enc_vaddss_xmm(y1, y2, y3),
        inst_bytes(Inst::Float(FloatInst::VmulssXmm(y1, y2, y3))) == enc_vmulss_xmm(y1, y2, y3),
{
}

/// Each of these instructions is assembled to its own bytes.
pub proof fn lemma_conv_assembled(g1: Reg, y1: Ymm, y2: Ymm)
    ensures
        inst_bytes(Inst::Conv(ConvInst::VmovdLoadReg(y1, g1))) == enc_vmovd_load_reg(y1, g1),
        inst_bytes(Inst::Conv(ConvInst::Vcvtph2psXmm(y1, y2))) == enc_vcvtph2ps_xmm(y1, y2),
        inst_bytes(Inst::Conv(ConvInst::Vcvtdq2ps(y1, y2))) == enc_vcvtdq2ps(y1, y2),
        inst_bytes(Inst::Conv(ConvInst::Vcvtsi2ssXmmR32(y1, y2, g1))) == enc_vcvtsi2ss_xmm_r32(y1, y2, g1),
{
}

/// Each of these instructions is assembled to its own bytes.
pub proof fn lemma_byte_assembled(n1: u8, y1: Ymm, y2: Ymm, y3: Ymm)
    ensures
        inst_bytes(Inst::Byte(ByteInst::VpsignbReg(y1, y2, y3))) == enc_vpsignb_reg(y1, y2, y3),
        inst_bytes(Inst::Byte(ByteInst::VpmaddubswReg(y1, y2, y3))) == enc_vpmaddubsw_reg(y1, y2, y3),
        inst_bytes(Inst::Byte(ByteInst::VpmaddwdReg(y1, y2, y3))) == enc_vpmaddwd_reg(y1, y2, y3),
        inst_bytes(Inst::Byte(ByteInst::VpcmpeqdReg(y1, y2, y3))) == enc_vpcmpeqd_reg(y1, y2, y3),
        inst_bytes(Inst::Byte(ByteInst::VpsrlwImm8(y1, y2, n1))) == enc_vpsrlw_imm8(y1, y2, n1),
        inst_bytes(Inst::Byte(ByteInst::VpdpbusdVexReg(y1, y2, y3))) == enc_vpdpbusd_vex_reg(y1, y2, y3),
        inst_bytes(Inst::Byte(ByteInst::VpdpbusdEvexReg(y1, y2, y3))) == enc_vpdpbusd_evex_reg(y1, y2, y3),
{
}

/// Each of these instructions is assembled to its own bytes.
pub proof fn lemma_zmm_assembled(m1: Mem, n1: u8, y1: Ymm, z1: Zmm, z2: Zmm, z3: Zmm)
    ensures
        inst_bytes(Inst::Zmm(ZmmInst::VxorpsZmmZero(z1))) == enc_vxorps_zmm_zero(z1),
        inst_bytes(Inst::Zmm(ZmmInst::VaddpsZmmReg(z1, z2, z3))) == enc_vaddps_zmm_reg(z1, z2, z3),
        inst_bytes(Inst::Zmm(ZmmInst::VmulpsZmmReg(z1, z2, z3))) == enc_vmulps_zmm_reg(z1, z2, z3),
        inst_bytes(Inst::Zmm(ZmmInst::Vcvtdq2psZmm(z1, z2))) == enc_vcvtdq2ps_zmm(z1, z2),
        inst_bytes(Inst::Zmm(ZmmInst::VbroadcastssZmmXmm(z1, z2))) == enc_vbroadcastss_zmm_xmm(z1, z2),
        inst_bytes(Inst::Zmm(ZmmInst::VpmovsxbdZmmLoad(z1, m1))) == enc_vpmovsxbd_zmm_load(z1, m1.base, Some((m1.idx, m1.scale)), m1.disp),
        inst_bytes(Inst::Zmm(ZmmInst::Vfmadd231psZmmMem(z1, z2, m1))) == enc_vfmadd231ps_zmm_mem(z1, z2, m1.base, Some((m1.idx, m1.scale)), m1.disp),
        inst_bytes(Inst::Zmm(ZmmInst::Vextractf32x8Zmm(y1, z1, n1))) == enc_vextractf32x8_zmm(y1, z1, n1),
{
}

} // verus!
