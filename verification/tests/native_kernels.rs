//! End-to-end correctness of the x86_64 backend: the emitted machine code is
//! run, instruction by instruction, on a small model of the processor, and its
//! results are compared with naive references.

use lumen::codegen::assembler::Asm;
use lumen::codegen::backend::{Backend, CodegenOpts};
use lumen::codegen::kernels::{
    emit_matmul_avx2, emit_matmul_avx2_1xn_4acc, emit_matmul_body, emit_matmul_tile_4x8,
};
use lumen::codegen::x86_64::{emit_function, Abi, VnniForm, X86_64};
use lumen::dsl::Parser;
use lumen::ir::{lower, DType, Dim, Function, IrModule, Op, Shape, TensorType, Value};
use lumen::jit::{ExecRegion, MatmulJitCache};
use lumen::model::{GgmlType, GgufFile, KvType};
use lumen::runtime::quant::{
    dequantize_q8_0, q8_from_bytes, q8_to_bytes, quantize_q8_0, BlockQ8_0, QK,
};

// ----- the processor ---------------------------------------------------------

/// Registers, memory and the last comparison. Memory is one buffer, and an
/// address is a position in it.
struct Cpu {
    regs: [u64; 16],
    vecs: [[u32; 16]; 32],
    mem: Vec<u8>,
    left: i64,
    right: i64,
}

/// A register operand or the address of a memory operand.
enum Rm {
    Reg(usize),
    Mem(usize),
}

struct Decoder<'a> {
    code: &'a [u8],
    ip: usize,
}

impl Decoder<'_> {
    fn u8(&mut self) -> u8 {
        let b = self.code[self.ip];
        self.ip += 1;
        b
    }

    fn i32(&mut self) -> i32 {
        let b = &self.code[self.ip..self.ip + 4];
        self.ip += 4;
        i32::from_le_bytes(b.try_into().unwrap())
    }

    /// ModR/M with an optional SIB byte and displacement.
    fn modrm(&mut self, cpu: &Cpu, r: usize, x: usize, b: usize, wide: bool) -> (usize, Rm) {
        let m = self.u8() as usize;
        let reg = (m >> 3 & 7) + 8 * r;
        if m >> 6 == 3 {
            return (reg, Rm::Reg((m & 7) + 8 * b));
        }
        let mut addr: i64 = 0;
        if m & 7 == 4 {
            let sib = self.u8() as usize;
            let index = (sib >> 3 & 7) + 8 * x;
            if index != 4 {
                addr = addr.wrapping_add((cpu.regs[index] as i64) << (sib >> 6));
            }
            addr = addr.wrapping_add(cpu.regs[(sib & 7) + 8 * b] as i64);
        } else {
            addr = addr.wrapping_add(cpu.regs[(m & 7) + 8 * b] as i64);
        }
        let disp: i64 = match m >> 6 {
            0 => {
                assert_ne!(m & 7, 5, "no address relative to the instruction pointer");
                0
            }
            1 => {
                assert!(!wide, "no scaled 8-bit displacement");
                self.u8() as i8 as i64
            }
            _ => self.i32() as i64,
        };
        (reg, Rm::Mem((addr + disp) as usize))
    }
}

fn f(bits: u32) -> f32 {
    f32::from_bits(bits)
}

/// Half precision to single, by the definition of the format.
fn half(h: u16) -> f32 {
    let exp = (h >> 10 & 31) as i32;
    let mant = (h & 0x3FF) as f32;
    let mag = if exp == 0 {
        mant * 2f32.powi(-24)
    } else if exp == 31 {
        if mant == 0.0 {
            f32::INFINITY
        } else {
            f32::NAN
        }
    } else {
        (1024.0 + mant) * 2f32.powi(exp - 25)
    };
    if h & 0x8000 != 0 {
        -mag
    } else {
        mag
    }
}

impl Cpu {
    fn word(&self, at: usize) -> u32 {
        u32::from_le_bytes(self.mem[at..at + 4].try_into().unwrap())
    }

    fn set_word(&mut self, at: usize, v: u32) {
        self.mem[at..at + 4].copy_from_slice(&v.to_le_bytes());
    }

    fn quad(&self, at: usize) -> u64 {
        u64::from_le_bytes(self.mem[at..at + 8].try_into().unwrap())
    }

    /// The first `n` lanes of an operand.
    fn lanes(&self, rm: &Rm, n: usize) -> [u32; 16] {
        let mut out = [0u32; 16];
        for i in 0..n {
            out[i] = match rm {
                Rm::Reg(r) => self.vecs[*r][i],
                Rm::Mem(a) => self.word(a + 4 * i),
            };
        }
        out
    }

    /// Writes the first `n` lanes and clears the rest.
    fn put(&mut self, reg: usize, v: [u32; 16], n: usize) {
        for i in 0..16 {
            self.vecs[reg][i] = if i < n { v[i] } else { 0 };
        }
    }

    fn bytes(v: [u32; 16]) -> [i8; 64] {
        let mut out = [0i8; 64];
        for i in 0..64 {
            out[i] = v[i / 4].to_le_bytes()[i % 4] as i8;
        }
        out
    }

    fn halves(v: [u32; 16]) -> [i16; 32] {
        let mut out = [0i16; 32];
        for i in 0..32 {
            out[i] = (v[i / 2] >> (16 * (i % 2))) as i16;
        }
        out
    }

    /// One VEX or EVEX instruction.
    fn vector(&mut self, d: &mut Decoder, first: u8) {
        let (map, pp, len, vvvv, r, x, b);
        if first == 0xC5 {
            let p = d.u8() as usize;
            (map, pp, len) = (1, p & 3, if p & 4 != 0 { 8 } else { 4 });
            vvvv = 15 - (p >> 3 & 15);
            (r, x, b) = (1 - (p >> 7), 0, 0);
        } else if first == 0xC4 {
            let p = d.u8() as usize;
            let q = d.u8() as usize;
            (map, pp, len) = (p & 31, q & 3, if q & 4 != 0 { 8 } else { 4 });
            assert_eq!(q >> 7, 0, "W");
            vvvv = 15 - (q >> 3 & 15);
            (r, x, b) = (1 - (p >> 7), 1 - (p >> 6 & 1), 1 - (p >> 5 & 1));
        } else {
            let p = d.u8() as usize;
            let q = d.u8() as usize;
            let s = d.u8() as usize;
            (map, pp) = (p & 3, q & 3);
            assert_eq!(p & 0xC, 0);
            assert_eq!(q & 0x84, 4, "W");
            assert_eq!(s & 0x97, 0, "no masking");
            len = match s >> 5 & 3 {
                0 => 4,
                1 => 8,
                _ => 16,
            };
            vvvv = 15 - (q >> 3 & 15) + 16 * (1 - (s >> 3 & 1));
            (r, x, b) = (
                1 - (p >> 7) + 2 * (1 - (p >> 4 & 1)),
                1 - (p >> 6 & 1),
                1 - (p >> 5 & 1),
            );
        }
        let op = d.u8();
        let (reg, mut rm) = d.modrm(self, r, x, b, first == 0x62);
        if first == 0x62 {
            if let Rm::Reg(n) = rm {
                rm = Rm::Reg(n + 16 * x);
            }
        }
        let left = self.vecs[vvvv];
        let mut out = [0u32; 16];
        match (map, pp, op) {
            // vxorps, vmulps, vaddps
            (1, 0, 0x57 | 0x59 | 0x58) => {
                let right = self.lanes(&rm, len);
                for i in 0..len {
                    out[i] = match op {
                        0x57 => left[i] ^ right[i],
                        0x59 => (f(left[i]) * f(right[i])).to_bits(),
                        _ => (f(left[i]) + f(right[i])).to_bits(),
                    };
                }
                self.put(reg, out, len);
            }
            // vmovups load, vmovdqu load
            (1, 0, 0x10) | (1, 2, 0x6F) => {
                let v = self.lanes(&rm, len);
                self.put(reg, v, len);
            }
            // vmovups store
            (1, 0, 0x11) => match rm {
                Rm::Mem(a) => {
                    for i in 0..len {
                        let v = self.vecs[reg][i];
                        self.set_word(a + 4 * i, v);
                    }
                }
                Rm::Reg(_) => panic!("store to a register"),
            },
            // vbroadcastss
            (2, 1, 0x18) => {
                let v = self.lanes(&rm, 1)[0];
                self.put(reg, [v; 16], len);
            }
            // vfmadd231ps
            (2, 1, 0xB8) => {
                let right = self.lanes(&rm, len);
                for i in 0..len {
                    out[i] = f(left[i]).mul_add(f(right[i]), f(self.vecs[reg][i])).to_bits();
                }
                self.put(reg, out, len);
            }
            // vaddss, vmulss, vdivss, vsqrtss
            (1, 2, 0x58 | 0x59 | 0x5E | 0x51) => {
                let right = f(self.lanes(&rm, 1)[0]);
                out = left;
                out[0] = match op {
                    0x58 => f(left[0]) + right,
                    0x59 => f(left[0]) * right,
                    0x5E => f(left[0]) / right,
                    _ => right.sqrt(),
                }
                .to_bits();
                self.put(reg, out, 4);
            }
            // vmovd
            (1, 1, 0x6E) => {
                out[0] = match rm {
                    Rm::Reg(n) => self.regs[n] as u32,
                    Rm::Mem(a) => self.word(a),
                };
                self.put(reg, out, 4);
            }
            // vcvtph2ps
            (2, 1, 0x13) => {
                let src = Self::halves(self.lanes(&rm, 2));
                for i in 0..len {
                    out[i] = half(src[i] as u16).to_bits();
                }
                self.put(reg, out, len);
            }
            // vpmovsxbd
            (2, 1, 0x21) => match rm {
                Rm::Mem(a) => {
                    for i in 0..len {
                        out[i] = self.mem[a + i] as i8 as i32 as u32;
                    }
                    self.put(reg, out, len);
                }
                Rm::Reg(_) => panic!("register form"),
            },
            // vcvtdq2ps
            (1, 0, 0x5B) => {
                let src = self.lanes(&rm, len);
                for i in 0..len {
                    out[i] = (src[i] as i32 as f32).to_bits();
                }
                self.put(reg, out, len);
            }
            // vcvtsi2ss
            (1, 2, 0x2A) => match rm {
                Rm::Reg(n) => {
                    out = left;
                    out[0] = (self.regs[n] as u32 as i32 as f32).to_bits();
                    self.put(reg, out, 4);
                }
                Rm::Mem(_) => panic!("memory form"),
            },
            // vhaddps
            (1, 3, 0x7C) => {
                let right = self.lanes(&rm, len);
                for half in (0..len).step_by(4) {
                    let sum = |v: &[u32; 16], i: usize| {
                        (f(v[half + i]) + f(v[half + i + 1])).to_bits()
                    };
                    out[half] = sum(&left, 0);
                    out[half + 1] = sum(&left, 2);
                    out[half + 2] = sum(&right, 0);
                    out[half + 3] = sum(&right, 2);
                }
                self.put(reg, out, len);
            }
            // vextractf128, vextractf32x8
            (3, 1, 0x19 | 0x1B) => {
                let n = if op == 0x19 { 4 } else { 8 };
                let at = n * (d.u8() as usize & 1);
                match rm {
                    Rm::Reg(dst) => {
                        for i in 0..n {
                            out[i] = self.vecs[reg][at + i];
                        }
                        self.put(dst, out, n);
                    }
                    Rm::Mem(_) => panic!("memory form"),
                }
            }
            // vpsignb
            (2, 1, 0x08) => {
                let a = Self::bytes(left);
                let s = Self::bytes(self.lanes(&rm, len));
                let mut bytes = [0u8; 64];
                for i in 0..4 * len {
                    bytes[i] = a[i].wrapping_mul(s[i].signum()) as u8;
                }
                for i in 0..len {
                    out[i] = u32::from_le_bytes(bytes[4 * i..4 * i + 4].try_into().unwrap());
                }
                self.put(reg, out, len);
            }
            // vpmaddubsw
            (2, 1, 0x04) => {
                let a = Self::bytes(left);
                let s = Self::bytes(self.lanes(&rm, len));
                for i in 0..2 * len {
                    let t = |j: usize| a[j] as u8 as i32 * s[j] as i32;
                    let sum = (t(2 * i) + t(2 * i + 1)).clamp(-32768, 32767) as u16;
                    out[i / 2] |= (sum as u32) << (16 * (i % 2));
                }
                self.put(reg, out, len);
            }
            // vpmaddwd
            (1, 1, 0xF5) => {
                let a = Self::halves(left);
                let s = Self::halves(self.lanes(&rm, len));
                for i in 0..len {
                    let t = |j: usize| a[j] as i32 * s[j] as i32;
                    out[i] = t(2 * i).wrapping_add(t(2 * i + 1)) as u32;
                }
                self.put(reg, out, len);
            }
            // vpcmpeqd
            (1, 1, 0x76) => {
                let right = self.lanes(&rm, len);
                for i in 0..len {
                    out[i] = if left[i] == right[i] { u32::MAX } else { 0 };
                }
                self.put(reg, out, len);
            }
            // vpsrlw
            (1, 1, 0x71) => {
                assert_eq!(reg & 7, 2);
                let by = d.u8() as u32;
                let src = Self::halves(self.lanes(&rm, len));
                for i in 0..2 * len {
                    out[i / 2] |= ((src[i] as u16 as u32) >> by) << (16 * (i % 2));
                }
                self.put(vvvv, out, len);
            }
            // vpdpbusd
            (2, 1, 0x50) => {
                let a = Self::bytes(left);
                let s = Self::bytes(self.lanes(&rm, len));
                for i in 0..len {
                    let mut sum = self.vecs[reg][i] as i32;
                    for j in 4 * i..4 * i + 4 {
                        sum = sum.wrapping_add(a[j] as u8 as i32 * s[j] as i32);
                    }
                    out[i] = sum as u32;
                }
                self.put(reg, out, len);
            }
            _ => panic!("unknown instruction: map {} pp {} op {:x}", map, pp, op),
        }
    }

    /// Runs code from its start until it returns.
    fn run(&mut self, code: &[u8], entry: usize) {
        let bottom = self.regs[4];
        let mut d = Decoder { code, ip: entry };
        loop {
            let mut b = d.u8();
            if b == 0xC5 || b == 0xC4 || b == 0x62 {
                self.vector(&mut d, b);
                continue;
            }
            let scalar = b == 0xF3;
            if scalar {
                b = d.u8();
            }
            let (mut w, mut r, mut x, mut bb) = (0, 0, 0, 0);
            if b & 0xF0 == 0x40 {
                (w, r, x, bb) = (
                    b as usize >> 3 & 1,
                    b as usize >> 2 & 1,
                    b as usize >> 1 & 1,
                    b as usize & 1,
                );
                b = d.u8();
            }
            match b {
                0xC3 => {
                    assert_eq!(self.regs[4], bottom, "the stack is balanced");
                    return;
                }
                0x50..=0x57 => {
                    let n = (b & 7) as usize + 8 * bb;
                    let v = self.regs[n];
                    self.regs[4] -= 8;
                    let at = self.regs[4] as usize;
                    self.mem[at..at + 8].copy_from_slice(&v.to_le_bytes());
                }
                0x58..=0x5F => {
                    let n = (b & 7) as usize + 8 * bb;
                    self.regs[n] = self.quad(self.regs[4] as usize);
                    self.regs[4] += 8;
                }
                0xB8..=0xBF => {
                    assert_eq!(w, 0);
                    self.regs[(b & 7) as usize + 8 * bb] = d.i32() as u32 as u64;
                }
                0xE9 => {
                    let rel = d.i32() as i64;
                    d.ip = (d.ip as i64 + rel) as usize;
                }
                0x0F => {
                    let op = d.u8();
                    if op & 0xF0 == 0x80 {
                        let rel = d.i32() as i64;
                        let taken = match op & 0xF {
                            0x4 => self.left == self.right,
                            0x5 => self.left != self.right,
                            0xC => self.left < self.right,
                            0xD => self.left >= self.right,
                            0xE => self.left <= self.right,
                            0xF => self.left > self.right,
                            c => panic!("unknown condition {:x}", c),
                        };
                        if taken {
                            d.ip = (d.ip as i64 + rel) as usize;
                        }
                        continue;
                    }
                    let (reg, rm) = d.modrm(self, r, x, bb, false);
                    match (scalar, op, rm) {
                        (false, 0xBE, Rm::Mem(a)) => {
                            self.regs[reg] = self.mem[a] as i8 as i32 as u32 as u64;
                        }
                        (true, 0x10, Rm::Mem(a)) => {
                            let v = self.word(a);
                            self.vecs[reg][0] = v;
                            self.vecs[reg][1..4].fill(0);
                        }
                        (true, 0x11, Rm::Mem(a)) => {
                            let v = self.vecs[reg][0];
                            self.set_word(a, v);
                        }
                        (true, 0x58 | 0x59, rm) => {
                            let right = f(self.lanes(&rm, 1)[0]);
                            let left = f(self.vecs[reg][0]);
                            let v = if op == 0x58 { left + right } else { left * right };
                            self.vecs[reg][0] = v.to_bits();
                        }
                        (false, 0x57, Rm::Reg(n)) => {
                            for i in 0..4 {
                                self.vecs[reg][i] ^= self.vecs[n][i];
                            }
                        }
                        _ => panic!("unknown instruction: 0f {:x}", op),
                    }
                }
                _ => {
                    assert_eq!(w, 1, "64-bit operation {:x}", b);
                    let (reg, rm) = d.modrm(self, r, x, bb, false);
                    let n = match rm {
                        Rm::Reg(n) => n,
                        Rm::Mem(_) => panic!("memory operand"),
                    };
                    match b {
                        0x89 => self.regs[n] = self.regs[reg],
                        0x31 => self.regs[n] ^= self.regs[reg],
                        0x01 => self.regs[n] = self.regs[n].wrapping_add(self.regs[reg]),
                        0xFF => {
                            assert_eq!(reg & 7, 0);
                            self.regs[n] = self.regs[n].wrapping_add(1);
                        }
                        0x69 => {
                            let imm = d.i32() as i64 as u64;
                            self.regs[reg] = self.regs[n].wrapping_mul(imm);
                        }
                        0x81 => {
                            let imm = d.i32() as i64;
                            match reg & 7 {
                                0 => self.regs[n] = self.regs[n].wrapping_add(imm as u64),
                                5 => self.regs[n] = self.regs[n].wrapping_sub(imm as u64),
                                7 => {
                                    self.left = self.regs[n] as i64;
                                    self.right = imm;
                                }
                                e => panic!("unknown extension {}", e),
                            }
                        }
                        _ => panic!("unknown instruction {:x}", b),
                    }
                }
            }
        }
    }
}

/// The registers that a callee must leave as they were.
const KEPT: [usize; 6] = [3, 5, 12, 13, 14, 15];

/// Calls a kernel on some input buffers and returns its output of `n` floats.
/// All that lies outside of the output and the stack must stay as it was.
fn call_with(code: &[u8], entry: usize, abi: Abi, inputs: &[Vec<u8>], n: usize) -> Vec<f32> {
    let params: &[usize] = match abi {
        Abi::SysV => &[7, 6, 2],
        Abi::WinX64 => &[1, 2, 8],
    };
    let stack = 4096;
    let mut cpu = Cpu {
        regs: [0x5555_5555_5555_5555; 16],
        vecs: [[0x7FC0_0001; 16]; 32],
        mem: vec![0xA5; stack],
        left: 0,
        right: 0,
    };
    for (i, input) in inputs.iter().enumerate() {
        cpu.regs[params[i]] = cpu.mem.len() as u64;
        cpu.mem.extend_from_slice(input);
        cpu.mem.extend_from_slice(&[0xA5; 64]);
    }
    let out = cpu.mem.len();
    cpu.regs[params[inputs.len()]] = out as u64;
    cpu.mem.resize(out + 4 * n + 64, 0xA5);
    cpu.regs[4] = stack as u64 - 8;
    for (i, r) in KEPT.iter().enumerate() {
        cpu.regs[*r] = 1000 + i as u64;
    }
    let before = cpu.mem.clone();
    cpu.run(code, entry);
    for (i, r) in KEPT.iter().enumerate() {
        assert_eq!(cpu.regs[*r], 1000 + i as u64, "register {} is kept", r);
    }
    assert!(cpu.mem[stack..out] == before[stack..out], "the inputs are kept");
    assert!(cpu.mem[out + 4 * n..] == before[out + 4 * n..], "nothing is written past the output");
    (0..n).map(|i| f(cpu.word(out + 4 * i))).collect()
}

fn call(region: &ExecRegion, inputs: &[Vec<u8>], n: usize) -> Vec<f32> {
    call_with(region.bytes(), region.entry_offset(), Abi::detect_host(), inputs, n)
}

fn float_bytes(v: &[f32]) -> Vec<u8> {
    v.iter().flat_map(|x| x.to_le_bytes()).collect()
}

fn bits(v: &[f32]) -> Vec<u32> {
    v.iter().map(|x| x.to_bits()).collect()
}

fn quantize(v: &[f32]) -> Vec<BlockQ8_0> {
    let mut blocks = vec![BlockQ8_0 { d: 0, qs: [0; 32] }; v.len() / QK];
    quantize_q8_0(&bits(v), &mut blocks);
    blocks
}

fn dequantize(blocks: &[BlockQ8_0]) -> Vec<f32> {
    let mut out = vec![0u32; blocks.len() * QK];
    dequantize_q8_0(blocks, &mut out);
    out.into_iter().map(f).collect()
}

fn naive_matmul(a: &[f32], b: &[f32], m: usize, k: usize, n: usize) -> Vec<f32> {
    let mut c = vec![0.0f32; m * n];
    for i in 0..m {
        for j in 0..n {
            let mut acc = 0.0f32;
            for kk in 0..k {
                acc += a[i * k + kk] * b[kk * n + j];
            }
            c[i * n + j] = acc;
        }
    }
    c
}

// ----- matrix products -------------------------------------------------------

fn compile_and_run(backend: &X86_64, src: &str, a: &[f32], b: &[f32], out: &mut [f32]) {
    let module = Parser::parse(src).unwrap();
    let ir = lower(&module).unwrap();
    let mc = backend.lower(&ir, &CodegenOpts::default()).expect("lower");
    let region = ExecRegion::from_machine_code(&mc).expect("exec region");
    out.copy_from_slice(&call(&region, &[float_bytes(a), float_bytes(b)], out.len()));
}

#[test]
fn scalar_matmul_4x4x4() {
    let src = r#"
        fn matmul(
            a: tensor<f32, [4, 4]>,
            b: tensor<f32, [4, 4]>,
        ) -> tensor<f32, [4, 4]> {
            return a @ b;
        }
    "#;
    let a: Vec<f32> = (0..16).map(|i| (i as f32) * 0.5).collect();
    let b: Vec<f32> = (0..16).map(|i| (i as f32) * 0.25 + 1.0).collect();
    let mut out = vec![0.0f32; 16];

    // N=4, AVX2 path requires N % 8 == 0, so the scalar path is used.
    compile_and_run(&X86_64::host(), src, &a, &b, &mut out);

    let reference = naive_matmul(&a, &b, 4, 4, 4);
    for (got, want) in out.iter().zip(reference.iter()) {
        assert!((got - want).abs() < 1e-4);
    }
}

#[test]
fn avx2_matmul_8x8x8_matches_scalar_and_reference() {
    let src = r#"
        fn matmul(
            a: tensor<f32, [8, 8]>,
            b: tensor<f32, [8, 8]>,
        ) -> tensor<f32, [8, 8]> {
            return a @ b;
        }
    "#;
    let a: Vec<f32> = (0..64).map(|i| (i as f32) * 0.1).collect();
    let b: Vec<f32> = (0..64).map(|i| (i as f32) * 0.05 + 1.0).collect();
    let reference = naive_matmul(&a, &b, 8, 8, 8);

    // N=8: the AVX2 path is picked.
    let mut out_avx2 = vec![0.0f32; 64];
    compile_and_run(&X86_64::host(), src, &a, &b, &mut out_avx2);

    // Force scalar.
    let mut out_scalar = vec![0.0f32; 64];
    compile_and_run(&X86_64::scalar_only(), src, &a, &b, &mut out_scalar);

    for i in 0..64 {
        assert!(
            (out_avx2[i] - reference[i]).abs() < 1e-3,
            "AVX2 diverges at {}: got {} expected {}",
            i,
            out_avx2[i],
            reference[i]
        );
        assert!((out_scalar[i] - reference[i]).abs() < 1e-4, "scalar diverges at {}", i);
    }
}

#[test]
fn avx2_matmul_32x32x32_matches_reference() {
    let src = r#"
        fn matmul(
            a: tensor<f32, [32, 32]>,
            b: tensor<f32, [32, 32]>,
        ) -> tensor<f32, [32, 32]> {
            return a @ b;
        }
    "#;
    let a: Vec<f32> = (0..1024).map(|i| ((i % 17) as f32) * 0.01 - 0.5).collect();
    let b: Vec<f32> = (0..1024).map(|i| ((i % 13) as f32) * 0.03 + 0.1).collect();
    let reference = naive_matmul(&a, &b, 32, 32, 32);

    let mut out_avx2 = vec![0.0f32; 1024];
    compile_and_run(&X86_64::host(), src, &a, &b, &mut out_avx2);

    // Tolerance is looser because the rounding of 32 FMAs accumulates
    // differently.
    for (i, (got, want)) in out_avx2.iter().zip(reference.iter()).enumerate() {
        assert!(
            (got - want).abs() < 1e-2,
            "AVX2 diverges at {}: got {} expected {}",
            i,
            got,
            want
        );
    }
}

#[test]
fn scalar_matmul_rectangular_4x5x3() {
    let src = r#"
        fn matmul(
            a: tensor<f32, [4, 5]>,
            b: tensor<f32, [5, 3]>,
        ) -> tensor<f32, [4, 3]> {
            return a @ b;
        }
    "#;
    let a: Vec<f32> = (0..20).map(|i| (i as f32) - 10.0).collect();
    let b: Vec<f32> = (0..15).map(|i| 1.0 / ((i + 1) as f32)).collect();
    let mut out = vec![0.0f32; 12];
    compile_and_run(&X86_64::host(), src, &a, &b, &mut out);

    let reference = naive_matmul(&a, &b, 4, 5, 3);
    for (got, want) in out.iter().zip(reference.iter()) {
        assert!((got - want).abs() < 1e-4);
    }
}

#[test]
fn scalar_kernel_is_bit_identical_to_the_reference() {
    let src = r#"
        fn matmul(
            a: tensor<f32, [4, 5]>,
            b: tensor<f32, [5, 3]>,
        ) -> tensor<f32, [4, 3]> {
            return a @ b;
        }
    "#;
    let a: Vec<f32> = (0..20).map(|i| (i as f32) - 10.0).collect();
    let b: Vec<f32> = (0..15).map(|i| 1.0 / ((i + 1) as f32)).collect();
    let mut out = vec![0.0f32; 12];
    compile_and_run(&X86_64::scalar_only(), src, &a, &b, &mut out);
    assert_eq!(bits(&out), bits(&naive_matmul(&a, &b, 4, 5, 3)));
}

#[test]
fn the_platform_decides_the_calling_convention() {
    assert_eq!(Abi::for_platform(true), Abi::WinX64);
    assert_eq!(Abi::for_platform(false), Abi::SysV);
    assert_eq!(Abi::detect_host(), Abi::for_platform(std::path::is_separator('\\')));
}

#[test]
fn both_calling_conventions_agree() {
    let module = Parser::parse(
        "fn f(a: tensor<f32, [4, 8]>, b: tensor<f32, [8, 16]>) -> tensor<f32, [4, 16]> { return a @ b; }",
    )
    .unwrap();
    let ir = lower(&module).unwrap();
    let a: Vec<f32> = (0..32).map(|i| (i as f32) * 0.3 - 4.0).collect();
    let b: Vec<f32> = (0..128).map(|i| ((i % 9) as f32) * 0.7).collect();
    let inputs = [float_bytes(&a), float_bytes(&b)];
    let mut results = Vec::new();
    for abi in [Abi::SysV, Abi::WinX64] {
        let mc = X86_64::with_abi(abi).lower(&ir, &CodegenOpts::default()).unwrap();
        results.push(bits(&call_with(&mc.bytes, mc.entry_offset, abi, &inputs, 64)));
    }
    assert_eq!(results[0], results[1]);
}

/// Which kernel a shape gets.
#[test]
fn the_shape_selects_the_kernel() {
    let abi = Abi::SysV;
    let (l, r, o) = (abi.param_reg(0), abi.param_reg(1), abi.param_reg(2));
    for (m, k, n) in [(4, 5, 8), (8, 3, 32), (1, 3, 32), (1, 3, 8), (3, 5, 16), (2, 3, 5)] {
        let src = format!(
            "fn f(a: tensor<f32, [{m}, {k}]>, b: tensor<f32, [{k}, {n}]>) -> tensor<f32, [{m}, {n}]> {{ return a @ b; }}"
        );
        let ir = lower(&Parser::parse(&src).unwrap()).unwrap();
        let mut a = Asm::new();
        if m % 4 == 0 && n % 8 == 0 {
            emit_matmul_tile_4x8(&mut a, l, r, o, m, k, n, abi);
        } else if m == 1 && n % 32 == 0 {
            emit_matmul_avx2_1xn_4acc(&mut a, l, r, o, k, n, abi);
        } else if n % 8 == 0 {
            emit_matmul_avx2(&mut a, l, r, o, m, k, n, abi);
        } else {
            emit_matmul_body(&mut a, l, r, o, m, k, n, abi);
        }
        let want = a.finish();
        let mut emitted = Asm::new();
        emit_function(&mut emitted, &ir.functions[0], abi, true, None, false).unwrap();
        assert_eq!(emitted.finish(), want, "{} {} {}", m, k, n);
        let mc = X86_64::with_abi(abi).lower(&ir, &CodegenOpts::default()).unwrap();
        assert_eq!(mc.bytes, want, "{} {} {}", m, k, n);
    }
}

// ----- fused Q8_0 x F32 matrix products --------------------------------------

fn static_type(dtype: DType, dims: &[u32]) -> TensorType {
    TensorType { dtype, shape: Shape(dims.iter().map(|d| Dim::Static(*d)).collect()) }
}

fn build_quant_matmul_ir(m: u32, k: u32, n: u32) -> IrModule {
    let w_ty = static_type(DType::Q8_0, &[m, k]);
    let a_ty = static_type(DType::F32, &[k, n]);
    let dq_ty = static_type(DType::F32, &[m, k]);
    let out_ty = static_type(DType::F32, &[m, n]);

    let mut f = Function::new("quant_matmul", vec![w_ty, a_ty], out_ty.clone());
    let v_w = f.param_values[0];
    let v_a = f.param_values[1];
    let v_dq = f.push(Value { op: Op::Dequantize { x: v_w }, ty: dq_ty });
    let v_mm = f.push(Value { op: Op::MatMul { lhs: v_dq, rhs: v_a }, ty: out_ty });
    f.push(Value { op: Op::Return { value: v_mm }, ty: static_type(DType::F32, &[]) });
    IrModule { functions: vec![f] }
}

fn jit_run_quant_matmul(
    m: u32,
    k: u32,
    n: u32,
    weights: &[BlockQ8_0],
    activations: &[f32],
) -> Vec<f32> {
    let ir = build_quant_matmul_ir(m, k, n);
    let backend = X86_64::host();
    let mc = backend.lower(&ir, &CodegenOpts::default()).expect("lower");
    let region = ExecRegion::from_machine_code(&mc).expect("exec region");
    call(&region, &[q8_to_bytes(weights), float_bytes(activations)], (m * n) as usize)
}

fn make_weights(m: usize, k: usize) -> (Vec<BlockQ8_0>, Vec<f32>) {
    assert!(k % QK == 0);
    let w_fp32: Vec<f32> = (0..m * k).map(|i| ((i % 23) as f32) * 0.01 - 0.1).collect();
    let blocks = quantize(&w_fp32);
    // Reference fp32 weights (dequantized once, used by the naive reference).
    let dequant_ref = dequantize(&blocks);
    (blocks, dequant_ref)
}

#[test]
fn quant_matmul_q8_1x32x8_matches_reference() {
    // Smallest case: 1 row of weights, K=32 (one Q8_0 block), N=8.
    let m = 1;
    let k = 32;
    let n = 8;

    let (blocks, w_dequant) = make_weights(m as usize, k as usize);
    let a: Vec<f32> = (0..(k * n) as usize)
        .map(|i| ((i % 7) as f32) * 0.13 + 0.05)
        .collect();

    let reference = naive_matmul(&w_dequant, &a, m as usize, k as usize, n as usize);

    let native = jit_run_quant_matmul(m, k, n, &blocks, &a);

    for (idx, (g, w)) in native.iter().zip(reference.iter()).enumerate() {
        assert!((g - w).abs() < 1e-3, "idx {}: native {} reference {}", idx, g, w);
    }
}

#[test]
fn quant_matmul_q8_4x64x16_matches_reference() {
    let m = 4;
    let k = 64; // 2 Q8_0 blocks per row
    let n = 16; // 2 ymm columns

    let (blocks, w_dequant) = make_weights(m as usize, k as usize);
    let a: Vec<f32> = (0..(k * n) as usize)
        .map(|i| ((i % 11) as f32) * 0.07 - 0.3)
        .collect();

    let reference = naive_matmul(&w_dequant, &a, m as usize, k as usize, n as usize);

    let native = jit_run_quant_matmul(m, k, n, &blocks, &a);

    for (idx, (g, w)) in native.iter().zip(reference.iter()).enumerate() {
        assert!((g - w).abs() < 1e-2, "idx {}: native {} reference {}", idx, g, w);
    }
}

#[test]
fn quant_matmul_q8_8x128x32_matches_reference() {
    let m = 8;
    let k = 128; // 4 blocks per row
    let n = 32; // 4 ymm columns

    let (blocks, w_dequant) = make_weights(m as usize, k as usize);
    let a: Vec<f32> = (0..(k * n) as usize)
        .map(|i| ((i % 19) as f32) * 0.02 + 0.01)
        .collect();

    let reference = naive_matmul(&w_dequant, &a, m as usize, k as usize, n as usize);

    let native = jit_run_quant_matmul(m, k, n, &blocks, &a);

    for (idx, (g, w)) in native.iter().zip(reference.iter()).enumerate() {
        assert!((g - w).abs() < 5e-2, "idx {}: native {} reference {}", idx, g, w);
    }
}

#[test]
fn wide_registers_give_the_same_product() {
    let (m, k) = (5u32, 96u32);
    let (blocks, w_dequant) = make_weights(m as usize, k as usize);
    let a: Vec<f32> = (0..k as usize).map(|i| ((i % 19) as f32) * 0.02 + 0.01).collect();
    let want = naive_matmul(&w_dequant, &a, m as usize, k as usize, 1);
    let mut opts = CodegenOpts::default();
    opts.use_avx512 = true;
    let mc = X86_64::host().lower(&build_quant_matmul_ir(m, k, 1), &opts).expect("lower");
    let region = ExecRegion::from_machine_code(&mc).expect("exec region");
    let got = call(&region, &[q8_to_bytes(&blocks), float_bytes(&a)], m as usize);
    for (g, w) in got.iter().zip(want.iter()) {
        assert!((g - w).abs() < 1e-4, "{} vs {}", g, w);
    }
}

// ----- RMS normalization -----------------------------------------------------

/// `y_i = x_i / sqrt(mean(x^2) + eps) * w_i`
fn rms_norm(x: &[f32], w: &[f32], eps: f32) -> Vec<f32> {
    let mean_sq = x.iter().map(|v| v * v).sum::<f32>() / x.len() as f32;
    let inv = 1.0 / (mean_sq + eps).sqrt();
    x.iter().zip(w).map(|(x, w)| x * inv * w).collect()
}

fn build_rms_norm_ir(h: u32, eps: f32) -> IrModule {
    let ty = static_type(DType::F32, &[h]);
    let mut f = Function::new("rms_norm", vec![ty.clone(), ty.clone()], ty.clone());
    let v_x = f.param_values[0];
    let v_w = f.param_values[1];
    let v_y = f.push(Value {
        op: Op::RmsNorm { x: v_x, weight: v_w, eps: eps.to_bits() },
        ty: ty.clone(),
    });
    f.push(Value { op: Op::Return { value: v_y }, ty: static_type(DType::F32, &[]) });
    IrModule { functions: vec![f] }
}

fn jit_run(h: u32, eps: f32, x: &[f32], w: &[f32]) -> Vec<f32> {
    let ir = build_rms_norm_ir(h, eps);
    let backend = X86_64::host();
    let mc = backend.lower(&ir, &CodegenOpts::default()).expect("lower");
    let region = ExecRegion::from_machine_code(&mc).expect("exec");
    call(&region, &[float_bytes(x), float_bytes(w)], h as usize)
}

#[test]
fn native_rms_norm_h8_matches_reference() {
    let h = 8u32;
    let eps = 1e-5;
    let x: Vec<f32> = (0..h as usize).map(|i| (i as f32) * 0.1 - 0.3).collect();
    let w: Vec<f32> = vec![1.0; h as usize];

    let want = rms_norm(&x, &w, eps);
    let got = jit_run(h, eps, &x, &w);
    for (i, (g, w)) in got.iter().zip(want.iter()).enumerate() {
        assert!((g - w).abs() < 1e-5, "idx {}: native {} reference {}", i, g, w);
    }
}

#[test]
fn native_rms_norm_h128_with_nontrivial_weight() {
    let h = 128u32;
    let eps = 1e-5;
    let x: Vec<f32> = (0..h as usize)
        .map(|i| ((i % 13) as f32) * 0.07 - 0.5)
        .collect();
    let w: Vec<f32> = (0..h as usize)
        .map(|i| 0.5 + (i as f32) / (h as f32))
        .collect();

    let want = rms_norm(&x, &w, eps);
    let got = jit_run(h, eps, &x, &w);
    for (i, (g, w)) in got.iter().zip(want.iter()).enumerate() {
        assert!((g - w).abs() < 1e-4, "idx {}: native {} reference {}", i, g, w);
    }
}

#[test]
fn native_rms_norm_h4096_like_llama_hidden() {
    // Llama-scale hidden dim. Catches accumulation issues that small sizes hide.
    let h = 4096u32;
    let eps = 1e-5;
    let x: Vec<f32> = (0..h as usize)
        .map(|i| ((i % 97) as f32) * 0.013 - 0.6)
        .collect();
    let w: Vec<f32> = (0..h as usize)
        .map(|i| 1.0 + ((i % 31) as f32) * 0.01)
        .collect();

    let want = rms_norm(&x, &w, eps);
    let got = jit_run(h, eps, &x, &w);
    // Larger H: more accumulation rounding; looser tolerance.
    for (i, (g, w)) in got.iter().zip(want.iter()).enumerate() {
        assert!((g - w).abs() < 1e-3, "idx {}: native {} reference {}", i, g, w);
    }
}

// ----- dequantization --------------------------------------------------------

fn build_dequant_q8_ir(num_elements: u32) -> IrModule {
    let in_ty = static_type(DType::Q8_0, &[num_elements]);
    let out_ty = static_type(DType::F32, &[num_elements]);
    let mut f = Function::new("dequant_q8", vec![in_ty], out_ty.clone());
    let v_in = f.param_values[0];
    let v_out = f.push(Value { op: Op::Dequantize { x: v_in }, ty: out_ty });
    f.push(Value { op: Op::Return { value: v_out }, ty: static_type(DType::F32, &[]) });
    IrModule { functions: vec![f] }
}

fn jit_run_dequant(num_elements: u32, blocks: &[BlockQ8_0]) -> Vec<f32> {
    let ir = build_dequant_q8_ir(num_elements);
    let backend = X86_64::host();
    let mc = backend.lower(&ir, &CodegenOpts::default()).expect("lower");
    let region = ExecRegion::from_machine_code(&mc).expect("exec region");
    call(&region, &[q8_to_bytes(blocks)], num_elements as usize)
}

#[test]
fn dequant_q8_one_block_matches_reference() {
    let input: Vec<f32> = (0..32).map(|i| ((i as f32) / 32.0) - 0.5).collect();
    let blocks = quantize(&input);
    let reference = dequantize(&blocks);

    let native = jit_run_dequant(32, &blocks);

    for (i, (g, w)) in native.iter().zip(reference.iter()).enumerate() {
        assert!((g - w).abs() < 1e-5, "block 0 idx {}: native {} reference {}", i, g, w);
    }
}

#[test]
fn dequant_q8_eight_blocks_matches_reference() {
    let n = 32 * 8; // 256 elements
    let input: Vec<f32> = (0..n).map(|i| ((i % 17) as f32) * 0.07 - 1.0).collect();
    let blocks = quantize(&input);
    let reference = dequantize(&blocks);

    let native = jit_run_dequant(n as u32, &blocks);

    for (i, (g, w)) in native.iter().zip(reference.iter()).enumerate() {
        assert!((g - w).abs() < 1e-5, "idx {}: native {} reference {}", i, g, w);
    }
}

fn write_string(buf: &mut Vec<u8>, s: &str) {
    let bytes = s.as_bytes();
    buf.extend_from_slice(&(bytes.len() as u64).to_le_bytes());
    buf.extend_from_slice(bytes);
}

fn write_gguf(name: &str, dims: &[u64], blocks: &[BlockQ8_0]) -> Vec<u8> {
    let mut buf = Vec::new();
    buf.extend_from_slice(b"GGUF");
    buf.extend_from_slice(&3u32.to_le_bytes());
    buf.extend_from_slice(&1u64.to_le_bytes());
    buf.extend_from_slice(&1u64.to_le_bytes());

    write_string(&mut buf, "general.alignment");
    buf.extend_from_slice(&(KvType::U32 as u32).to_le_bytes());
    buf.extend_from_slice(&32u32.to_le_bytes());

    write_string(&mut buf, name);
    buf.extend_from_slice(&(dims.len() as u32).to_le_bytes());
    for d in dims {
        buf.extend_from_slice(&d.to_le_bytes());
    }
    buf.extend_from_slice(&GgmlType::Q8_0.tag().to_le_bytes());
    buf.extend_from_slice(&0u64.to_le_bytes());

    let pad = (32 - (buf.len() % 32)) % 32;
    buf.resize(buf.len() + pad, 0);
    buf.extend_from_slice(&q8_to_bytes(blocks));
    buf
}

#[test]
fn gguf_q8_tensor_dequant_via_native_backend() {
    // 256 elements = 8 blocks. Shape [8, 32].
    let n = 256;
    let src: Vec<f32> = (0..n).map(|i| ((i % 23) as f32) * 0.013 - 0.15).collect();
    let blocks = quantize(&src);

    let gguf = write_gguf("blk.0.weight", &[8, 32], &blocks);
    let file = GgufFile::from_bytes(gguf).unwrap();
    let info = file.tensor("blk.0.weight").unwrap();
    assert_eq!(info.dtype, GgmlType::Q8_0);

    let raw = file.tensor_data("blk.0.weight").unwrap();
    let parsed_blocks = q8_from_bytes(raw);
    assert_eq!(parsed_blocks.len(), n / QK);

    // Native dequant.
    let native_out = jit_run_dequant(n as u32, &parsed_blocks);

    // Reference dequant for comparison.
    let want = dequantize(&parsed_blocks);

    for (i, (g, w)) in native_out.iter().zip(want.iter()).enumerate() {
        assert!((g - w).abs() < 1e-5, "idx {}: native {} reference {}", i, g, w);
    }
}

// ----- the kernel cache ------------------------------------------------------

#[test]
fn cache_compiles_and_calls_matmul() {
    let mut cache = MatmulJitCache::new();
    let a: Vec<f32> = (0..16).map(|i| (i as f32) * 0.5).collect();
    let b: Vec<f32> = (0..32).map(|i| (i as f32) * 0.25 + 1.0).collect();
    let f = cache.get_or_compile(4, 4, 8).expect("compile");
    let out = call(f, &[float_bytes(&a), float_bytes(&b)], 32);
    assert_eq!(cache.len(), 1);

    let want = naive_matmul(&a, &b, 4, 4, 8);
    for (g, w) in out.iter().zip(want.iter()) {
        assert!((g - w).abs() < 1e-4, "{} vs {}", g, w);
    }
}

#[test]
fn cache_returns_same_region_on_second_call() {
    let mut cache = MatmulJitCache::new();
    let _ = cache.get_or_compile(8, 8, 8).expect("compile 1");
    let _ = cache.get_or_compile(8, 8, 8).expect("compile 2");
    assert_eq!(cache.len(), 1, "second compile of same shape should hit cache");

    let _ = cache.get_or_compile(8, 8, 16).expect("compile other shape");
    assert_eq!(cache.len(), 2);
}

/// The decode shape (M=1, N % 32 == 0) takes the 1xN path with four
/// accumulators.
#[test]
fn decode_shape_1xn_4acc_path_matches_naive() {
    let mut cache = MatmulJitCache::new();
    // Mix of K values, all N divisible by 32: covers lm_head (large N),
    // FFN-style (medium N), and projection (smaller N).
    for &(m, k, n) in &[
        (1u32, 16, 32),
        (1, 32, 64),
        (1, 64, 96),
        (1, 128, 256),
        (1, 7, 32),  // odd K
        (1, 13, 64), // odd K, larger N
    ] {
        let f = cache
            .get_or_compile(m, k, n)
            .unwrap_or_else(|e| panic!("compile ({},{},{}): {}", m, k, n, e.message()));

        let a: Vec<f32> = (0..(m * k) as usize)
            .map(|i| ((i % 5) as f32) * 0.21 - 0.3)
            .collect();
        let b: Vec<f32> = (0..(k * n) as usize)
            .map(|i| ((i % 13) as f32) * 0.07 + 0.05)
            .collect();
        let out = call(f, &[float_bytes(&a), float_bytes(&b)], (m * n) as usize);

        let want = naive_matmul(&a, &b, m as usize, k as usize, n as usize);
        let tol = 1e-3 * (k as f32).max(1.0);
        for (g, w) in out.iter().zip(want.iter()) {
            assert!(
                (g - w).abs() < tol,
                "shape ({},{},{}): {} vs {} (tol {})",
                m,
                k,
                n,
                g,
                w,
                tol
            );
        }
    }
}

/// Fused Q8 x F32 matmul for the decode shape (N=1): the K-direction kernel
/// gives the same result as dequant-then-naive-matmul on a range of M and K.
#[test]
fn q8_n1_kernel_matches_dequant_then_naive() {
    let mut cache = MatmulJitCache::new();
    for &(m, k) in &[
        (8u32, 32),
        (16, 64),
        (32, 128),
        (7, 256),
        (896, 896),  // QKV projection, lm_head row stride
        (128, 4864), // FFN (small d_out, large d_in)
        (4864, 896), // FFN gate/up (large d_out, small d_in)
    ] {
        let n: u32 = 1;

        let wts_f32: Vec<f32> = (0..(m * k) as usize)
            .map(|i| (((i % 17) as f32) - 8.0) * 0.12)
            .collect();
        let wts_q8 = quantize(&wts_f32);
        // Reference: dequantize back and run a naive matmul on the result.
        let wts_dq = dequantize(&wts_q8);

        let acts: Vec<f32> = (0..(k * n) as usize)
            .map(|i| (((i % 11) as f32) - 5.0) * 0.07)
            .collect();
        let want = naive_matmul(&wts_dq, &acts, m as usize, k as usize, n as usize);

        let f = cache
            .get_or_compile_q8(m, k, n)
            .unwrap_or_else(|e| panic!("compile q8 ({},{},{}): {}", m, k, n, e.message()));
        let out = call(f, &[q8_to_bytes(&wts_q8), float_bytes(&acts)], (m * n) as usize);

        // K FMAs of fp32 values: the rounding scales with sqrt(K).
        let tol = 1e-3 * (k as f32).sqrt();
        for (idx, (g, w)) in out.iter().zip(want.iter()).enumerate() {
            assert!(
                (g - w).abs() < tol,
                "shape ({},{},{}) row {}: {} vs {} (tol {})",
                m,
                k,
                n,
                idx,
                g,
                w,
                tol
            );
        }
    }
    // Cache should hold one Q8 entry per distinct shape.
    assert_eq!(cache.q8_len(), 7);
}

/// Q8 weights x Q8 activations (N=1): the int-dot path agrees with
/// dequant-both-then-naive across decode shapes.
#[test]
fn q8q8_n1_kernel_matches_dequant_both_then_naive() {
    let mut cache = MatmulJitCache::new();
    for &(m, k) in &[
        (8u32, 32),
        (16, 64),
        (32, 128),
        (7, 256),    // odd M
        (896, 896),  // Qwen wq/wo shape
        (4864, 896), // Qwen FFN gate/up
        (128, 4864), // Qwen FFN down (small M, large K)
    ] {
        // Source values in a range where Q8 quantization round-trips
        // reasonably.
        let wts_f32: Vec<f32> = (0..(m * k) as usize)
            .map(|i| (((i % 17) as f32) - 8.0) * 0.07)
            .collect();
        let acts_f32: Vec<f32> = (0..k as usize)
            .map(|i| (((i % 13) as f32) - 6.0) * 0.04)
            .collect();

        // Quantize both, then dequantize for the reference matmul.
        let wts_q8 = quantize(&wts_f32);
        let acts_q8 = quantize(&acts_f32);
        let wts_dq = dequantize(&wts_q8);
        let acts_dq = dequantize(&acts_q8);

        let want = naive_matmul(&wts_dq, &acts_dq, m as usize, k as usize, 1);

        let f = cache
            .get_or_compile_q8q8(m, k)
            .unwrap_or_else(|e| panic!("compile q8q8 ({},{}): {}", m, k, e.message()));
        let out = call(f, &[q8_to_bytes(&wts_q8), q8_to_bytes(&acts_q8)], m as usize);

        let tol = 1e-3 * (k as f32).sqrt();
        for (idx, (g, w)) in out.iter().zip(want.iter()).enumerate() {
            assert!(
                (g - w).abs() < tol,
                "shape ({},{},1) row {}: {} vs {} (tol {})",
                m,
                k,
                idx,
                g,
                w,
                tol
            );
        }
    }
    assert_eq!(cache.q8q8_len(), 7);
}

#[test]
fn multiple_shapes_round_trip_correctly() {
    let mut cache = MatmulJitCache::new();
    for &(m, k, n) in &[(4u32, 4, 8), (8, 8, 8), (1, 8, 8), (16, 32, 16)] {
        let f = cache
            .get_or_compile(m, k, n)
            .unwrap_or_else(|e| panic!("shape ({},{},{}): {}", m, k, n, e.message()));

        let a: Vec<f32> = (0..(m * k) as usize)
            .map(|i| ((i % 7) as f32) * 0.13 - 0.5)
            .collect();
        let b: Vec<f32> = (0..(k * n) as usize)
            .map(|i| ((i % 11) as f32) * 0.07 + 0.1)
            .collect();
        let out = call(f, &[float_bytes(&a), float_bytes(&b)], (m * n) as usize);

        let want = naive_matmul(&a, &b, m as usize, k as usize, n as usize);
        // Tolerance grows with K (more FMAs accumulate rounding).
        let tol = 1e-3 * (k as f32).max(1.0);
        for (g, w) in out.iter().zip(want.iter()) {
            assert!((g - w).abs() < tol, "shape ({},{},{}): {} vs {}", m, k, n, g, w);
        }
    }
    assert_eq!(cache.len(), 4);
}

/// The integer dot product with `vpdpbusd`, in both encodings and with one and
/// with four accumulators, is the one without it.
#[test]
fn vnni_kernels_agree_with_the_plain_one() {
    for (m, k) in [(3u32, 32u32), (4, 96), (2, 128), (3, 256)] {
        let wts: Vec<f32> = (0..(m * k) as usize).map(|i| (((i % 17) as f32) - 8.0) * 0.07).collect();
        let acts: Vec<f32> = (0..k as usize).map(|i| (((i % 13) as f32) - 6.0) * 0.04).collect();
        let (w, a) = (quantize(&wts), quantize(&acts));
        let inputs = [q8_to_bytes(&w), q8_to_bytes(&a)];
        let want = naive_matmul(&dequantize(&w), &dequantize(&a), m as usize, k as usize, 1);

        let w_ty = static_type(DType::Q8_0, &[m, k]);
        let a_ty = static_type(DType::Q8_0, &[k, 1]);
        let out_ty = static_type(DType::F32, &[m, 1]);
        let mut func = Function::new("q8q8", vec![w_ty, a_ty], out_ty.clone());
        let (v_w, v_a) = (func.param_values[0], func.param_values[1]);
        let dq_w = func.push(Value {
            op: Op::Dequantize { x: v_w },
            ty: static_type(DType::F32, &[m, k]),
        });
        let dq_a = func.push(Value {
            op: Op::Dequantize { x: v_a },
            ty: static_type(DType::F32, &[k, 1]),
        });
        let mm = func.push(Value { op: Op::MatMul { lhs: dq_w, rhs: dq_a }, ty: out_ty });
        func.push(Value { op: Op::Return { value: mm }, ty: static_type(DType::F32, &[]) });
        let ir = IrModule { functions: vec![func] };

        for vnni in [None, Some(VnniForm::Vex256), Some(VnniForm::Evex256)] {
            let mut opts = CodegenOpts::default();
            opts.vnni = vnni;
            let mc = X86_64::host().lower(&ir, &opts).expect("lower");
            let region = ExecRegion::from_machine_code(&mc).expect("exec region");
            let got = call(&region, &inputs, m as usize);
            for (g, w) in got.iter().zip(want.iter()) {
                assert!((g - w).abs() < 1e-4, "({},{}): {} vs {}", m, k, g, w);
            }
        }
    }
}

// ----- fused Q8_0 x F32 products at prefill shapes ---------------------------

/// Q8 weight per row (K must be a multiple of 32); F32 activation [K,N] in
/// row-major; F32 output [M,N].
fn q8_prefill_one_shape(m: usize, k: usize, n: usize) {
    assert!(k % 32 == 0, "K must be a multiple of the Q8 block size");

    // Values mix sign and magnitude so a missed sub-accumulator or wrong row
    // stride blows up the check.
    let weights_f32: Vec<f32> = (0..m * k)
        .map(|i| ((i % 17) as f32) * 0.13 - ((i % 7) as f32) * 0.21)
        .collect();
    let weights_q8 = quantize(&weights_f32);

    // The comparison is on the same quantized weights.
    let weights_dq = dequantize(&weights_q8);

    let activations: Vec<f32> = (0..k * n)
        .map(|i| ((i % 11) as f32) * 0.07 + 0.05)
        .collect();

    let mut cache = MatmulJitCache::new();
    let f = cache
        .get_or_compile_q8(m as u32, k as u32, n as u32)
        .unwrap_or_else(|e| panic!("compile q8 ({},{},{}): {}", m, k, n, e.message()));
    let out_jit = call(f, &[q8_to_bytes(&weights_q8), float_bytes(&activations)], m * n);

    let out_ref = naive_matmul(&weights_dq, &activations, m, k, n);

    // Tolerance scales with K because each output is a K-long fp32 sum.
    let tol = 1e-3 * (k as f32).max(1.0);
    for (idx, (g, w)) in out_jit.iter().zip(out_ref.iter()).enumerate() {
        assert!(
            (g - w).abs() < tol,
            "shape ({},{},{}) idx {}: jit={} ref={} diff={} tol={}",
            m,
            k,
            n,
            idx,
            g,
            w,
            (g - w).abs(),
            tol
        );
    }
}

/// Smallest viable prefill shape: M=1 row, K=one Q8 block, N=8 lanes.
#[test]
fn q8_prefill_m1_k32_n8_matches_naive() {
    q8_prefill_one_shape(1, 32, 8);
}

/// M is small, K=896 (hidden size), N varies to cover small, medium and large
/// prefill batches.
#[test]
fn q8_prefill_qwen_like_shapes() {
    for &(m, k, n) in &[
        (4, 896, 8),
        (8, 896, 16),
        (8, 896, 32),
        (4, 4864, 8),
        (7, 896, 16),
        (16, 896, 64),
    ] {
        q8_prefill_one_shape(m, k, n);
    }
}

/// The prefill-shape kernel gives the same answer as the decode kernel when
/// N==1.
#[test]
fn q8_n1_decode_still_matches_naive() {
    q8_prefill_one_shape(8, 32, 1);
    q8_prefill_one_shape(8, 128, 1);
    q8_prefill_one_shape(32, 896, 1);
}
