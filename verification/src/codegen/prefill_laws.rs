//! The kernel that multiplies a Q8_0 matrix with an fp32 matrix computes the
//! product with the dequantized matrix.

use crate::codegen::assembler::{at, ConvInst, FloatInst, Inst, IntInst, MemInst};
use crate::codegen::avx2_enc::Ymm;
use crate::codegen::block_laws::{
    lemma_block_place, lemma_signed_low, lemma_vector_word, lemma_weight_byte,
    lemma_weight_scale, quant, scale_bits, weight, weights, Rows,
};
use crate::codegen::frame_laws::{in_range, left, lemma_enter, lemma_index, lemma_leave, same_outside};
use crate::codegen::kernels::{
    bind_code, blocks_per_row, bytes_per_row, counted, epilogue_code, frame_extra, gp, index_code,
    prologue_code, quant_matmul_q8_body_blocks, quant_matmul_q8_body_code,
    quant_matmul_q8_body_columns, quant_matmul_q8_body_elements, quant_matmul_q8_body_rows, vcvt,
    vmem, vps,
};
use crate::codegen::machine::{
    after_turn, bytes_at, lane_bytes, lemma_add_rr, lemma_imul, lemma_lanes_back, lemma_loop,
    lemma_mov_rr, lemma_movsx, lemma_run_concat, lemma_run_none, lemma_run_op, lemma_run_single,
    lemma_vbroadcastss_xmm, lemma_vcvtph2ps, lemma_vcvtsi2ss, lemma_vfmadd_mem, lemma_vmovd_load,
    lemma_vmovups_store, lemma_vmulss, lemma_vxorps, low, run, run_one, signed8, step, word_at,
    words, written, Fpu, Machine,
};
use crate::codegen::matmul_laws::{
    called, fused_dot, fused_product, lemma_last_count, lemma_position, lemma_small,
};
use crate::codegen::x86_64::Abi;
use crate::codegen::x86_64_enc::{Reg, Scale};
use vstd::prelude::*;

verus! {

/// The sizes of a product under way, and its operands.
pub struct Sizes {
    pub m: int,
    pub k: int,
    pub n: int,
    pub blocks: int,
    pub a: Seq<u32>,
    pub b: Seq<u32>,
}

impl Sizes {
    /// The sizes are 32-bit numbers, and the operands are what memory holds.
    spec fn fit(self, x: Rows, fpu: Fpu) -> bool {
        &&& x.ok()
        &&& 0 <= self.m < 0x8000_0000
        &&& 0 <= self.n < 0x8000_0000
        &&& 0 <= self.blocks
        &&& self.k == 32 * self.blocks
        &&& self.k < 0x8000_0000
        &&& x.m == self.m * self.n
        &&& x.w_len == 34 * (self.m * self.blocks)
        &&& x.a_len == 4 * (self.k * self.n)
        &&& self.a == weights(fpu, x.mem, x.w, (self.m * self.k) as nat)
        &&& self.b == words(x.mem, x.a, (self.k * self.n) as nat)
    }

    /// The first terms of entry `(i, j)`.
    spec fn sum(self, fpu: Fpu, i: int, j: int, terms: int) -> u32 {
        fused_dot(fpu, self.a, self.b, self.k, self.n, i, j, terms as nat)
    }
}

/// Element `e` of block `b` of row `i`.
proof fn lemma_element(y: Sizes, x: Rows, fpu: Fpu, i: int, b: int, e: int)
    requires
        y.fit(x, fpu),
        0 <= i < y.m,
        0 <= b < y.blocks,
        0 <= e < 32,
    ensures
        y.a[i * y.k + (32 * b + e)] == weight(fpu, x.mem, x.w, i * y.blocks + b, e),
        0 <= i * y.blocks + b,
        34 * (i * y.blocks + b) + 34 <= x.w_len,
        32 * b + e < y.k,
{
    lemma_block_place(y.m, y.blocks, i, b);
    lemma_position(y.m, y.k, i, 32 * b + e);
    let p = i * y.k + (32 * b + e);
    let q = i * y.blocks + b;
    assert(p == 32 * q + e) by (nonlinear_arith)
        requires
            p == i * y.k + (32 * b + e),
            q == i * y.blocks + b,
            y.k == 32 * y.blocks,
    ;
    assert(p / 32 == q && p % 32 == e);
}

/// Before element `c` of block `b`, for the entries `(i, j)` to `(i, j + 7)`.
spec fn elements_inv(
    y: Sizes,
    x: Rows,
    fpu: Fpu,
    i: int,
    j: int,
    b: int,
    mem0: spec_fn(int) -> u8,
    c: int,
    t: Machine,
) -> bool {
    &&& x.steady(t)
    &&& x.high(t)
    &&& t.mem == mem0
    &&& t.regs[Reg::R15] == i
    &&& t.regs[Reg::RBX] == j
    &&& t.regs[Reg::R11] == b
    &&& t.regs[Reg::RCX] == c
    &&& t.regs[Reg::RAX] == 34 * (i * y.blocks + b)
    &&& 0 <= c <= 32
    &&& t.vecs[2][0] == (fpu.widen)(scale_bits(x.mem, x.w, i * y.blocks + b))
    &&& forall|l: int| 0 <= l < 8 ==> #[trigger] t.vecs[0][l] == y.sum(fpu, i, j + l, 32 * b + c)
}

#[verifier::rlimit(40)]
proof fn lemma_element_turn(
    y: Sizes,
    x: Rows,
    fpu: Fpu,
    fuel: nat,
    i: int,
    j: int,
    b: int,
    mem0: spec_fn(int) -> u8,
    c: int,
    t: Machine,
)
    requires
        y.fit(x, fpu),
        0 <= i < y.m,
        0 <= j,
        j + 8 <= y.n,
        0 <= b < y.blocks,
        c < 32,
        elements_inv(y, x, fpu, i, j, b, mem0, c, t),
    ensures
        after_turn(
            Reg::RCX,
            1,
            quant_matmul_q8_body_elements(y.n as i32),
            fpu,
            fuel,
            t,
        ) matches Some(u) && elements_inv(y, x, fpu, i, j, b, mem0, c + 1, u),
{
    let n = y.n as i32;
    let block = i * y.blocks + b;
    let mw = at(Reg::R12, Reg::R8, Scale::S1, 2);
    let ma = at(Reg::R13, Reg::R8, Scale::S4, 0);
    let ce = seq![
        gp(IntInst::MovRR(Reg::R8, Reg::RAX)),
        gp(IntInst::AddRR(Reg::R8, Reg::RCX)),
        gp(IntInst::MovsxR32M8(Reg::R9, mw)),
        vcvt(ConvInst::Vcvtsi2ssXmmR32(Ymm(1), Ymm(2), Reg::R9)),
        vps(FloatInst::VmulssXmm(Ymm(1), Ymm(1), Ymm(2))),
        vps(FloatInst::VbroadcastssXmm(Ymm(1), Ymm(1))),
    ];
    let ci = index_code(Reg::R8, Reg::R11, 32, Reg::RCX);
    let cf = seq![
        gp(IntInst::ImulRRI(Reg::R8, Reg::R8, n)),
        gp(IntInst::AddRR(Reg::R8, Reg::RBX)),
        vmem(MemInst::Vfmadd231psMem(Ymm(0), Ymm(1), ma)),
    ];
    lemma_element(y, x, fpu, i, b, c);
    let row = 32 * b + c;
    lemma_position(y.k, y.n, row, j);
    lemma_position(y.k, y.n, row, j + 7);
    lemma_small(y.k, y.n);
    let place = x.w + 34 * block + 2 + c;
    let ec0 = ce;
    let ec1 = ec0.drop_first();
    let ec2 = ec1.drop_first();
    let ec3 = ec2.drop_first();
    let ec4 = ec3.drop_first();
    let ec5 = ec4.drop_first();
    let ec6 = ec5.drop_first();
    let e1 = step(Inst::Int(IntInst::MovRR(Reg::R8, Reg::RAX)), fpu, t);
    lemma_mov_rr(Reg::R8, Reg::RAX, fpu, t);
    lemma_run_op(ec0, fpu, fuel, t);
    let e2 = step(Inst::Int(IntInst::AddRR(Reg::R8, Reg::RCX)), fpu, e1);
    lemma_add_rr(Reg::R8, Reg::RCX, fpu, e1);
    lemma_run_op(ec1, fpu, fuel, e1);
    let e3 = step(Inst::Int(IntInst::MovsxR32M8(Reg::R9, mw)), fpu, e2);
    lemma_movsx(Reg::R9, mw, fpu, e2);
    lemma_run_op(ec2, fpu, fuel, e2);
    let e4 = step(Inst::Conv(ConvInst::Vcvtsi2ssXmmR32(Ymm(1), Ymm(2), Reg::R9)), fpu, e3);
    lemma_vcvtsi2ss(Ymm(1), Ymm(2), Reg::R9, fpu, e3);
    lemma_run_op(ec3, fpu, fuel, e3);
    let e5 = step(Inst::Float(FloatInst::VmulssXmm(Ymm(1), Ymm(1), Ymm(2))), fpu, e4);
    lemma_vmulss(Ymm(1), Ymm(1), Ymm(2), fpu, e4);
    lemma_run_op(ec4, fpu, fuel, e4);
    let e6 = step(Inst::Float(FloatInst::VbroadcastssXmm(Ymm(1), Ymm(1))), fpu, e5);
    lemma_vbroadcastss_xmm(Ymm(1), Ymm(1), fpu, e5);
    lemma_run_op(ec5, fpu, fuel, e5);
    lemma_run_none(ec6, fpu, fuel, e6);
    assert(e2.regs[Reg::R8] == 34 * block + c);
    assert(e2.addr(mw) == place);
    let z = signed8((t.mem)(place));
    lemma_weight_byte(x, t, place);
    assert(z == quant(x.mem, x.w, block, c));
    lemma_signed_low(z);
    assert(e3.regs[Reg::R9] == low(z));
    assert(low(e3.regs[Reg::R9]) == low(z));
    assert(e4.vecs[1][0] == (fpu.from_int)(z));
    assert(e4.vecs[2] == t.vecs[2]);
    assert(e5.vecs[1][0] == weight(fpu, x.mem, x.w, block, c));
    assert(forall|l: int| 0 <= l < 8 ==> #[trigger] e6.vecs[1][l] == y.a[i * y.k + row]);
    assert(in_range(e6));
    lemma_index(Reg::R8, Reg::R11, 32, Reg::RCX, fpu, fuel, e6, row);
    let s1 = Machine { regs: e6.regs.insert(Reg::R8, row), ..e6 };
    lemma_run_concat(ce, ci, fpu, fuel, t);
    let fc0 = cf;
    let fc1 = fc0.drop_first();
    let fc2 = fc1.drop_first();
    let fc3 = fc2.drop_first();
    let f1 = step(Inst::Int(IntInst::ImulRRI(Reg::R8, Reg::R8, n)), fpu, s1);
    lemma_imul(Reg::R8, Reg::R8, n, fpu, s1);
    lemma_run_op(fc0, fpu, fuel, s1);
    let f2 = step(Inst::Int(IntInst::AddRR(Reg::R8, Reg::RBX)), fpu, f1);
    lemma_add_rr(Reg::R8, Reg::RBX, fpu, f1);
    lemma_run_op(fc1, fpu, fuel, f1);
    let f3 = step(Inst::Mem(MemInst::Vfmadd231psMem(Ymm(0), Ymm(1), ma)), fpu, f2);
    lemma_vfmadd_mem(Ymm(0), Ymm(1), ma, fpu, f2);
    lemma_run_op(fc2, fpu, fuel, f2);
    lemma_run_none(fc3, fpu, fuel, f3);
    lemma_run_concat(ce + ci, cf, fpu, fuel, t);
    let p = row * y.n + j;
    assert(f1.regs[Reg::R8] == row * y.n);
    assert(f2.regs[Reg::R8] == p);
    assert(f2.addr(ma) == x.a + 4 * p);
    assert forall|l: int| 0 <= l < 8 implies #[trigger] f3.vecs[0][l] == y.sum(
        fpu,
        i,
        j + l,
        32 * b + (c + 1),
    ) by {
        lemma_vector_word(x, t, x.a + 4 * p + 4 * l);
        assert(x.a + 4 * p + 4 * l == x.a + 4 * (p + l));
        assert(y.b[p + l] == word_at(x.mem, x.a + 4 * (p + l)));
        assert(p + l == row * y.n + (j + l));
        assert(f2.vecs[1][l] == y.a[i * y.k + row]);
        assert(t.vecs[0][l] == y.sum(fpu, i, j + l, row));
        assert(f2.vecs[0] == t.vecs[0]);
        assert(32 * b + (c + 1) == row + 1);
    }
    assert(run(quant_matmul_q8_body_elements(n), fpu, fuel, t) == Some(f3));
    let u = f3.set(Reg::RCX, f3.regs[Reg::RCX] + 1);
    assert(in_range(u));
}

/// Before block `b`, for the entries `(i, j)` to `(i, j + 7)`.
spec fn blocks_inv(
    y: Sizes,
    x: Rows,
    fpu: Fpu,
    i: int,
    j: int,
    mem0: spec_fn(int) -> u8,
    b: int,
    t: Machine,
) -> bool {
    &&& x.steady(t)
    &&& x.high(t)
    &&& t.mem == mem0
    &&& t.regs[Reg::R15] == i
    &&& t.regs[Reg::RBX] == j
    &&& t.regs[Reg::R11] == b
    &&& 0 <= b <= y.blocks
    &&& forall|l: int| 0 <= l < 8 ==> #[trigger] t.vecs[0][l] == y.sum(fpu, i, j + l, 32 * b)
}

#[verifier::rlimit(40)]
proof fn lemma_block_turn(
    y: Sizes,
    x: Rows,
    fpu: Fpu,
    fuel: nat,
    row_bytes: i32,
    i: int,
    j: int,
    mem0: spec_fn(int) -> u8,
    b: int,
    t: Machine,
)
    requires
        y.fit(x, fpu),
        row_bytes == 34 * y.blocks,
        fuel > 33,
        0 <= i < y.m,
        0 <= j,
        j + 8 <= y.n,
        b < y.blocks,
        blocks_inv(y, x, fpu, i, j, mem0, b, t),
    ensures
        after_turn(
            Reg::R11,
            1,
            quant_matmul_q8_body_blocks(y.n as i32, row_bytes),
            fpu,
            fuel,
            t,
        ) matches Some(u) && blocks_inv(y, x, fpu, i, j, mem0, b + 1, u),
{
    let n = y.n as i32;
    let block = i * y.blocks + b;
    let mw = at(Reg::R12, Reg::RAX, Scale::S1, 0);
    let ca = seq![
        gp(IntInst::MovRR(Reg::RDX, Reg::R15)),
        gp(IntInst::ImulRRI(Reg::RDX, Reg::RDX, row_bytes)),
    ];
    let ci = index_code(Reg::RAX, Reg::R11, 34, Reg::RDX);
    let cs = seq![
        vmem(MemInst::VmovdLoad(Ymm(2), mw)),
        vcvt(ConvInst::Vcvtph2psXmm(Ymm(2), Ymm(2))),
    ];
    let body = quant_matmul_q8_body_elements(n);
    let turns = seq![counted(Reg::RCX, 32, 1, body)];
    lemma_element(y, x, fpu, i, b, 0);
    let p = i * row_bytes;
    assert(p == 34 * (i * y.blocks) && 0 <= i * y.blocks) by (nonlinear_arith)
        requires
            p == i * row_bytes,
            row_bytes == 34 * y.blocks,
            0 <= y.blocks,
            0 <= i,
    ;
    let ac0 = ca;
    let ac1 = ac0.drop_first();
    let ac2 = ac1.drop_first();
    let a1 = step(Inst::Int(IntInst::MovRR(Reg::RDX, Reg::R15)), fpu, t);
    lemma_mov_rr(Reg::RDX, Reg::R15, fpu, t);
    lemma_run_op(ac0, fpu, fuel, t);
    let a2 = step(Inst::Int(IntInst::ImulRRI(Reg::RDX, Reg::RDX, row_bytes)), fpu, a1);
    lemma_imul(Reg::RDX, Reg::RDX, row_bytes, fpu, a1);
    lemma_run_op(ac1, fpu, fuel, a1);
    lemma_run_none(ac2, fpu, fuel, a2);
    assert(a2.regs[Reg::RDX] == p);
    assert(in_range(a2));
    lemma_index(Reg::RAX, Reg::R11, 34, Reg::RDX, fpu, fuel, a2, 34 * block);
    let s1 = Machine { regs: a2.regs.insert(Reg::RAX, 34 * block), ..a2 };
    lemma_run_concat(ca, ci, fpu, fuel, t);
    let cc0 = cs;
    let cc1 = cc0.drop_first();
    let cc2 = cc1.drop_first();
    let c1 = step(Inst::Mem(MemInst::VmovdLoad(Ymm(2), mw)), fpu, s1);
    lemma_vmovd_load(Ymm(2), mw, fpu, s1);
    lemma_run_op(cc0, fpu, fuel, s1);
    let c2 = step(Inst::Conv(ConvInst::Vcvtph2psXmm(Ymm(2), Ymm(2))), fpu, c1);
    lemma_vcvtph2ps(Ymm(2), Ymm(2), fpu, c1);
    lemma_run_op(cc1, fpu, fuel, c1);
    lemma_run_none(cc2, fpu, fuel, c2);
    lemma_run_concat(ca + ci, cs, fpu, fuel, t);
    assert(s1.addr(mw) == x.w + 34 * block);
    lemma_weight_scale(x, t, block);
    assert(c1.vecs[2][0] == word_at(t.mem, x.w + 34 * block));
    assert(c2.vecs[2][0] == (fpu.widen)(scale_bits(x.mem, x.w, block)));
    assert(in_range(c2));
    assert(x.steady(c2));

    let inv = |c: int, u: Machine| elements_inv(y, x, fpu, i, j, b, mem0, c, u);
    assert forall|c: int, u: Machine| #[trigger]
        inv(c, u) && 0 <= c < 32 && c % 1 == 0 implies (after_turn(
        Reg::RCX,
        1,
        body,
        fpu,
        fuel,
        u,
    ) matches Some(w) && inv(c + 1, w)) by {
        lemma_element_turn(y, x, fpu, fuel, i, j, b, mem0, c, u);
    }
    let s0 = c2.set(Reg::RCX, 0);
    assert(in_range(s0));
    assert(inv(0, s0));
    lemma_loop(Reg::RCX, 32, 1, body, fpu, fuel, c2, inv);
    lemma_last_count(32, 1);
    lemma_run_single(turns[0], fpu, fuel, c2);
    let s3 = run_one(turns[0], fpu, fuel, c2)->0;
    assert(inv(32, s3));
    lemma_run_concat(ca + ci + cs, turns, fpu, fuel, t);
    assert(run(quant_matmul_q8_body_blocks(n, row_bytes), fpu, fuel, t) == Some(s3));
    assert(32 * b + 32 == 32 * (b + 1));
    let u = s3.set(Reg::R11, s3.regs[Reg::R11] + 1);
    assert(in_range(u));
}

/// Before entry `j` of row `i`.
spec fn columns_inv(y: Sizes, x: Rows, i: int, j: int, t: Machine) -> bool {
    &&& x.steady(t)
    &&& x.high(t)
    &&& t.regs[Reg::R15] == i
    &&& t.regs[Reg::RBX] == j
    &&& 0 <= j <= y.n
    &&& x.filled(t.mem, i * y.n + j)
}

/// The entries of a task are those of the product.
spec fn is_product(y: Sizes, x: Rows, fpu: Fpu) -> bool {
    forall|p: int|
        0 <= p < y.m * y.n ==> #[trigger] (x.entry)(p) == y.sum(fpu, p / y.n, p % y.n, y.k)
}

/// Writing a register with the next eight entries.
proof fn lemma_fill_eight(
    y: Sizes,
    x: Rows,
    fpu: Fpu,
    mem: spec_fn(int) -> u8,
    v: Seq<u32>,
    i: int,
    j: int,
)
    requires
        y.fit(x, fpu),
        is_product(y, x, fpu),
        0 <= i < y.m,
        0 <= j,
        j + 8 <= y.n,
        x.filled(mem, i * y.n + j),
        same_outside(x.base, mem, x.out, x.out + 4 * x.m),
        forall|l: int| 0 <= l < 8 ==> #[trigger] v[l] == y.sum(fpu, i, j + l, y.k),
    ensures
        ({
            let next = written(mem, x.out + 4 * (i * y.n + j), lane_bytes(v, 8));
            &&& x.filled(next, i * y.n + j + 8)
            &&& same_outside(x.base, next, x.out, x.out + 4 * x.m)
        }),
{
    let p = i * y.n + j;
    let next = written(mem, x.out + 4 * p, lane_bytes(v, 8));
    lemma_position(y.m, y.n, i, j);
    lemma_position(y.m, y.n, i, j + 7);
    assert forall|q: int| 0 <= q < p + 8 implies #[trigger] word_at(next, x.out + 4 * q) == (
    x.entry)(q) by {
        if q < p {
            assert(word_at(mem, x.out + 4 * q) == (x.entry)(q));
            assert(bytes_at(next, x.out + 4 * q, 4) =~= bytes_at(mem, x.out + 4 * q, 4));
        } else {
            let l = q - p;
            lemma_lanes_back(mem, x.out + 4 * p, v, 8, l);
            assert(x.out + 4 * p + 4 * l == x.out + 4 * q);
            assert(q == i * y.n + (j + l));
            lemma_position(y.m, y.n, i, j + l);
            assert(v[l] == y.sum(fpu, i, j + l, y.k));
        }
    }
    assert forall|q: int| !(x.out <= q < x.out + 4 * x.m) implies #[trigger] next(q) == (x.base)(
        q,
    ) by {
        assert(mem(q) == (x.base)(q));
    }
}

#[verifier::rlimit(40)]
proof fn lemma_column_turn(
    y: Sizes,
    x: Rows,
    fpu: Fpu,
    fuel: nat,
    k_blocks: i32,
    row_bytes: i32,
    i: int,
    j: int,
    t: Machine,
)
    requires
        y.fit(x, fpu),
        is_product(y, x, fpu),
        k_blocks == y.blocks,
        row_bytes == 34 * y.blocks,
        fuel > 33,
        fuel > k_blocks + 1,
        0 <= i < y.m,
        j + 8 <= y.n,
        columns_inv(y, x, i, j, t),
    ensures
        after_turn(
            Reg::RBX,
            8,
            quant_matmul_q8_body_columns(y.n as i32, k_blocks, row_bytes),
            fpu,
            fuel,
            t,
        ) matches Some(u) && columns_inv(y, x, i, j + 8, u),
{
    let n = y.n as i32;
    let body = quant_matmul_q8_body_blocks(n, row_bytes);
    let zero = seq![vps(FloatInst::VxorpsZero(Ymm(0)))];
    let turns = seq![counted(Reg::R11, k_blocks, 1, body)];
    let place = index_code(Reg::RAX, Reg::R15, n, Reg::RBX);
    let mo = at(Reg::R14, Reg::RAX, Scale::S4, 0);
    let put = seq![vmem(MemInst::VmovupsStore(Ymm(0), mo))];
    let p = i * y.n + j;
    lemma_position(y.m, y.n, i, j);
    lemma_position(y.m, y.n, i, j + 7);
    lemma_small(y.m, y.n);
    let zc0 = zero;
    let zc1 = zc0.drop_first();
    let z1 = step(Inst::Float(FloatInst::VxorpsZero(Ymm(0))), fpu, t);
    lemma_vxorps(Ymm(0), fpu, t);
    lemma_run_op(zc0, fpu, fuel, t);
    lemma_run_none(zc1, fpu, fuel, z1);
    assert(in_range(z1));
    assert(x.steady(z1));
    assert(forall|l: int| 0 <= l < 8 ==> #[trigger] z1.vecs[0][l] == 0);

    let inv = |b: int, u: Machine| blocks_inv(y, x, fpu, i, j, t.mem, b, u);
    assert forall|b: int, u: Machine| #[trigger]
        inv(b, u) && 0 <= b < k_blocks && b % 1 == 0 implies (after_turn(
        Reg::R11,
        1,
        body,
        fpu,
        fuel,
        u,
    ) matches Some(w) && inv(b + 1, w)) by {
        lemma_block_turn(y, x, fpu, fuel, row_bytes, i, j, t.mem, b, u);
    }
    let s0 = z1.set(Reg::R11, 0);
    assert(in_range(s0));
    assert(inv(0, s0));
    lemma_loop(Reg::R11, k_blocks, 1, body, fpu, fuel, z1, inv);
    lemma_last_count(y.blocks, 1);
    lemma_run_single(turns[0], fpu, fuel, z1);
    let s2 = run_one(turns[0], fpu, fuel, z1)->0;
    assert(inv(y.blocks, s2));
    lemma_run_concat(zero, turns, fpu, fuel, t);

    lemma_index(Reg::RAX, Reg::R15, n, Reg::RBX, fpu, fuel, s2, p);
    let s3 = Machine { regs: s2.regs.insert(Reg::RAX, p), ..s2 };
    lemma_run_concat(zero + turns, place, fpu, fuel, t);
    let s4 = step(Inst::Mem(MemInst::VmovupsStore(Ymm(0), mo)), fpu, s3);
    lemma_vmovups_store(Ymm(0), mo, fpu, s3);
    lemma_run_concat(zero + turns + place, put, fpu, fuel, t);
    lemma_run_op(put, fpu, fuel, s3);
    lemma_run_none(put.drop_first(), fpu, fuel, s4);
    assert(s3.addr(mo) == x.out + 4 * p);
    lemma_fill_eight(y, x, fpu, t.mem, s3.vecs[0], i, j);
    let u = s4.set(Reg::RBX, s4.regs[Reg::RBX] + 8);
    assert(run(quant_matmul_q8_body_columns(n, k_blocks, row_bytes), fpu, fuel, t) == Some(s4));
    assert(in_range(u));
    assert(i * y.n + (j + 8) == p + 8);
}

/// Before row `i`.
spec fn rows_inv(y: Sizes, x: Rows, i: int, t: Machine) -> bool {
    &&& x.steady(t)
    &&& x.high(t)
    &&& t.regs[Reg::R15] == i
    &&& 0 <= i <= y.m
    &&& x.filled(t.mem, i * y.n)
}

proof fn lemma_row_turn(
    y: Sizes,
    x: Rows,
    fpu: Fpu,
    fuel: nat,
    k_blocks: i32,
    row_bytes: i32,
    i: int,
    t: Machine,
)
    requires
        y.fit(x, fpu),
        is_product(y, x, fpu),
        y.n % 8 == 0,
        k_blocks == y.blocks,
        row_bytes == 34 * y.blocks,
        fuel > 33,
        fuel > k_blocks + 1,
        fuel > y.n + 8,
        i < y.m,
        rows_inv(y, x, i, t),
    ensures
        after_turn(
            Reg::R15,
            1,
            quant_matmul_q8_body_rows(y.n as i32, k_blocks, row_bytes),
            fpu,
            fuel,
            t,
        ) matches Some(u) && rows_inv(y, x, i + 1, u),
{
    let n = y.n as i32;
    let body = quant_matmul_q8_body_columns(n, k_blocks, row_bytes);
    let code = quant_matmul_q8_body_rows(n, k_blocks, row_bytes);
    let inv = |j: int, u: Machine| columns_inv(y, x, i, j, u);
    assert forall|j: int, u: Machine| #[trigger]
        inv(j, u) && 0 <= j < n && j % 8 == 0 implies (after_turn(
        Reg::RBX,
        8,
        body,
        fpu,
        fuel,
        u,
    ) matches Some(w) && inv(j + 8, w)) by {
        lemma_column_turn(y, x, fpu, fuel, k_blocks, row_bytes, i, j, u);
    }
    let s0 = t.set(Reg::RBX, 0);
    assert(in_range(s0));
    assert(x.steady(s0));
    assert(inv(0, s0));
    lemma_loop(Reg::RBX, n, 8, body, fpu, fuel, t, inv);
    lemma_last_count(y.n, 8);
    lemma_run_single(code[0], fpu, fuel, t);
    assert(code =~= seq![code[0]]);
    let s1 = run_one(code[0], fpu, fuel, t)->0;
    assert(inv(y.n, s1));
    assert((i + 1) * y.n == i * y.n + y.n) by (nonlinear_arith);
    let u = s1.set(Reg::R15, s1.regs[Reg::R15] + 1);
    assert(in_range(u));
    assert(x.steady(u));
}

/// The kernel computes the fused product of the dequantized matrix and an fp32
/// matrix, where `k` is a multiple of 32 and `n` one of eight.
#[verifier::rlimit(40)]
pub proof fn lemma_quant_matmul_q8(
    fpu: Fpu,
    fuel: nat,
    s: Machine,
    w: Reg,
    a: Reg,
    out: Reg,
    m: i32,
    k: i32,
    n: i32,
    abi: Abi,
)
    requires
        0 <= m,
        0 <= k,
        0 <= n,
        k % 32 == 0,
        n % 8 == 0,
        k / 32 * 34 <= i32::MAX,
        fuel > m + 1,
        fuel > 33,
        fuel > k / 32 + 1,
        fuel > n + 8,
        called(s, w, 34 * (m * (k / 32)), a, 4 * (k * n), out, 4 * (m * n), abi),
    ensures
        run(quant_matmul_q8_body_code(w, a, out, m, k, n, abi), fpu, fuel, s) matches Some(t) && {
            &&& left(s, t, s.regs[out], s.regs[out] + 4 * (m * n))
            &&& words(t.mem, s.regs[out], (m * n) as nat) == fused_product(
                fpu,
                weights(fpu, s.mem, s.regs[w], (m * k) as nat),
                words(s.mem, s.regs[a], (k * n) as nat),
                m as nat,
                k as nat,
                n as nat,
            )
        },
{
    let extra = frame_extra(abi);
    let k_blocks = blocks_per_row(k);
    let row_bytes = bytes_per_row(k);
    let w_len = 34 * (m * (k / 32));
    let a_len = 4 * (k * n);
    let y = Sizes {
        m: m as int,
        k: k as int,
        n: n as int,
        blocks: k / 32,
        a: weights(fpu, s.mem, s.regs[w], (m * k) as nat),
        b: words(s.mem, s.regs[a], (k * n) as nat),
    };
    let want = fused_product(fpu, y.a, y.b, m as nat, k as nat, n as nat);
    let entry = |p: int| want[p];
    let head = prologue_code(extra) + bind_code(w, a, out);
    let body = quant_matmul_q8_body_rows(n, k_blocks, row_bytes);
    let rows = seq![counted(Reg::R15, m, 1, body)];
    lemma_small(m as int, k as int);
    lemma_small(k as int, n as int);
    lemma_small(m as int, n as int);
    lemma_small(m as int, k / 32);
    lemma_enter(extra, w, a, out, fpu, fuel, s);
    let t = run(head, fpu, fuel, s)->0;
    let x = Rows {
        m: m * n,
        w: s.regs[w],
        w_len,
        a: s.regs[a],
        a_len,
        out: s.regs[out],
        sp: t.regs[Reg::RSP],
        bp: s.regs[Reg::RBP],
        vecs: s.vecs,
        mem: s.mem,
        base: t.mem,
        entry,
    };
    assert(0 <= s.regs[w] && 0 <= s.regs[a] && 0 <= s.regs[out]);
    assert(x.ok());
    assert(y.fit(x, fpu));
    assert(is_product(y, x, fpu));

    let inv = |i: int, u: Machine| rows_inv(y, x, i, u);
    assert forall|i: int, u: Machine| #[trigger]
        inv(i, u) && 0 <= i < m && i % 1 == 0 implies (after_turn(
        Reg::R15,
        1,
        body,
        fpu,
        fuel,
        u,
    ) matches Some(z) && inv(i + 1, z)) by {
        lemma_row_turn(y, x, fpu, fuel, k_blocks, row_bytes, i, u);
    }
    let s0 = t.set(Reg::R15, 0);
    assert(in_range(s0));
    assert(0 * y.n == 0);
    assert(inv(0, s0));
    lemma_loop(Reg::R15, m, 1, body, fpu, fuel, t, inv);
    lemma_last_count(y.m, 1);
    lemma_run_single(rows[0], fpu, fuel, t);
    let u = run_one(rows[0], fpu, fuel, t)->0;
    assert(inv(y.m, u));
    lemma_run_concat(head, rows, fpu, fuel, s);
    lemma_leave(extra, fpu, fuel, s, t, u, w, a, out, s.regs[out], s.regs[out] + 4 * (m * n));
    lemma_run_concat(head + rows, epilogue_code(extra), fpu, fuel, s);
    let v = run(epilogue_code(extra), fpu, fuel, u)->0;
    assert(words(v.mem, s.regs[out], (m * n) as nat) =~= want);
}

} // verus!
