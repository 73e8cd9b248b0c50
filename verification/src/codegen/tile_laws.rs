//! The matrix product kernels with several accumulators compute matrix
//! products.

use crate::codegen::assembler::{at, FloatInst, Inst, IntInst, Mem, MemInst};
use crate::codegen::avx2_enc::Ymm;
use crate::codegen::frame_laws::{in_range, lemma_enter, lemma_index, same_high, same_outside};
use crate::codegen::kernels::{
    bind_code, counted, epilogue_code, frame_extra, gp, index_code, matmul_avx2_1xn_4acc_code,
    matmul_avx2_1xn_4acc_columns, matmul_avx2_1xn_4acc_terms, matmul_tile_4x8_code,
    matmul_tile_4x8_columns, matmul_tile_4x8_rows, matmul_tile_4x8_terms, prologue_code,
    tile_index_code, tile_row_step_code, tile_row_store_code, vmem, vps, zero4_code,
};
use crate::codegen::machine::{
    after_turn, bytes_at, lane_bytes, lemma_add_ri, lemma_add_rr, lemma_imul, lemma_lanes_back,
    lemma_loop, lemma_mov_rr, lemma_run_concat, lemma_run_none, lemma_run_op, lemma_run_single,
    lemma_vbroadcastss, lemma_vfmadd_mem, lemma_vfmadd_reg, lemma_vmovups_load,
    lemma_vmovups_store, lemma_vxorps, run, run_one, step, word_at, word_count, written, Fpu,
    Machine,
};
use crate::codegen::matmul_laws::{
    called, fused_dot, fused_task, gives_fused_product, is_fused, lemma_entered_steady,
    lemma_fused_end, lemma_fused_task, lemma_inputs_stay, lemma_last_count, lemma_position,
    lemma_small, lemma_store_wide, Task,
};
use crate::codegen::x86_64::Abi;
use crate::codegen::x86_64_enc::{Reg, Scale};
use vstd::prelude::*;

verus! {

/// The lanes of `v` are the first `c` terms of the entries from `(i, j)` on.
pub open spec fn sums(x: Task, fpu: Fpu, i: int, j: int, c: nat, v: Seq<u32>) -> bool {
    forall|l: int|
        0 <= l < 8 ==> #[trigger] v[l] == fused_dot(fpu, x.a, x.b, x.k, x.n, i, j + l, c)
}

/// Clearing the four accumulators.
pub(crate) proof fn lemma_zero4(fpu: Fpu, fuel: nat, t: Machine)
    requires
        in_range(t),
    ensures
        run(zero4_code(), fpu, fuel, t) matches Some(u) && {
            &&& in_range(u)
            &&& u.regs == t.regs
            &&& u.mem == t.mem
            &&& u.returned == t.returned
            &&& same_high(t, u)
            &&& forall|l: int|
                #![trigger u.vecs[0][l]]
                #![trigger u.vecs[1][l]]
                #![trigger u.vecs[2][l]]
                #![trigger u.vecs[3][l]]
                0 <= l < 8 ==> u.vecs[0][l] == 0 && u.vecs[1][l] == 0 && u.vecs[2][l] == 0
                    && u.vecs[3][l] == 0
        },
{
    let c0 = zero4_code();
    let c1 = c0.drop_first();
    let c2 = c1.drop_first();
    let c3 = c2.drop_first();
    let s1 = step(Inst::Float(FloatInst::VxorpsZero(Ymm(0))), fpu, t);
    let s2 = step(Inst::Float(FloatInst::VxorpsZero(Ymm(1))), fpu, s1);
    let s3 = step(Inst::Float(FloatInst::VxorpsZero(Ymm(2))), fpu, s2);
    let s4 = step(Inst::Float(FloatInst::VxorpsZero(Ymm(3))), fpu, s3);
    lemma_vxorps(Ymm(0), fpu, t);
    lemma_vxorps(Ymm(1), fpu, s1);
    lemma_vxorps(Ymm(2), fpu, s2);
    lemma_vxorps(Ymm(3), fpu, s3);
    lemma_run_op(c0, fpu, fuel, t);
    lemma_run_op(c1, fpu, fuel, s1);
    lemma_run_op(c2, fpu, fuel, s2);
    lemma_run_op(c3, fpu, fuel, s3);
    lemma_run_none(c3.drop_first(), fpu, fuel, s4);
}

// ---- one row, 32 columns at a time ----------------------------------------------------

/// Adds term `c` to one accumulator.
proof fn lemma_add_term(
    x: Task,
    fpu: Fpu,
    s: Machine,
    acc: u8,
    m: Mem,
    j: int,
    c: int,
)
    requires
        x.ok(),
        x.m == 1,
        0 <= j,
        j + 8 <= x.n,
        0 <= c < x.k,
        in_range(s),
        acc < 4,
        s.addr(m) == x.rhs + 4 * (c * x.n + j),
        forall|l: int| 0 <= l < 8 ==> #[trigger] s.vecs[4][l] == x.a[c],
        forall|q: int|
            0 <= q < x.k * x.n ==> #[trigger] word_at(s.mem, x.rhs + 4 * q) == x.b[q],
        sums(x, fpu, 0, j, c as nat, s.vecs[acc]),
    ensures
        ({
            let u = step(Inst::Mem(MemInst::Vfmadd231psMem(Ymm(acc), Ymm(4), m)), fpu, s);
            &&& in_range(u)
            &&& u.regs == s.regs
            &&& u.mem == s.mem
            &&& forall|q: u8| q != acc ==> #[trigger] u.vecs[q] == s.vecs[q]
            &&& sums(x, fpu, 0, j, (c + 1) as nat, u.vecs[acc])
        }),
{
    lemma_vfmadd_mem(Ymm(acc), Ymm(4), m, fpu, s);
    let u = step(Inst::Mem(MemInst::Vfmadd231psMem(Ymm(acc), Ymm(4), m)), fpu, s);
    lemma_position(x.k, x.n, c, j);
    lemma_position(x.k, x.n, c, j + 7);
    let p = c * x.n + j;
    assert forall|l: int| 0 <= l < 8 implies #[trigger] u.vecs[acc][l] == fused_dot(
        fpu,
        x.a,
        x.b,
        x.k,
        x.n,
        0,
        j + l,
        (c + 1) as nat,
    ) by {
        assert(word_at(s.mem, x.rhs + 4 * (p + l)) == x.b[p + l]);
        assert(x.rhs + 4 * p + 4 * l == x.rhs + 4 * (p + l));
        assert(p + l == c * x.n + (j + l));
        assert(s.vecs[4][l] == x.a[c]);
        assert(s.vecs[acc][l] == fused_dot(fpu, x.a, x.b, x.k, x.n, 0, j + l, c as nat));
        assert(0 * x.k + c == c);
    }
}

/// Before term `c` of the entries `j` to `j + 31`.
spec fn four_inv(
    x: Task,
    fpu: Fpu,
    j: int,
    mem0: spec_fn(int) -> u8,
    c: int,
    t: Machine,
) -> bool {
    &&& x.steady(t)
    &&& t.regs[Reg::RBX] == j
    &&& t.regs[Reg::RCX] == c
    &&& 0 <= c <= x.k
    &&& t.mem == mem0
    &&& sums(x, fpu, 0, j, c as nat, t.vecs[0])
    &&& sums(x, fpu, 0, j + 8, c as nat, t.vecs[1])
    &&& sums(x, fpu, 0, j + 16, c as nat, t.vecs[2])
    &&& sums(x, fpu, 0, j + 24, c as nat, t.vecs[3])
}

#[verifier::rlimit(40)]
proof fn lemma_four_term(
    x: Task,
    fpu: Fpu,
    fuel: nat,
    j: int,
    mem0: spec_fn(int) -> u8,
    c: int,
    t: Machine,
)
    requires
        x.ok(),
        x.m == 1,
        0 <= j,
        j + 32 <= x.n,
        c < x.k,
        four_inv(x, fpu, j, mem0, c, t),
    ensures
        after_turn(
            Reg::RCX,
            1,
            matmul_avx2_1xn_4acc_terms(x.n as i32),
            fpu,
            fuel,
            t,
        ) matches Some(u) && four_inv(x, fpu, j, mem0, c + 1, u),
{
    let n = x.n as i32;
    lemma_position(x.k, x.n, c, j);
    lemma_position(x.k, x.n, c, j + 31);
    lemma_small(x.k, x.n);
    assert(1 * x.k == x.k);
    let p = c * x.n + j;
    let ma = at(Reg::R12, Reg::RCX, Scale::S4, 0);
    let m0 = at(Reg::R13, Reg::RDX, Scale::S4, 0);
    let m1 = at(Reg::R13, Reg::RDX, Scale::S4, 32);
    let m2 = at(Reg::R13, Reg::RDX, Scale::S4, 64);
    let m3 = at(Reg::R13, Reg::RDX, Scale::S4, 96);
    let ca = seq![vmem(MemInst::Vbroadcastss(Ymm(4), ma))];
    let cb = index_code(Reg::RDX, Reg::RCX, n, Reg::RBX);
    let cc = seq![
        vmem(MemInst::Vfmadd231psMem(Ymm(0), Ymm(4), m0)),
        vmem(MemInst::Vfmadd231psMem(Ymm(1), Ymm(4), m1)),
        vmem(MemInst::Vfmadd231psMem(Ymm(2), Ymm(4), m2)),
        vmem(MemInst::Vfmadd231psMem(Ymm(3), Ymm(4), m3)),
    ];
    let s1 = step(Inst::Mem(MemInst::Vbroadcastss(Ymm(4), ma)), fpu, t);
    lemma_vbroadcastss(Ymm(4), ma, fpu, t);
    lemma_run_op(ca, fpu, fuel, t);
    lemma_run_none(ca.drop_first(), fpu, fuel, s1);
    assert(t.addr(ma) == x.lhs + 4 * c);
    assert(word_at(t.mem, x.lhs + 4 * c) == x.a[c]);
    assert(forall|l: int| 0 <= l < 8 ==> #[trigger] s1.vecs[4][l] == x.a[c]);
    assert(in_range(s1));
    lemma_index(Reg::RDX, Reg::RCX, n, Reg::RBX, fpu, fuel, s1, p);
    let s2 = Machine { regs: s1.regs.insert(Reg::RDX, p), ..s1 };
    lemma_run_concat(ca, cb, fpu, fuel, t);
    assert(in_range(s2));
    assert(s2.addr(m0) == x.rhs + 4 * (c * x.n + j));
    assert(s2.addr(m1) == x.rhs + 4 * (c * x.n + (j + 8)));
    assert(s2.addr(m2) == x.rhs + 4 * (c * x.n + (j + 16)));
    assert(s2.addr(m3) == x.rhs + 4 * (c * x.n + (j + 24)));
    let s3 = step(Inst::Mem(MemInst::Vfmadd231psMem(Ymm(0), Ymm(4), m0)), fpu, s2);
    let s4 = step(Inst::Mem(MemInst::Vfmadd231psMem(Ymm(1), Ymm(4), m1)), fpu, s3);
    let s5 = step(Inst::Mem(MemInst::Vfmadd231psMem(Ymm(2), Ymm(4), m2)), fpu, s4);
    let s6 = step(Inst::Mem(MemInst::Vfmadd231psMem(Ymm(3), Ymm(4), m3)), fpu, s5);
    lemma_add_term(x, fpu, s2, 0, m0, j, c);
    assert(s3.addr(m1) == s2.addr(m1));
    lemma_add_term(x, fpu, s3, 1, m1, j + 8, c);
    assert(s4.addr(m2) == s2.addr(m2));
    lemma_add_term(x, fpu, s4, 2, m2, j + 16, c);
    assert(s5.addr(m3) == s2.addr(m3));
    lemma_add_term(x, fpu, s5, 3, m3, j + 24, c);
    let d1 = cc.drop_first();
    let d2 = d1.drop_first();
    let d3 = d2.drop_first();
    lemma_run_concat(ca + cb, cc, fpu, fuel, t);
    lemma_run_op(cc, fpu, fuel, s2);
    lemma_run_op(d1, fpu, fuel, s3);
    lemma_run_op(d2, fpu, fuel, s4);
    lemma_run_op(d3, fpu, fuel, s5);
    lemma_run_none(d3.drop_first(), fpu, fuel, s6);
    assert(run(matmul_avx2_1xn_4acc_terms(n), fpu, fuel, t) == Some(s6));
    let u = s6.set(Reg::RCX, s6.regs[Reg::RCX] + 1);
    assert(in_range(u));
}

/// Before column `j`.
spec fn line_inv(x: Task, mem0: spec_fn(int) -> u8, j: int, t: Machine) -> bool {
    &&& x.steady(t)
    &&& t.regs[Reg::RBX] == j
    &&& 0 <= j <= x.n
    &&& x.done(mem0, t.mem, j)
}

/// Stores one accumulator.
proof fn lemma_store_sums(
    x: Task,
    fpu: Fpu,
    mem0: spec_fn(int) -> u8,
    s: Machine,
    acc: u8,
    m: Mem,
    j: int,
)
    requires
        x.ok(),
        x.m == 1,
        is_fused(x, fpu),
        0 <= j,
        j + 8 <= x.n,
        s.addr(m) == x.out + 4 * j,
        x.done(mem0, s.mem, j),
        sums(x, fpu, 0, j, x.k as nat, s.vecs[acc]),
    ensures
        ({
            let u = step(Inst::Mem(MemInst::VmovupsStore(Ymm(acc), m)), fpu, s);
            &&& u.regs == s.regs
            &&& u.vecs == s.vecs
            &&& x.done(mem0, u.mem, j + 8)
            &&& same_outside(s.mem, u.mem, x.out, x.out + 4 * (x.m * x.n))
        }),
{
    lemma_vmovups_store(Ymm(acc), m, fpu, s);
    assert(0 * x.n + j == j);
    lemma_store_wide(x, fpu, mem0, s.mem, s.vecs[acc], 0, j);
}

#[verifier::rlimit(40)]
proof fn lemma_four_columns(
    x: Task,
    fpu: Fpu,
    fuel: nat,
    mem0: spec_fn(int) -> u8,
    j: int,
    t: Machine,
)
    requires
        x.ok(),
        x.m == 1,
        is_fused(x, fpu),
        fuel > x.k + 1,
        j + 32 <= x.n,
        line_inv(x, mem0, j, t),
    ensures
        after_turn(
            Reg::RBX,
            32,
            matmul_avx2_1xn_4acc_columns(x.k as i32, x.n as i32),
            fpu,
            fuel,
            t,
        ) matches Some(u) && line_inv(x, mem0, j + 32, u),
{
    let k = x.k as i32;
    let n = x.n as i32;
    let body = matmul_avx2_1xn_4acc_terms(n);
    let zero = zero4_code();
    let terms = seq![counted(Reg::RCX, k, 1, body)];
    let m0 = at(Reg::R14, Reg::RBX, Scale::S4, 0);
    let m1 = at(Reg::R14, Reg::RBX, Scale::S4, 32);
    let m2 = at(Reg::R14, Reg::RBX, Scale::S4, 64);
    let m3 = at(Reg::R14, Reg::RBX, Scale::S4, 96);
    let put = seq![
        vmem(MemInst::VmovupsStore(Ymm(0), m0)),
        vmem(MemInst::VmovupsStore(Ymm(1), m1)),
        vmem(MemInst::VmovupsStore(Ymm(2), m2)),
        vmem(MemInst::VmovupsStore(Ymm(3), m3)),
    ];
    lemma_small(x.m, x.n);
    assert(1 * x.n == x.n);
    lemma_zero4(fpu, fuel, t);
    let s1 = run(zero, fpu, fuel, t)->0;

    let inv = |c: int, u: Machine| four_inv(x, fpu, j, t.mem, c, u);
    assert forall|c: int, u: Machine| #[trigger]
        inv(c, u) && 0 <= c < k && c % 1 == 0 implies (after_turn(
        Reg::RCX,
        1,
        body,
        fpu,
        fuel,
        u,
    ) matches Some(w) && inv(c + 1, w)) by {
        lemma_four_term(x, fpu, fuel, j, t.mem, c, u);
    }
    assert(in_range(s1.set(Reg::RCX, 0)));
    assert(inv(0, s1.set(Reg::RCX, 0)));
    lemma_loop(Reg::RCX, k, 1, body, fpu, fuel, s1, inv);
    lemma_last_count(x.k, 1);
    lemma_run_single(terms[0], fpu, fuel, s1);
    let s2 = run_one(terms[0], fpu, fuel, s1)->0;
    assert(inv(x.k, s2));
    lemma_run_concat(zero, terms, fpu, fuel, t);

    assert(s2.addr(m0) == x.out + 4 * j);
    assert(s2.addr(m1) == x.out + 4 * (j + 8));
    assert(s2.addr(m2) == x.out + 4 * (j + 16));
    assert(s2.addr(m3) == x.out + 4 * (j + 24));
    let s3 = step(Inst::Mem(MemInst::VmovupsStore(Ymm(0), m0)), fpu, s2);
    let s4 = step(Inst::Mem(MemInst::VmovupsStore(Ymm(1), m1)), fpu, s3);
    let s5 = step(Inst::Mem(MemInst::VmovupsStore(Ymm(2), m2)), fpu, s4);
    let s6 = step(Inst::Mem(MemInst::VmovupsStore(Ymm(3), m3)), fpu, s5);
    lemma_store_sums(x, fpu, mem0, s2, 0, m0, j);
    assert(s3.addr(m1) == s2.addr(m1));
    lemma_store_sums(x, fpu, mem0, s3, 1, m1, j + 8);
    assert(s4.addr(m2) == s2.addr(m2));
    lemma_store_sums(x, fpu, mem0, s4, 2, m2, j + 16);
    assert(s5.addr(m3) == s2.addr(m3));
    lemma_store_sums(x, fpu, mem0, s5, 3, m3, j + 24);
    let d1 = put.drop_first();
    let d2 = d1.drop_first();
    let d3 = d2.drop_first();
    lemma_run_concat(zero + terms, put, fpu, fuel, t);
    lemma_run_op(put, fpu, fuel, s2);
    lemma_run_op(d1, fpu, fuel, s3);
    lemma_run_op(d2, fpu, fuel, s4);
    lemma_run_op(d3, fpu, fuel, s5);
    lemma_run_none(d3.drop_first(), fpu, fuel, s6);
    assert(run(matmul_avx2_1xn_4acc_columns(k, n), fpu, fuel, t) == Some(s6));
    let u = s6.set(Reg::RBX, s6.regs[Reg::RBX] + 32);
    assert(in_range(u));
    assert(same_outside(t.mem, u.mem, x.out, x.out + 4 * (x.m * x.n))) by {
        assert forall|q: int|
            !(x.out <= q < x.out + 4 * (x.m * x.n)) implies #[trigger] (u.mem)(q) == (t.mem)(q) by {
            assert((s3.mem)(q) == (s2.mem)(q));
            assert((s4.mem)(q) == (s3.mem)(q));
            assert((s5.mem)(q) == (s4.mem)(q));
            assert((s6.mem)(q) == (s5.mem)(q));
        }
    }
    lemma_inputs_stay(x, t, u);
}

/// The kernel for one row computes the fused product, where the number of
/// columns is a multiple of 32.
pub proof fn lemma_matmul_1xn_4acc(
    fpu: Fpu,
    fuel: nat,
    s: Machine,
    lhs: Reg,
    rhs: Reg,
    out: Reg,
    k: i32,
    n: i32,
    abi: Abi,
)
    requires
        0 <= k,
        0 <= n,
        n % 32 == 0,
        fuel > k + 1,
        fuel > n + 32,
        called(s, lhs, 4 * (1 * k), rhs, 4 * (k * n), out, 4 * (1 * n), abi),
    ensures
        run(matmul_avx2_1xn_4acc_code(lhs, rhs, out, k, n, abi), fpu, fuel, s) matches Some(t)
            && gives_fused_product(fpu, s, t, lhs, rhs, out, 1, k, n),
{
    let extra = frame_extra(abi);
    let x = fused_task(fpu, s, lhs, rhs, out, 1, k, n, abi);
    let head = prologue_code(extra) + bind_code(lhs, rhs, out);
    let body = matmul_avx2_1xn_4acc_columns(k, n);
    let columns = seq![counted(Reg::RBX, n, 32, body)];
    lemma_enter(extra, lhs, rhs, out, fpu, fuel, s);
    let t = run(head, fpu, fuel, s)->0;
    lemma_entered_steady(s, t, lhs, rhs, out, 1, k, n, abi, x.entry);
    lemma_fused_task(fpu, s, lhs, rhs, out, 1, k, n, abi);

    let inv = |j: int, u: Machine| line_inv(x, t.mem, j, u);
    assert forall|j: int, u: Machine| #[trigger]
        inv(j, u) && 0 <= j < n && j % 32 == 0 implies (after_turn(
        Reg::RBX,
        32,
        body,
        fpu,
        fuel,
        u,
    ) matches Some(w) && inv(j + 32, w)) by {
        lemma_four_columns(x, fpu, fuel, t.mem, j, u);
    }
    assert(in_range(t.set(Reg::RBX, 0)));
    assert(inv(0, t.set(Reg::RBX, 0)));
    lemma_loop(Reg::RBX, n, 32, body, fpu, fuel, t, inv);
    lemma_last_count(x.n, 32);
    lemma_run_single(columns[0], fpu, fuel, t);
    let u = run_one(columns[0], fpu, fuel, t)->0;
    assert(inv(x.n, u));
    lemma_run_concat(head, columns, fpu, fuel, s);
    assert(1 * n == n);
    lemma_fused_end(fpu, fuel, s, t, u, lhs, rhs, out, 1, k, n, abi);
    lemma_run_concat(head + columns, epilogue_code(extra), fpu, fuel, s);
}

// ---- four rows and eight columns at a time -------------------------------------------

/// `rax = (r15 + r) * stride + col`, where that is a 64-bit number.
proof fn lemma_tile_index(
    r: i32,
    stride: i32,
    col: Reg,
    fpu: Fpu,
    fuel: nat,
    s: Machine,
    v: int,
)
    requires
        0 <= r < 4,
        0 <= stride,
        col != Reg::RAX,
        in_range(s),
        s.regs[Reg::R15] + r < word_count(),
        v == (s.regs[Reg::R15] + r) * stride + s.regs[col],
        v < word_count(),
    ensures
        run(tile_index_code(r, stride, col), fpu, fuel, s) == Some(
            Machine { regs: s.regs.insert(Reg::RAX, v), ..s },
        ),
{
    let i = s.regs[Reg::R15];
    let w = s.regs[col];
    assert(0 <= i < word_count() && 0 <= w < word_count());
    let p = (i + r) * stride;
    assert(0 <= p) by (nonlinear_arith)
        requires
            0 <= i + r,
            0 <= stride,
            p == (i + r) * stride,
    ;
    let head = if r == 0 {
        seq![gp(IntInst::MovRR(Reg::RAX, Reg::R15))]
    } else {
        seq![gp(IntInst::MovRR(Reg::RAX, Reg::R15)), gp(IntInst::AddRI(Reg::RAX, r))]
    };
    let tail = seq![
        gp(IntInst::ImulRRI(Reg::RAX, Reg::RAX, stride)),
        gp(IntInst::AddRR(Reg::RAX, col)),
    ];
    let h1 = step(Inst::Int(IntInst::MovRR(Reg::RAX, Reg::R15)), fpu, s);
    lemma_mov_rr(Reg::RAX, Reg::R15, fpu, s);
    lemma_run_op(head, fpu, fuel, s);
    let s1 = if r == 0 {
        h1
    } else {
        step(Inst::Int(IntInst::AddRI(Reg::RAX, r)), fpu, h1)
    };
    if r == 0 {
        lemma_run_none(head.drop_first(), fpu, fuel, s1);
    } else {
        lemma_add_ri(Reg::RAX, r, fpu, h1);
        lemma_run_op(head.drop_first(), fpu, fuel, h1);
        lemma_run_none(head.drop_first().drop_first(), fpu, fuel, s1);
    }
    assert(run(head, fpu, fuel, s) == Some(s1));
    assert(s1.regs[Reg::RAX] == i + r);
    let s2 = step(Inst::Int(IntInst::ImulRRI(Reg::RAX, Reg::RAX, stride)), fpu, s1);
    let s3 = step(Inst::Int(IntInst::AddRR(Reg::RAX, col)), fpu, s2);
    lemma_imul(Reg::RAX, Reg::RAX, stride, fpu, s1);
    lemma_add_rr(Reg::RAX, col, fpu, s2);
    lemma_run_concat(head, tail, fpu, fuel, s);
    lemma_run_op(tail, fpu, fuel, s1);
    lemma_run_op(tail.drop_first(), fpu, fuel, s2);
    lemma_run_none(tail.drop_first().drop_first(), fpu, fuel, s3);
    assert(s2.regs[Reg::RAX] == p);
    assert(s2.regs[col] == w);
    assert(s3.regs[Reg::RAX] == v);
    assert(s3.regs =~= s.regs.insert(Reg::RAX, v));
    assert(head + tail =~= tile_index_code(r, stride, col));
}

/// Adds term `c` to the accumulator of row `i + r`.
proof fn lemma_tile_step(
    x: Task,
    fpu: Fpu,
    fuel: nat,
    s: Machine,
    r: i32,
    acc: u8,
    i: int,
    j: int,
    c: int,
)
    requires
        x.ok(),
        0 <= r < 4,
        acc < 4,
        0 <= i,
        i + r < x.m,
        0 <= c < x.k,
        x.steady(s),
        s.regs[Reg::R15] == i,
        s.regs[Reg::RCX] == c,
        forall|l: int| 0 <= l < 8 ==> #[trigger] s.vecs[4][l] == x.b[c * x.n + (j + l)],
        sums(x, fpu, i + r, j, c as nat, s.vecs[acc]),
    ensures
        run(tile_row_step_code(r, Ymm(acc), x.k as i32), fpu, fuel, s) matches Some(u) && {
            &&& x.steady(u)
            &&& forall|q: Reg| q != Reg::RAX ==> #[trigger] u.regs[q] == s.regs[q]
            &&& u.mem == s.mem
            &&& forall|q: u8| q != acc && q != 5 ==> #[trigger] u.vecs[q] == s.vecs[q]
            &&& sums(x, fpu, i + r, j, (c + 1) as nat, u.vecs[acc])
        },
{
    let k = x.k as i32;
    let p = (i + r) * x.k + c;
    lemma_position(x.m, x.k, i + r, c);
    lemma_small(x.m, x.k);
    let m = at(Reg::R12, Reg::RAX, Scale::S4, 0);
    let ca = tile_index_code(r, k, Reg::RCX);
    let cb = seq![
        vmem(MemInst::Vbroadcastss(Ymm(5), m)),
        vps(FloatInst::Vfmadd231psReg(Ymm(acc), Ymm(5), Ymm(4))),
    ];
    lemma_tile_index(r, k, Reg::RCX, fpu, fuel, s, p);
    let s1 = Machine { regs: s.regs.insert(Reg::RAX, p), ..s };
    let s2 = step(Inst::Mem(MemInst::Vbroadcastss(Ymm(5), m)), fpu, s1);
    let s3 = step(Inst::Float(FloatInst::Vfmadd231psReg(Ymm(acc), Ymm(5), Ymm(4))), fpu, s2);
    lemma_vbroadcastss(Ymm(5), m, fpu, s1);
    lemma_vfmadd_reg(Ymm(acc), Ymm(5), Ymm(4), fpu, s2);
    lemma_run_concat(ca, cb, fpu, fuel, s);
    lemma_run_op(cb, fpu, fuel, s1);
    lemma_run_op(cb.drop_first(), fpu, fuel, s2);
    lemma_run_none(cb.drop_first().drop_first(), fpu, fuel, s3);
    assert(s1.addr(m) == x.lhs + 4 * p);
    assert(word_at(s1.mem, x.lhs + 4 * p) == x.a[p]);
    assert forall|l: int| 0 <= l < 8 implies #[trigger] s3.vecs[acc][l] == fused_dot(
        fpu,
        x.a,
        x.b,
        x.k,
        x.n,
        i + r,
        j + l,
        (c + 1) as nat,
    ) by {
        assert(s.vecs[4][l] == x.b[c * x.n + (j + l)]);
        assert(s2.vecs[5][l] == x.a[p]);
        assert(s.vecs[acc][l] == fused_dot(fpu, x.a, x.b, x.k, x.n, i + r, j + l, c as nat));
    }
    assert(in_range(s3));
    assert(x.steady(s3));
}

/// Before term `c` of the tile at `(i, j)`.
spec fn tile_terms_inv(
    x: Task,
    fpu: Fpu,
    i: int,
    j: int,
    mem0: spec_fn(int) -> u8,
    c: int,
    t: Machine,
) -> bool {
    &&& x.steady(t)
    &&& t.regs[Reg::R15] == i
    &&& t.regs[Reg::RBX] == j
    &&& t.regs[Reg::RCX] == c
    &&& 0 <= c <= x.k
    &&& t.mem == mem0
    &&& sums(x, fpu, i, j, c as nat, t.vecs[0])
    &&& sums(x, fpu, i + 1, j, c as nat, t.vecs[1])
    &&& sums(x, fpu, i + 2, j, c as nat, t.vecs[2])
    &&& sums(x, fpu, i + 3, j, c as nat, t.vecs[3])
}

proof fn lemma_tile_term(
    x: Task,
    fpu: Fpu,
    fuel: nat,
    i: int,
    j: int,
    mem0: spec_fn(int) -> u8,
    c: int,
    t: Machine,
)
    requires
        x.ok(),
        0 <= i,
        i + 4 <= x.m,
        0 <= j,
        j + 8 <= x.n,
        c < x.k,
        tile_terms_inv(x, fpu, i, j, mem0, c, t),
    ensures
        after_turn(
            Reg::RCX,
            1,
            matmul_tile_4x8_terms(x.k as i32, x.n as i32),
            fpu,
            fuel,
            t,
        ) matches Some(u) && tile_terms_inv(x, fpu, i, j, mem0, c + 1, u),
{
    let k = x.k as i32;
    let n = x.n as i32;
    let p = c * x.n + j;
    lemma_position(x.k, x.n, c, j);
    lemma_position(x.k, x.n, c, j + 7);
    lemma_small(x.k, x.n);
    let m = at(Reg::R13, Reg::RDX, Scale::S4, 0);
    let ca = index_code(Reg::RDX, Reg::RCX, n, Reg::RBX);
    let cb = seq![vmem(MemInst::VmovupsLoad(Ymm(4), m))];
    let c0 = tile_row_step_code(0, Ymm(0), k);
    let c1 = tile_row_step_code(1, Ymm(1), k);
    let c2 = tile_row_step_code(2, Ymm(2), k);
    let c3 = tile_row_step_code(3, Ymm(3), k);
    lemma_index(Reg::RDX, Reg::RCX, n, Reg::RBX, fpu, fuel, t, p);
    let s1 = Machine { regs: t.regs.insert(Reg::RDX, p), ..t };
    let s2 = step(Inst::Mem(MemInst::VmovupsLoad(Ymm(4), m)), fpu, s1);
    lemma_vmovups_load(Ymm(4), m, fpu, s1);
    lemma_run_concat(ca, cb, fpu, fuel, t);
    lemma_run_op(cb, fpu, fuel, s1);
    lemma_run_none(cb.drop_first(), fpu, fuel, s2);
    assert(s1.addr(m) == x.rhs + 4 * p);
    assert forall|l: int| 0 <= l < 8 implies #[trigger] s2.vecs[4][l] == x.b[c * x.n + (j + l)] by {
        assert(word_at(s1.mem, x.rhs + 4 * (p + l)) == x.b[p + l]);
        assert(x.rhs + 4 * p + 4 * l == x.rhs + 4 * (p + l));
        assert(p + l == c * x.n + (j + l));
    }
    assert(in_range(s2));
    assert(x.steady(s2));
    lemma_tile_step(x, fpu, fuel, s2, 0, 0, i, j, c);
    let s3 = run(c0, fpu, fuel, s2)->0;
    lemma_run_concat(ca + cb, c0, fpu, fuel, t);
    assert(s3.vecs[4] == s2.vecs[4] && s3.vecs[1] == t.vecs[1]);
    lemma_tile_step(x, fpu, fuel, s3, 1, 1, i, j, c);
    let s4 = run(c1, fpu, fuel, s3)->0;
    lemma_run_concat(ca + cb + c0, c1, fpu, fuel, t);
    assert(s4.vecs[4] == s2.vecs[4] && s4.vecs[2] == t.vecs[2]);
    lemma_tile_step(x, fpu, fuel, s4, 2, 2, i, j, c);
    let s5 = run(c2, fpu, fuel, s4)->0;
    lemma_run_concat(ca + cb + c0 + c1, c2, fpu, fuel, t);
    assert(s5.vecs[4] == s2.vecs[4] && s5.vecs[3] == t.vecs[3]);
    lemma_tile_step(x, fpu, fuel, s5, 3, 3, i, j, c);
    let s6 = run(c3, fpu, fuel, s5)->0;
    lemma_run_concat(ca + cb + c0 + c1 + c2, c3, fpu, fuel, t);
    assert(run(matmul_tile_4x8_terms(k, n), fpu, fuel, t) == Some(s6));
    assert(s6.vecs[0] == s3.vecs[0] && s6.vecs[1] == s4.vecs[1] && s6.vecs[2] == s5.vecs[2]);
    let u = s6.set(Reg::RCX, s6.regs[Reg::RCX] + 1);
    assert(in_range(u));
}

/// The entries that are there after `r` rows of the tile at `(i, j)`: all rows
/// before, the columns before in the rows of the tile, and `r` rows of the
/// tile.
spec fn tile_ready(n: int, i: int, j: int, r: int, p: int) -> bool {
    p / n < i || (p / n < i + 4 && p % n < j) || (p / n < i + r && p % n < j + 8)
}

spec fn tile_done(
    x: Task,
    mem0: spec_fn(int) -> u8,
    mem: spec_fn(int) -> u8,
    i: int,
    j: int,
    r: int,
) -> bool {
    &&& forall|p: int|
        0 <= p < x.m * x.n && tile_ready(x.n, i, j, r, p) ==> #[trigger] word_at(
            mem,
            x.out + 4 * p,
        ) == (x.entry)(p)
    &&& same_outside(mem0, mem, x.out, x.out + 4 * (x.m * x.n))
}

/// Writing row `r` of the tile at `(i, j)`.
proof fn lemma_tile_write(
    x: Task,
    fpu: Fpu,
    mem0: spec_fn(int) -> u8,
    mem: spec_fn(int) -> u8,
    v: Seq<u32>,
    i: int,
    j: int,
    r: int,
)
    requires
        x.ok(),
        is_fused(x, fpu),
        0 <= r < 4,
        0 <= i,
        i + r < x.m,
        0 <= j,
        j + 8 <= x.n,
        tile_done(x, mem0, mem, i, j, r),
        sums(x, fpu, i + r, j, x.k as nat, v),
    ensures
        ({
            let next = written(mem, x.out + 4 * ((i + r) * x.n + j), lane_bytes(v, 8));
            &&& tile_done(x, mem0, next, i, j, r + 1)
            &&& same_outside(mem, next, x.out, x.out + 4 * (x.m * x.n))
        }),
{
    let q = (i + r) * x.n + j;
    let next = written(mem, x.out + 4 * q, lane_bytes(v, 8));
    lemma_position(x.m, x.n, i + r, j);
    lemma_position(x.m, x.n, i + r, j + 7);
    assert forall|p: int|
        0 <= p < x.m * x.n && tile_ready(x.n, i, j, r + 1, p) implies #[trigger] word_at(
        next,
        x.out + 4 * p,
    ) == (x.entry)(p) by {
        if q <= p < q + 8 {
            let l = p - q;
            lemma_lanes_back(mem, x.out + 4 * q, v, 8, l);
            assert(x.out + 4 * q + 4 * l == x.out + 4 * p);
            assert(p == (i + r) * x.n + (j + l));
            lemma_position(x.m, x.n, i + r, j + l);
            assert(v[l] == fused_dot(fpu, x.a, x.b, x.k, x.n, i + r, j + l, x.k as nat));
            assert((x.entry)(p) == v[l]);
        } else {
            vstd::arithmetic::div_mod::lemma_fundamental_div_mod(p, x.n);
            if !tile_ready(x.n, i, j, r, p) {
                assert(p / x.n == i + r);
                assert(x.n * (p / x.n) == (i + r) * x.n) by (nonlinear_arith)
                    requires
                        p / x.n == i + r,
                ;
                assert(false);
            }
            assert(word_at(mem, x.out + 4 * p) == (x.entry)(p));
            assert(bytes_at(next, x.out + 4 * p, 4) =~= bytes_at(mem, x.out + 4 * p, 4));
        }
    }
    assert forall|z: int| !(x.out <= z < x.out + 4 * (x.m * x.n)) implies #[trigger] next(z)
        == mem0(z) by {
        assert(next(z) == mem(z));
        assert(mem(z) == mem0(z));
    }
}

/// Stores row `r` of the tile at `(i, j)`.
proof fn lemma_tile_store(
    x: Task,
    fpu: Fpu,
    fuel: nat,
    mem0: spec_fn(int) -> u8,
    s: Machine,
    r: i32,
    acc: u8,
    i: int,
    j: int,
)
    requires
        x.ok(),
        is_fused(x, fpu),
        0 <= r < 4,
        acc < 4,
        0 <= i,
        i + r < x.m,
        0 <= j,
        j + 8 <= x.n,
        x.steady(s),
        s.regs[Reg::R15] == i,
        s.regs[Reg::RBX] == j,
        tile_done(x, mem0, s.mem, i, j, r as int),
        sums(x, fpu, i + r, j, x.k as nat, s.vecs[acc]),
    ensures
        run(tile_row_store_code(r, Ymm(acc), x.n as i32), fpu, fuel, s) matches Some(u) && {
            &&& x.steady(u)
            &&& forall|q: Reg| q != Reg::RAX ==> #[trigger] u.regs[q] == s.regs[q]
            &&& u.vecs == s.vecs
            &&& tile_done(x, mem0, u.mem, i, j, r + 1)
        },
{
    let n = x.n as i32;
    let p = (i + r) * x.n + j;
    lemma_position(x.m, x.n, i + r, j);
    lemma_small(x.m, x.n);
    let m = at(Reg::R14, Reg::RAX, Scale::S4, 0);
    let ca = tile_index_code(r, n, Reg::RBX);
    let cb = seq![vmem(MemInst::VmovupsStore(Ymm(acc), m))];
    lemma_tile_index(r, n, Reg::RBX, fpu, fuel, s, p);
    let s1 = Machine { regs: s.regs.insert(Reg::RAX, p), ..s };
    let s2 = step(Inst::Mem(MemInst::VmovupsStore(Ymm(acc), m)), fpu, s1);
    lemma_vmovups_store(Ymm(acc), m, fpu, s1);
    lemma_run_concat(ca, cb, fpu, fuel, s);
    lemma_run_op(cb, fpu, fuel, s1);
    lemma_run_none(cb.drop_first(), fpu, fuel, s2);
    assert(s1.addr(m) == x.out + 4 * p);
    lemma_tile_write(x, fpu, mem0, s.mem, s.vecs[acc], i, j, r as int);
    assert(in_range(s2));
    lemma_inputs_stay(x, s, s2);
}

/// Before the tile at `(i, j)`.
spec fn tile_columns_inv(x: Task, i: int, mem0: spec_fn(int) -> u8, j: int, t: Machine) -> bool {
    &&& x.steady(t)
    &&& t.regs[Reg::R15] == i
    &&& t.regs[Reg::RBX] == j
    &&& 0 <= j <= x.n
    &&& tile_done(x, mem0, t.mem, i, j, 0)
}

proof fn lemma_tile_column(
    x: Task,
    fpu: Fpu,
    fuel: nat,
    i: int,
    mem0: spec_fn(int) -> u8,
    j: int,
    t: Machine,
)
    requires
        x.ok(),
        is_fused(x, fpu),
        fuel > x.k + 1,
        0 <= i,
        i + 4 <= x.m,
        j + 8 <= x.n,
        tile_columns_inv(x, i, mem0, j, t),
    ensures
        after_turn(
            Reg::RBX,
            8,
            matmul_tile_4x8_columns(x.k as i32, x.n as i32),
            fpu,
            fuel,
            t,
        ) matches Some(u) && tile_columns_inv(x, i, mem0, j + 8, u),
{
    let k = x.k as i32;
    let n = x.n as i32;
    let body = matmul_tile_4x8_terms(k, n);
    let zero = zero4_code();
    let terms = seq![counted(Reg::RCX, k, 1, body)];
    let c0 = tile_row_store_code(0, Ymm(0), n);
    let c1 = tile_row_store_code(1, Ymm(1), n);
    let c2 = tile_row_store_code(2, Ymm(2), n);
    let c3 = tile_row_store_code(3, Ymm(3), n);
    lemma_zero4(fpu, fuel, t);
    let s1 = run(zero, fpu, fuel, t)->0;

    let inv = |c: int, u: Machine| tile_terms_inv(x, fpu, i, j, t.mem, c, u);
    assert forall|c: int, u: Machine| #[trigger]
        inv(c, u) && 0 <= c < k && c % 1 == 0 implies (after_turn(
        Reg::RCX,
        1,
        body,
        fpu,
        fuel,
        u,
    ) matches Some(w) && inv(c + 1, w)) by {
        lemma_tile_term(x, fpu, fuel, i, j, t.mem, c, u);
    }
    assert(in_range(s1.set(Reg::RCX, 0)));
    assert(inv(0, s1.set(Reg::RCX, 0)));
    lemma_loop(Reg::RCX, k, 1, body, fpu, fuel, s1, inv);
    lemma_last_count(x.k, 1);
    lemma_run_single(terms[0], fpu, fuel, s1);
    let s2 = run_one(terms[0], fpu, fuel, s1)->0;
    assert(inv(x.k, s2));
    lemma_run_concat(zero, terms, fpu, fuel, t);

    lemma_tile_store(x, fpu, fuel, mem0, s2, 0, 0, i, j);
    let s3 = run(c0, fpu, fuel, s2)->0;
    lemma_run_concat(zero + terms, c0, fpu, fuel, t);
    lemma_tile_store(x, fpu, fuel, mem0, s3, 1, 1, i, j);
    let s4 = run(c1, fpu, fuel, s3)->0;
    lemma_run_concat(zero + terms + c0, c1, fpu, fuel, t);
    lemma_tile_store(x, fpu, fuel, mem0, s4, 2, 2, i, j);
    let s5 = run(c2, fpu, fuel, s4)->0;
    lemma_run_concat(zero + terms + c0 + c1, c2, fpu, fuel, t);
    lemma_tile_store(x, fpu, fuel, mem0, s5, 3, 3, i, j);
    let s6 = run(c3, fpu, fuel, s5)->0;
    lemma_run_concat(zero + terms + c0 + c1 + c2, c3, fpu, fuel, t);
    assert(run(matmul_tile_4x8_columns(k, n), fpu, fuel, t) == Some(s6));
    let u = s6.set(Reg::RBX, s6.regs[Reg::RBX] + 8);
    assert(in_range(u));
    assert(tile_done(x, mem0, u.mem, i, j + 8, 0));
}

/// Before the tiles of row `i`.
spec fn tile_rows_inv(x: Task, mem0: spec_fn(int) -> u8, i: int, t: Machine) -> bool {
    &&& x.steady(t)
    &&& t.regs[Reg::R15] == i
    &&& 0 <= i <= x.m
    &&& tile_done(x, mem0, t.mem, i, 0, 0)
}

proof fn lemma_tile_row(
    x: Task,
    fpu: Fpu,
    fuel: nat,
    mem0: spec_fn(int) -> u8,
    i: int,
    t: Machine,
)
    requires
        x.ok(),
        is_fused(x, fpu),
        x.n % 8 == 0,
        fuel > x.k + 1,
        fuel > x.n + 8,
        i + 4 <= x.m,
        tile_rows_inv(x, mem0, i, t),
    ensures
        after_turn(
            Reg::R15,
            4,
            matmul_tile_4x8_rows(x.k as i32, x.n as i32),
            fpu,
            fuel,
            t,
        ) matches Some(u) && tile_rows_inv(x, mem0, i + 4, u),
{
    let k = x.k as i32;
    let n = x.n as i32;
    let body = matmul_tile_4x8_columns(k, n);
    let code = matmul_tile_4x8_rows(k, n);
    let inv = |j: int, u: Machine| tile_columns_inv(x, i, mem0, j, u);
    assert forall|j: int, u: Machine| #[trigger]
        inv(j, u) && 0 <= j < n && j % 8 == 0 implies (after_turn(
        Reg::RBX,
        8,
        body,
        fpu,
        fuel,
        u,
    ) matches Some(w) && inv(j + 8, w)) by {
        lemma_tile_column(x, fpu, fuel, i, mem0, j, u);
    }
    let s0 = t.set(Reg::RBX, 0);
    assert(in_range(s0));
    assert(x.steady(s0));
    assert(inv(0, s0));
    lemma_loop(Reg::RBX, n, 8, body, fpu, fuel, t, inv);
    lemma_last_count(x.n, 8);
    lemma_run_single(code[0], fpu, fuel, t);
    assert(code =~= seq![code[0]]);
    let s1 = run_one(code[0], fpu, fuel, t)->0;
    assert(inv(x.n, s1));
    let u = s1.set(Reg::R15, s1.regs[Reg::R15] + 4);
    assert(in_range(u));
    assert(x.steady(u));
    assert forall|p: int|
        0 <= p < x.m * x.n && tile_ready(x.n, i + 4, 0, 0, p) implies #[trigger] word_at(
        u.mem,
        x.out + 4 * p,
    ) == (x.entry)(p) by {
        lemma_in_row(x.m, x.n, p);
    }
}

/// The row and the column of a position.
proof fn lemma_in_row(rows: int, cols: int, p: int)
    requires
        0 <= rows,
        0 <= cols,
        0 <= p < rows * cols,
    ensures
        0 <= p / cols < rows,
        0 <= p % cols < cols,
{
    assert(0 < cols) by (nonlinear_arith)
        requires
            0 <= cols,
            0 <= p < rows * cols,
    ;
    assert(0 <= p / cols < rows) by (nonlinear_arith)
        requires
            0 < cols,
            0 <= p < rows * cols,
    ;
    vstd::arithmetic::div_mod::lemma_mod_bound(p, cols);
}

/// The kernel with tiles of four rows and eight columns computes the fused
/// product, where the number of rows is a multiple of four and the number of
/// columns one of eight.
pub proof fn lemma_matmul_tile_4x8(
    fpu: Fpu,
    fuel: nat,
    s: Machine,
    lhs: Reg,
    rhs: Reg,
    out: Reg,
    m: i32,
    k: i32,
    n: i32,
    abi: Abi,
)
    requires
        0 <= m,
        0 <= k,
        0 <= n,
        m % 4 == 0,
        n % 8 == 0,
        fuel > m + 4,
        fuel > k + 1,
        fuel > n + 8,
        called(s, lhs, 4 * (m * k), rhs, 4 * (k * n), out, 4 * (m * n), abi),
    ensures
        run(matmul_tile_4x8_code(lhs, rhs, out, m, k, n, abi), fpu, fuel, s) matches Some(t)
            && gives_fused_product(fpu, s, t, lhs, rhs, out, m, k, n),
{
    let extra = frame_extra(abi);
    let x = fused_task(fpu, s, lhs, rhs, out, m, k, n, abi);
    let head = prologue_code(extra) + bind_code(lhs, rhs, out);
    let body = matmul_tile_4x8_rows(k, n);
    let rows = seq![counted(Reg::R15, m, 4, body)];
    lemma_enter(extra, lhs, rhs, out, fpu, fuel, s);
    let t = run(head, fpu, fuel, s)->0;
    lemma_entered_steady(s, t, lhs, rhs, out, m, k, n, abi, x.entry);
    lemma_fused_task(fpu, s, lhs, rhs, out, m, k, n, abi);

    let inv = |i: int, u: Machine| tile_rows_inv(x, t.mem, i, u);
    assert forall|i: int, u: Machine| #[trigger]
        inv(i, u) && 0 <= i < m && i % 4 == 0 implies (after_turn(
        Reg::R15,
        4,
        body,
        fpu,
        fuel,
        u,
    ) matches Some(w) && inv(i + 4, w)) by {
        lemma_tile_row(x, fpu, fuel, t.mem, i, u);
    }
    let s0 = t.set(Reg::R15, 0);
    assert(in_range(s0));
    assert(x.steady(s0));
    assert forall|p: int|
        0 <= p < x.m * x.n && tile_ready(x.n, 0, 0, 0, p) implies #[trigger] word_at(
        s0.mem,
        x.out + 4 * p,
    ) == (x.entry)(p) by {
        lemma_in_row(x.m, x.n, p);
    }
    assert(inv(0, s0));
    lemma_loop(Reg::R15, m, 4, body, fpu, fuel, t, inv);
    lemma_last_count(x.m, 4);
    lemma_run_single(rows[0], fpu, fuel, t);
    let u = run_one(rows[0], fpu, fuel, t)->0;
    assert(inv(x.m, u));
    assert forall|p: int| 0 <= p < x.m * x.n implies #[trigger] word_at(u.mem, x.out + 4 * p) == (
    x.entry)(p) by {
        lemma_in_row(x.m, x.n, p);
    }
    lemma_run_concat(head, rows, fpu, fuel, s);
    lemma_fused_end(fpu, fuel, s, t, u, lhs, rhs, out, m, k, n, abi);
    lemma_run_concat(head + rows, epilogue_code(extra), fpu, fuel, s);
}

} // verus!
